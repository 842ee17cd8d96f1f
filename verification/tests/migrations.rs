use song_class::schema::{
    bootstrap_existing_database, needs_default_classroom, parse_migration_version, requires_legacy_probe,
    CatalogError, MigrationCatalog, SchemaBootstrap,
};

fn file(name: &str, sql: &str) -> (String, String) {
    (name.to_string(), sql.to_string())
}

fn catalog() -> MigrationCatalog {
    let files = vec![
        file("003_add_line.sql", "ALTER TABLE c;"),
        file("README.md", "notes"),
        file("001_baseline.sql", "CREATE TABLE a;"),
        file("002_points.sql", "ALTER TABLE b;"),
    ];
    match MigrationCatalog::from_files(&files) {
        Ok(c) => c,
        Err(e) => panic!("catalog refused: {:?}", e),
    }
}

#[test]
fn migration_file_names_carry_three_digit_versions() {
    assert_eq!(parse_migration_version("001_baseline.sql"), Some(1));
    assert_eq!(parse_migration_version("042_x.sql"), Some(42));
    assert_eq!(parse_migration_version("120_add_line_settings.sql"), Some(120));
    assert_eq!(parse_migration_version("001_.sql"), Some(1));
    assert_eq!(parse_migration_version("01_a.sql"), None);
    assert_eq!(parse_migration_version("abc_init.sql"), None);
    assert_eq!(parse_migration_version("001-init.sql"), None);
    assert_eq!(parse_migration_version("001_init.txt"), None);
    assert_eq!(parse_migration_version(""), None);
}

#[test]
fn catalog_orders_migrations_by_version() {
    let c = catalog();
    assert_eq!(c.len(), 3);
    assert_eq!(c.version_at(0), 1);
    assert_eq!(c.version_at(1), 2);
    assert_eq!(c.version_at(2), 3);
    assert_eq!(c.sql_at(0), "CREATE TABLE a;");
    assert_eq!(c.sql_at(2), "ALTER TABLE c;");
    assert_eq!(c.latest_schema_version(), 3);
    assert_eq!(c.baseline_migration(), Ok((1, "CREATE TABLE a;".to_string())));
}

#[test]
fn catalog_refuses_duplicates_and_empty_sets() {
    let dup = vec![file("001_a.sql", "A"), file("002_b.sql", "B"), file("002_c.sql", "C")];
    assert!(matches!(MigrationCatalog::from_files(&dup), Err(CatalogError::DuplicateVersion(2))));
    let none = vec![file("notes.txt", "x"), file("1_a.sql", "y")];
    assert!(matches!(MigrationCatalog::from_files(&none), Err(CatalogError::NoMigrations)));
    assert!(matches!(MigrationCatalog::from_files(&Vec::new()), Err(CatalogError::NoMigrations)));
}

#[test]
fn migrations_reach_latest_from_any_older_version() {
    let c = catalog();
    for current in 0..=3 {
        let start = c.pending_migrations(current).unwrap();
        assert_eq!(start, current as usize);
        let after = if start < c.len() { c.version_at(c.len() - 1) } else { current };
        assert_eq!(after, c.latest_schema_version());
    }
}

#[test]
fn database_ahead_of_catalog_is_refused() {
    let c = catalog();
    assert_eq!(
        c.pending_migrations(7),
        Err("資料庫版本 (7) 高於目前程式支援版本 (3)".to_string())
    );
}

#[test]
fn restart_after_migrating_changes_nothing() {
    let c = catalog();
    let latest = c.latest_schema_version();
    assert_eq!(bootstrap_existing_database(latest, true), SchemaBootstrap::KeepStoredVersion);
    assert_eq!(bootstrap_existing_database(latest, false), SchemaBootstrap::KeepStoredVersion);
    assert_eq!(c.pending_migrations(latest), Ok(c.len()));
}

#[test]
fn fresh_and_legacy_databases_are_bootstrapped() {
    assert!(requires_legacy_probe(0));
    assert!(!requires_legacy_probe(2));
    assert_eq!(bootstrap_existing_database(0, false), SchemaBootstrap::ApplyBaseline);
    assert_eq!(bootstrap_existing_database(0, true), SchemaBootstrap::AdoptLegacySchema);
    assert!(needs_default_classroom(0));
    assert!(!needs_default_classroom(1));
}

#[test]
fn restart_on_a_catalog_at_version_zero_records_zero_again() {
    let files = vec![file("000_baseline.sql", "CREATE TABLE a;")];
    let c = match MigrationCatalog::from_files(&files) {
        Ok(c) => c,
        Err(e) => panic!("catalog refused: {:?}", e),
    };
    assert_eq!(c.latest_schema_version(), 0);
    assert_eq!(c.baseline_migration(), Ok((0, "CREATE TABLE a;".to_string())));
    assert_eq!(bootstrap_existing_database(0, true), SchemaBootstrap::AdoptLegacySchema);
    assert_eq!(c.pending_migrations(0), Ok(1));
}
