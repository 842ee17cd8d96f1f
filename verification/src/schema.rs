//! The database schema versions: the catalog of versioned migration files,
//! which of them a database still needs, and what the start-up does with a
//! new, a legacy or an up-to-date database.
use vstd::prelude::*;
use crate::text::{byte_len, capped_byte_len, digit_value, i64_to_decimal, is_ascii_digit, signed_decimal, to_chars};

verus! {

broadcast use vstd::string::group_string_axioms;

/// A versioned migration: its version and its SQL text.
#[derive(Debug)]
pub struct Migration {
    pub version: i32,
    pub sql: String,
}

/// Why the migration files do not form a catalog.
#[derive(Debug, PartialEq, Eq, Structural)]
pub enum CatalogError {
    /// Two files carry this version.
    DuplicateVersion(i32),
    /// No file name has the `NNN_*.sql` shape.
    NoMigrations,
}

/// The versioned migrations, by strictly increasing version.
pub struct MigrationCatalog {
    migrations: Vec<Migration>,
}

/// What the start-up does to a database before the pending migrations run.
#[derive(Debug, Clone, Copy, PartialEq, Eq, Structural)]
pub enum SchemaBootstrap {
    /// Run the baseline migration and record its version.
    ApplyBaseline,
    /// The tables exist from before versioning: record the baseline version.
    AdoptLegacySchema,
    /// The recorded version stands.
    KeepStoredVersion,
}

impl View for MigrationCatalog {
    type V = Seq<(i32, Seq<char>)>;

    closed spec fn view(&self) -> Seq<(i32, Seq<char>)> {
        self.migrations@.map_values(|m: Migration| (m.version, m.sql@))
    }
}

/// Versions strictly increase along the catalog.
pub open spec fn ascending(v: Seq<(i32, Seq<char>)>) -> bool {
    forall|i: int, j: int| 0 <= i < j < v.len() ==> (#[trigger] v[i]).0 < (#[trigger] v[j]).0
}

/// The version of a migration file named `name`: `NNN_*.sql` with three
/// leading digits, at least eight bytes long.
pub open spec fn migration_file_version(name: Seq<char>) -> Option<i32> {
    if name.len() >= 4 && name.subrange(name.len() - 4, name.len() as int) == ".sql"@
        && byte_len(name) >= 8 && is_ascii_digit(name[0]) && is_ascii_digit(name[1])
        && is_ascii_digit(name[2]) && name[3] == '_' {
        Some((100 * digit_value(name[0]) + 10 * digit_value(name[1]) + digit_value(name[2])) as i32)
    } else {
        None
    }
}

/// The version that the file at position `k` carries.
pub open spec fn file_version(files: Seq<(String, String)>, k: int) -> Option<i32> {
    migration_file_version(files[k].0@)
}

/// The file at position `k` carries a version that an earlier file has.
pub open spec fn repeats_earlier(files: Seq<(String, String)>, k: int) -> bool {
    file_version(files, k) is Some && exists|j: int|
        0 <= j < k && #[trigger] file_version(files, j) == file_version(files, k)
}

/// Some versioned file carries the version and the SQL text of `entry`.
pub open spec fn comes_from_file(files: Seq<(String, String)>, entry: (i32, Seq<char>)) -> bool {
    exists|k: int|
        0 <= k < files.len() && #[trigger] file_version(files, k) == Some(entry.0) && files[k].1@
            == entry.1
}

/// The latest version of a catalog; 0 for an empty one.
pub open spec fn latest_version(v: Seq<(i32, Seq<char>)>) -> i32 {
    if v.len() == 0 {
        0
    } else {
        v.last().0
    }
}

/// Where the migrations that a database at version `current` still needs
/// begin: the trailing run of versions above `current`.
pub open spec fn pending_from(v: Seq<(i32, Seq<char>)>, current: i32) -> int
    decreases v.len(),
{
    if v.len() == 0 {
        0
    } else if v.last().0 > current {
        pending_from(v.drop_last(), current)
    } else {
        v.len() as int
    }
}

/// The version a database at `current` ends at after running the
/// migrations from `start` on.
pub open spec fn version_after(v: Seq<(i32, Seq<char>)>, current: i32, start: int) -> i32 {
    if start < v.len() {
        v.last().0
    } else {
        current
    }
}

/// What the start-up does to an existing database that records
/// `stored_version`, where `legacy_tables_present` tells whether any of the
/// four classroom tables exists.
pub open spec fn bootstrap_for(stored_version: i32, legacy_tables_present: bool) -> SchemaBootstrap {
    if stored_version != 0 {
        SchemaBootstrap::KeepStoredVersion
    } else if legacy_tables_present {
        SchemaBootstrap::AdoptLegacySchema
    } else {
        SchemaBootstrap::ApplyBaseline
    }
}

/// The pending migrations start within the catalog, all lie above
/// `current`, and the one before them does not.
pub proof fn lemma_pending_from_bounds(v: Seq<(i32, Seq<char>)>, current: i32)
    ensures
        0 <= pending_from(v, current) <= v.len(),
        forall|k: int| pending_from(v, current) <= k < v.len() ==> (#[trigger] v[k]).0 > current,
        pending_from(v, current) > 0 ==> v[pending_from(v, current) - 1].0 <= current,
    decreases v.len(),
{
    if v.len() > 0 && v.last().0 > current {
        let d = v.drop_last();
        lemma_pending_from_bounds(d, current);
        assert forall|k: int| pending_from(v, current) <= k < v.len() implies (#[trigger] v[k]).0
            > current by {
            if k < d.len() {
                assert(d[k] == v[k]);
            }
        }
        if pending_from(d, current) > 0 {
            assert(d[pending_from(d, current) - 1] == v[pending_from(d, current) - 1]);
        }
    }
}

/// In an ascending catalog the pending migrations are exactly those whose
/// version is above `current`.
pub proof fn lemma_pending_from_ascending(v: Seq<(i32, Seq<char>)>, current: i32)
    requires
        ascending(v),
    ensures
        forall|k: int|
            0 <= k < v.len() ==> (k >= pending_from(v, current) <==> (#[trigger] v[k]).0 > current),
{
    lemma_pending_from_bounds(v, current);
    let p = pending_from(v, current);
    assert forall|k: int| 0 <= k < v.len() implies (k >= p <==> (#[trigger] v[k]).0 > current) by {
        if k < p {
            if k < p - 1 {
                assert(v[k].0 < v[p - 1].0);
            }
        }
    }
}

/// Running the pending migrations of an ascending, non-empty catalog takes a
/// database that is not ahead of it to the latest version.
pub proof fn law_migrations_reach_latest(v: Seq<(i32, Seq<char>)>, current: i32)
    requires
        ascending(v),
        v.len() > 0,
        current <= latest_version(v),
    ensures
        version_after(v, current, pending_from(v, current)) == latest_version(v),
{
    lemma_pending_from_bounds(v, current);
    if pending_from(v, current) >= v.len() {
        assert(v[v.len() - 1].0 <= current);
    }
}

/// The version a database records after the start-up did `b` to it, when
/// it recorded `stored` and the baseline migration has version `baseline`.
pub open spec fn recorded_version(b: SchemaBootstrap, stored: i32, baseline: i32) -> i32 {
    match b {
        SchemaBootstrap::KeepStoredVersion => stored,
        _ => baseline,
    }
}

/// A catalog as the migration files give it: not empty, its versions
/// strictly increasing and each in 0..=999, as a file name can carry.
pub open spec fn catalog_valid(v: Seq<(i32, Seq<char>)>) -> bool {
    &&& ascending(v)
    &&& v.len() > 0
    &&& forall|k: int| 0 <= k < v.len() ==> 0 <= (#[trigger] v[k]).0 <= 999
}

/// The start-up seeds the default classroom only into a database with no
/// classroom at all.
pub open spec fn seeds_default_classroom(classroom_count: int) -> bool {
    classroom_count == 0
}

/// The version a migration file name carries lies in 0..=999.
pub proof fn lemma_file_version_range(name: Seq<char>)
    ensures
        migration_file_version(name) matches Some(x) ==> 0 <= x <= 999,
{
}

/// A second start-up on a database that the first one brought to the
/// latest version of a valid catalog, and that holds the classroom it
/// seeded, changes nothing: it records the latest version again, no
/// migration is pending and no classroom is seeded; unless the latest
/// version is 0, it keeps the recorded version without touching the schema.
pub proof fn law_restart_is_idempotent(
    catalog: MigrationCatalog,
    legacy_tables_present: bool,
    classroom_count: int,
)
    requires
        catalog.wf(),
        classroom_count >= 1,
    ensures
        recorded_version(
            bootstrap_for(latest_version(catalog@), legacy_tables_present),
            latest_version(catalog@),
            catalog@[0].0,
        ) == latest_version(catalog@),
        latest_version(catalog@) != 0 ==> bootstrap_for(latest_version(catalog@), legacy_tables_present)
            == SchemaBootstrap::KeepStoredVersion,
        pending_from(catalog@, latest_version(catalog@)) == catalog@.len(),
        !seeds_default_classroom(classroom_count),
{
    let v = catalog@;
    if latest_version(v) == 0 && v.len() > 1 {
        assert(v[0].0 < v[v.len() - 1].0);
    }
}

impl MigrationCatalog {
    /// The catalog invariant: not empty, versions strictly increasing,
    /// each in 0..=999.
    pub open spec fn wf(&self) -> bool {
        catalog_valid(self@)
    }

    /// Builds the catalog from migration files given as (file name, SQL
    /// text), in the order the directory lists them. Files whose name lacks
    /// the `NNN_*.sql` shape are left out; the first file whose version an
    /// earlier file already has refuses the set, and so does a set with no
    /// versioned file.
    pub fn from_files(files: &Vec<(String, String)>) -> (r: Result<MigrationCatalog, CatalogError>)
        ensures
            match r {
                Ok(c) => {
                    &&& c.wf()
                    &&& forall|k: int| 0 <= k < files@.len() ==> !repeats_earlier(files@, k)
                    &&& forall|k: int|
                        0 <= k < files@.len() && #[trigger] file_version(files@, k) is Some
                            ==> c@.contains((file_version(files@, k)->0, files@[k].1@))
                    &&& forall|j: int| 0 <= j < c@.len() ==> comes_from_file(files@, #[trigger] c@[j])
                },
                Err(CatalogError::DuplicateVersion(version)) => exists|k: int|
                    0 <= k < files@.len() && repeats_earlier(files@, k) && file_version(files@, k)
                        == Some(version) && forall|j: int|
                        0 <= j < k ==> !repeats_earlier(files@, j),
                Err(CatalogError::NoMigrations) => (forall|k: int|
                    0 <= k < files@.len() ==> !repeats_earlier(files@, k)) && forall|k: int|
                    0 <= k < files@.len() ==> #[trigger] file_version(files@, k) is None,
            },
    {
        let mut migrations: Vec<Migration> = Vec::new();
        let mut k: usize = 0;
        while k < files.len()
            invariant
                k <= files@.len(),
                ascending(migrations@.map_values(|m: Migration| (m.version, m.sql@))),
                forall|j: int| 0 <= j < k ==> !repeats_earlier(files@, j),
                forall|j: int|
                    0 <= j < k && #[trigger] file_version(files@, j) is Some ==> migrations@.map_values(
                        |m: Migration| (m.version, m.sql@),
                    ).contains((file_version(files@, j)->0, files@[j].1@)),
                forall|q: int|
                    0 <= q < migrations@.len() ==> exists|j: int|
                        0 <= j < k && file_version(files@, j) == Some(
                            (#[trigger] migrations@[q]).version,
                        ) && files@[j].1@ == migrations@[q].sql@,
            decreases files@.len() - k,
        {
            let ghost before = migrations@.map_values(|m: Migration| (m.version, m.sql@));
            let parsed = parse_migration_version(files[k].0.as_str());
            match parsed {
                None => {},
                Some(version) => {
                    let mut p: usize = 0;
                    while p < migrations.len() && migrations[p].version < version
                        invariant
                            p <= migrations@.len(),
                            forall|q: int| 0 <= q < p ==> (#[trigger] migrations@[q]).version < version,
                        decreases migrations@.len() - p,
                    {
                        p = p + 1;
                    }
                    if p < migrations.len() && migrations[p].version == version {
                        proof {
                            let j = choose|j: int|
                                0 <= j < k && file_version(files@, j) == Some(
                                    (#[trigger] migrations@[p as int]).version,
                                ) && files@[j].1@ == migrations@[p as int].sql@;
                            assert(file_version(files@, j) == file_version(files@, k as int));
                            assert(repeats_earlier(files@, k as int));
                        }
                        return Err(CatalogError::DuplicateVersion(version));
                    }
                    proof {
                        assert forall|j: int| 0 <= j < k implies #[trigger] file_version(files@, j)
                            != Some(version) by {
                            if file_version(files@, j) == Some(version) {
                                assert(before.contains((version, files@[j].1@)));
                                let q = choose|q: int| 0 <= q < before.len() && before[q] == (
                                    version,
                                    files@[j].1@,
                                );
                                assert(migrations@[q].version == version);
                                if q < p {
                                } else if q == p {
                                } else {
                                    assert(before[p as int].0 < before[q].0);
                                    assert(migrations@[p as int].version > version);
                                }
                            }
                        }
                        assert(!repeats_earlier(files@, k as int));
                    }
                    let sql = files[k].1.clone();
                    migrations.insert(p, Migration { version, sql });
                    proof {
                        let after = migrations@.map_values(|m: Migration| (m.version, m.sql@));
                        let entry = (version, files@[k as int].1@);
                        assert(after =~= before.insert(p as int, entry));
                        assert forall|a: int, b: int| 0 <= a < b < after.len() implies (
                        #[trigger] after[a]).0 < (#[trigger] after[b]).0 by {
                            if b < p {
                                assert(after[a] == before[a] && after[b] == before[b]);
                            } else if b == p {
                                assert(after[a] == before[a]);
                            } else if a < p {
                                assert(after[a] == before[a] && after[b] == before[b - 1]);
                                if b - 1 > p {
                                    assert(before[p as int].0 < before[b - 1].0);
                                }
                            } else if a == p {
                                assert(after[b] == before[b - 1]);
                                if b - 1 > p {
                                    assert(before[p as int].0 < before[b - 1].0);
                                }
                            } else {
                                assert(after[a] == before[a - 1] && after[b] == before[b - 1]);
                            }
                        }
                        assert(after[p as int] == entry);
                        assert forall|j: int|
                            0 <= j < k + 1 && #[trigger] file_version(files@, j)
                                is Some implies after.contains(
                            (file_version(files@, j)->0, files@[j].1@),
                        ) by {
                            if j < k {
                                let e = (file_version(files@, j)->0, files@[j].1@);
                                let q = choose|q: int| 0 <= q < before.len() && before[q] == e;
                                if q < p {
                                    assert(after[q] == e);
                                } else {
                                    assert(after[q + 1] == e);
                                }
                            }
                        }
                        assert forall|q: int| 0 <= q < migrations@.len() implies exists|j: int|
                            0 <= j < k + 1 && file_version(files@, j) == Some(
                                (#[trigger] migrations@[q]).version,
                            ) && files@[j].1@ == migrations@[q].sql@ by {
                            if q == p {
                                assert(file_version(files@, k as int) == Some(version));
                            } else {
                                let q0 = if q < p {
                                    q
                                } else {
                                    q - 1
                                };
                                assert(after[q] == before[q0]);
                                assert(migrations@[q].version == before[q0].0);
                                let j = choose|j: int|
                                    0 <= j < k && file_version(files@, j) == Some(
                                        (#[trigger] old_entry(before, q0)).0,
                                    ) && files@[j].1@ == old_entry(before, q0).1;
                            }
                        }
                    }
                },
            }
            proof {
                if parsed is None {
                    assert(!repeats_earlier(files@, k as int));
                }
            }
            k = k + 1;
        }
        if migrations.len() == 0 {
            proof {
                assert forall|j: int| 0 <= j < files@.len() implies #[trigger] file_version(
                    files@,
                    j,
                ) is None by {
                    if file_version(files@, j) is Some {
                        let e = (file_version(files@, j)->0, files@[j].1@);
                        assert(migrations@.map_values(|m: Migration| (m.version, m.sql@)).contains(
                            e,
                        ));
                    }
                }
            }
            return Err(CatalogError::NoMigrations);
        }
        let catalog = MigrationCatalog { migrations };
        proof {
            assert(catalog@ == catalog.migrations@.map_values(|m: Migration| (m.version, m.sql@)));
            assert(k == files@.len());
            assert forall|j: int| 0 <= j < catalog@.len() implies comes_from_file(
                files@,
                #[trigger] catalog@[j],
            ) by {
                assert(catalog@[j] == (catalog.migrations@[j].version, catalog.migrations@[j].sql@));
                let q = choose|q: int|
                    0 <= q < k && file_version(files@, q) == Some(
                        (#[trigger] catalog.migrations@[j]).version,
                    ) && files@[q].1@ == catalog.migrations@[j].sql@;
                assert(file_version(files@, q) == Some(catalog@[j].0) && files@[q].1@ == catalog@[j].1);
            }
        }
        Ok(catalog)
    }

    /// The number of migrations.
    pub fn len(&self) -> (n: usize)
        ensures
            n == self@.len(),
    {
        self.migrations.len()
    }

    /// The version of the migration at position `k`.
    pub fn version_at(&self, k: usize) -> (v: i32)
        requires
            k < self@.len(),
        ensures
            v == self@[k as int].0,
    {
        self.migrations[k].version
    }

    /// The SQL text of the migration at position `k`.
    pub fn sql_at(&self, k: usize) -> (sql: &str)
        requires
            k < self@.len(),
        ensures
            sql@ == self@[k as int].1,
    {
        self.migrations[k].sql.as_str()
    }

    /// The latest version; 0 for an empty catalog.
    pub fn latest_schema_version(&self) -> (v: i32)
        ensures
            v == latest_version(self@),
    {
        let n = self.migrations.len();
        if n == 0 {
            0
        } else {
            self.migrations[n - 1].version
        }
    }

    /// The first migration, which creates the schema of a new database.
    pub fn baseline_migration(&self) -> (r: Result<(i32, String), String>)
        ensures
            self@.len() > 0 ==> (r matches Ok(b) && b.0 == self@[0].0 && b.1@ == self@[0].1),
            self@.len() == 0 ==> (r matches Err(m) && m@ == "找不到任何可用的 migration 檔案"@),
    {
        if self.migrations.len() == 0 {
            return Err(String::from_str("找不到任何可用的 migration 檔案"));
        }
        Ok((self.migrations[0].version, self.migrations[0].sql.clone()))
    }

    /// Where the migrations that a database at `current_version` needs
    /// begin; refused when the database is ahead of the catalog.
    pub fn pending_migrations(&self, current_version: i32) -> (r: Result<usize, String>)
        requires
            self.wf(),
        ensures
            current_version > latest_version(self@) ==> (r matches Err(m) && m@ == "資料庫版本 ("@
                + signed_decimal(current_version as int) + ") 高於目前程式支援版本 ("@
                + signed_decimal(latest_version(self@) as int) + ")"@),
            current_version <= latest_version(self@) ==> (r matches Ok(start) && start
                == pending_from(self@, current_version) && forall|k: int|
                0 <= k < self@.len() ==> (k >= start <==> (#[trigger] self@[k]).0 > current_version)),
    {
        let latest = self.latest_schema_version();
        if current_version > latest {
            let mut message = String::from_str("資料庫版本 (");
            let current_text = i64_to_decimal(current_version as i64);
            message.append(current_text.as_str());
            message.append(") 高於目前程式支援版本 (");
            let latest_text = i64_to_decimal(latest as i64);
            message.append(latest_text.as_str());
            message.append(")");
            return Err(message);
        }
        let mut k: usize = self.migrations.len();
        proof {
            assert(self@.take(k as int) =~= self@);
        }
        while k > 0 && self.migrations[k - 1].version > current_version
            invariant
                k <= self@.len(),
                self@.len() == self.migrations@.len(),
                pending_from(self@, current_version) == pending_from(self@.take(k as int), current_version),
            decreases k,
        {
            proof {
                let prefix = self@.take(k as int);
                assert(prefix.drop_last() =~= self@.take(k - 1));
                assert(prefix.last() == self@[k - 1]);
                assert(self@[k - 1].0 == self.migrations@[k - 1].version);
            }
            k = k - 1;
        }
        proof {
            let prefix = self@.take(k as int);
            if k > 0 {
                assert(prefix.last() == self@[k - 1]);
                assert(self@[k - 1].0 == self.migrations@[k - 1].version);
            }
            lemma_pending_from_ascending(self@, current_version);
        }
        Ok(k)
    }
}

/// The entry of a catalog view at `q`.
pub open spec fn old_entry(v: Seq<(i32, Seq<char>)>, q: int) -> (i32, Seq<char>) {
    v[q]
}

/// The version of a migration file named `file_name`: three leading digits
/// of a name shaped `NNN_*.sql` of at least eight bytes.
pub fn parse_migration_version(file_name: &str) -> (r: Option<i32>)
    ensures
        r == migration_file_version(file_name@),
{
    let chars = to_chars(file_name);
    let n = chars.len();
    if n < 4 {
        return None;
    }
    if !(chars[n - 4] == '.' && chars[n - 3] == 's' && chars[n - 2] == 'q' && chars[n - 1] == 'l') {
        proof {
            reveal_strlit(".sql");
            if file_name@.subrange(n - 4, n as int) == ".sql"@ {
                assert(file_name@.subrange(n - 4, n as int)[0] == file_name@[n - 4]);
                assert(file_name@.subrange(n - 4, n as int)[1] == file_name@[n - 3]);
                assert(file_name@.subrange(n - 4, n as int)[2] == file_name@[n - 2]);
                assert(file_name@.subrange(n - 4, n as int)[3] == file_name@[n - 1]);
            }
        }
        return None;
    }
    proof {
        reveal_strlit(".sql");
        assert(file_name@.subrange(n - 4, n as int) =~= ".sql"@);
    }
    if capped_byte_len(&chars, 7) <= 7 {
        return None;
    }
    let d0 = chars[0];
    let d1 = chars[1];
    let d2 = chars[2];
    if !('0' <= d0 && d0 <= '9' && '0' <= d1 && d1 <= '9' && '0' <= d2 && d2 <= '9') {
        return None;
    }
    if chars[3] != '_' {
        return None;
    }
    let v0 = (d0 as u32) - ('0' as u32);
    let v1 = (d1 as u32) - ('0' as u32);
    let v2 = (d2 as u32) - ('0' as u32);
    let value = (100 * v0 + 10 * v1 + v2) as i32;
    Some(value)
}

/// Whether the start-up must look for tables from before versioning: only
/// when the database records version 0.
pub fn requires_legacy_probe(stored_version: i32) -> (r: bool)
    ensures
        r == (stored_version == 0),
{
    stored_version == 0
}

/// What the start-up does to an existing database that records
/// `stored_version`.
pub fn bootstrap_existing_database(stored_version: i32, legacy_tables_present: bool) -> (r: SchemaBootstrap)
    ensures
        r == bootstrap_for(stored_version, legacy_tables_present),
{
    if stored_version != 0 {
        SchemaBootstrap::KeepStoredVersion
    } else if legacy_tables_present {
        SchemaBootstrap::AdoptLegacySchema
    } else {
        SchemaBootstrap::ApplyBaseline
    }
}

/// Whether the start-up seeds the default classroom: only when there is no
/// classroom at all.
pub fn needs_default_classroom(classroom_count: i64) -> (r: bool)
    ensures
        r == seeds_default_classroom(classroom_count as int),
{
    classroom_count == 0
}

} // verus!
