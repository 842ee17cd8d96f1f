use song_class::server::{
    allowed_origins, app_mode_redirect_target, backup_file_name, check_backup_source, check_restore_source,
    classify_socket_event, connection_role, dev_app_redirect_target, format_host_for_url, format_server_url,
    local_ip_or_loopback, require_board_id, resolve_frontend_assets_root, resolve_local_ip,
    resolve_vite_host_from_header, signal_source, signal_target, student_entry_url, teacher_entry_url,
    validate_join_request, ConnectionRole, ServerControl, ServiceStatus, SocketCommand, DEFAULT_PORT,
};

#[test]
fn server_url_joins_ip_and_port() {
    assert_eq!(format_server_url("192.168.1.5", 17860), "http://192.168.1.5:17860");
    assert_eq!(format_server_url("127.0.0.1", 0), "http://127.0.0.1:0");
    assert_eq!(DEFAULT_PORT, 17860);
}

#[test]
fn failed_address_lookup_falls_back_to_loopback() {
    assert_eq!(local_ip_or_loopback(None), "127.0.0.1");
    assert_eq!(local_ip_or_loopback(Some("10.0.0.8".to_string())), "10.0.0.8");
    assert!(!resolve_local_ip().is_empty());
}

#[test]
fn server_control_moves_through_its_states() {
    let mut c = ServerControl::with_ip(17860, "10.0.0.2".to_string());
    assert_eq!(c.status, ServiceStatus::Stopped);
    assert_eq!(c.url, "http://10.0.0.2:17860");
    let info = c.to_info();
    assert_eq!(info.url, "http://10.0.0.2:17860");
    assert_eq!(info.error, None);

    c.set_ip("10.0.0.3".to_string());
    assert_eq!(c.url, "http://10.0.0.3:17860");
    assert_eq!(c.status, ServiceStatus::Stopped);

    let message = c.record_start_failure("address in use".to_string());
    assert_eq!(message, "伺服器啟動失敗: address in use");
    assert_eq!(c.status, ServiceStatus::Error);
    assert_eq!(c.error, Some("address in use".to_string()));

    let started = c.record_started();
    assert_eq!(started.status, ServiceStatus::Running);
    assert_eq!(started.error, None);
    let again = c.begin_start(true).expect("running server is shown as it is");
    assert_eq!(again.status, ServiceStatus::Running);
    assert_eq!(again.url, "http://10.0.0.3:17860");

    let stopped = c.record_stopped();
    assert_eq!(stopped.status, ServiceStatus::Stopped);
    assert!(c.begin_start(false).is_none());
    assert_eq!(c.status, ServiceStatus::Starting);
    assert_eq!(c.url, format_server_url(&c.ip, 17860));
}

#[test]
fn new_server_control_is_stopped_and_consistent() {
    let mut c = ServerControl::new(18000);
    assert_eq!(c.status, ServiceStatus::Stopped);
    assert_eq!(c.port, 18000);
    assert!(!c.ip.is_empty());
    assert_eq!(c.url, format_server_url(&c.ip, 18000));
    c.refresh_ip_url();
    assert!(!c.ip.is_empty());
    assert_eq!(c.url, format_server_url(&c.ip, 18000));
}

#[test]
fn vite_host_is_taken_from_the_host_header() {
    assert_eq!(resolve_vite_host_from_header(""), "127.0.0.1");
    assert_eq!(resolve_vite_host_from_header("   "), "127.0.0.1");
    assert_eq!(resolve_vite_host_from_header("192.168.1.5:17860"), "192.168.1.5");
    assert_eq!(resolve_vite_host_from_header(" localhost "), "localhost");
    assert_eq!(resolve_vite_host_from_header("[::1]:17860"), "[::1]");
    assert_eq!(resolve_vite_host_from_header("[::1"), "[::1");
    assert_eq!(resolve_vite_host_from_header("fe80::1"), "fe80::1");
    assert_eq!(resolve_vite_host_from_header(":17860"), ":17860");
}

#[test]
fn ipv6_hosts_get_brackets() {
    assert_eq!(format_host_for_url("192.168.1.5"), "192.168.1.5");
    assert_eq!(format_host_for_url("fe80::1"), "[fe80::1]");
    assert_eq!(format_host_for_url("[fe80::1]"), "[fe80::1]");
}

#[test]
fn redirects_keep_mode_and_base() {
    assert_eq!(app_mode_redirect_target("student", None), "/app?mode=student");
    assert_eq!(app_mode_redirect_target("teacher", Some("  ")), "/app?mode=teacher");
    assert_eq!(
        app_mode_redirect_target("teacher", Some("http://10.0.0.2:17860")),
        "/app?mode=teacher&base=http://10.0.0.2:17860"
    );
    assert_eq!(
        dev_app_redirect_target(None, None),
        "http://127.0.0.1:1420/?mode=student&base=http://127.0.0.1:17860"
    );
    assert_eq!(
        dev_app_redirect_target(Some("teacher"), Some("10.0.0.2:17860")),
        "http://10.0.0.2:1420/?mode=teacher&base=http://10.0.0.2:17860"
    );
    assert_eq!(
        dev_app_redirect_target(Some("console"), Some("")),
        "http://127.0.0.1:1420/?mode=console&base=http://127.0.0.1:17860"
    );
}

#[test]
fn socket_messages_are_classified_by_role() {
    assert_eq!(connection_role("teacher"), ConnectionRole::Teacher);
    assert_eq!(connection_role("console"), ConnectionRole::Console);
    assert_eq!(connection_role("anything"), ConnectionRole::Student);
    assert_eq!(
        classify_socket_event("force-logout-all-students", ConnectionRole::Teacher),
        SocketCommand::ForceLogoutAll
    );
    assert_eq!(classify_socket_event("force-logout-all-students", ConnectionRole::Student), SocketCommand::Echo);
    assert_eq!(classify_socket_event("join", ConnectionRole::Student), SocketCommand::Join);
    assert_eq!(classify_socket_event("join", ConnectionRole::Teacher), SocketCommand::Echo);
    assert_eq!(classify_socket_event("offer", ConnectionRole::Student), SocketCommand::ForwardSignal);
    assert_eq!(classify_socket_event("ice-candidate", ConnectionRole::Console), SocketCommand::Ignore);
    assert_eq!(classify_socket_event("disconnect", ConnectionRole::Console), SocketCommand::Disconnect);
    assert_eq!(classify_socket_event("chat", ConnectionRole::Student), SocketCommand::Echo);
}

#[test]
fn signals_find_their_target_and_source() {
    assert_eq!(signal_target(Some("s1".to_string()), Some("t1".to_string())), Some("s1".to_string()));
    assert_eq!(signal_target(Some(String::new()), Some("t1".to_string())), None);
    assert_eq!(signal_target(None, Some("t1".to_string())), Some("t1".to_string()));
    assert_eq!(signal_target(None, Some(String::new())), None);
    assert_eq!(signal_target(None, None), None);
    assert_eq!(signal_source(ConnectionRole::Teacher, &"t9".to_string(), &None), Some("t9".to_string()));
    assert_eq!(
        signal_source(ConnectionRole::Student, &"x".to_string(), &Some("s3".to_string())),
        Some("s3".to_string())
    );
    assert_eq!(signal_source(ConnectionRole::Student, &"x".to_string(), &None), None);
}

#[test]
fn join_requests_need_a_seat_and_the_current_classroom() {
    assert_eq!(validate_join_request("  ", 1, 1), Err("請選擇有效座號".to_string()));
    assert_eq!(validate_join_request("03", 2, 1), Err("班級已變更，請重新選擇名單".to_string()));
    assert_eq!(validate_join_request(" 03 ", 1, 1), Ok("03".to_string()));
}

#[test]
fn entry_urls_and_origins() {
    assert_eq!(teacher_entry_url("http://10.0.0.2:17860"), "http://localhost:17860/teacher?base=http://10.0.0.2:17860");
    assert_eq!(student_entry_url("http://10.0.0.2:17860"), "http://10.0.0.2:17860/student");
    let origins = allowed_origins("[fe80::1]");
    assert_eq!(origins.len(), 9);
    assert_eq!(origins[4], "tauri://localhost");
    assert_eq!(origins[7], "http://[fe80::1]:1420");
    assert_eq!(origins[8], "http://[fe80::1]:17860");
}

#[test]
fn assets_root_prefers_a_folder_with_an_index() {
    let candidates = vec!["a".to_string(), "b".to_string(), "c".to_string()];
    assert_eq!(resolve_frontend_assets_root(&candidates, &vec![false, true, true]), "b");
    assert_eq!(resolve_frontend_assets_root(&candidates, &vec![false, false, false]), "a");
    assert_eq!(resolve_frontend_assets_root(&Vec::new(), &Vec::new()), "../dist");
}

#[test]
fn backup_and_restore_checks() {
    assert_eq!(backup_file_name("20240709-101500"), "song-class-backup-20240709-101500.sqlite3");
    assert!(check_backup_source(true).is_ok());
    assert_eq!(check_backup_source(false), Err("目前資料庫檔案不存在，無法備份。".to_string()));
    assert_eq!(check_restore_source(false, false), Err("選擇的資料庫檔案不存在。".to_string()));
    assert_eq!(check_restore_source(true, true), Err("不能回存到目前正在使用的資料庫檔案。".to_string()));
    assert!(check_restore_source(true, false).is_ok());
    assert_eq!(require_board_id(Some(4)), Ok(4));
    assert_eq!(require_board_id(None), Err("缺少 ID".to_string()));
}

#[test]
fn bracketing_a_host_twice_changes_nothing() {
    for host in ["fe80::1", "[::1]", "10.0.0.2", "", ":"] {
        let once = format_host_for_url(host);
        assert_eq!(format_host_for_url(&once), once);
    }
}
