use song_class::sessions::{last_active_row, ActiveStudent, SessionRoster, StudentSession};

fn session(connection_id: &str, student_id: i64, classroom_id: i64, seat: &str) -> StudentSession {
    StudentSession {
        connection_id: connection_id.to_string(),
        student_id,
        classroom_id,
        seat_no_text: seat.to_string(),
        nickname: seat.to_string(),
        connected: true,
        focus_status: "focused".to_string(),
        focus_updated_at: 0,
    }
}

fn ids(roster: &SessionRoster) -> Vec<String> {
    roster.snapshot().into_iter().map(|s| s.connection_id).collect()
}

#[test]
fn join_registers_and_replaces_by_connection_id() {
    let mut roster = SessionRoster::new();
    assert_eq!(roster.len(), 0);
    roster.join(session("c1", 1, 10, "01"));
    roster.join(session("c2", 2, 10, "02"));
    assert_eq!(ids(&roster), vec!["c1".to_string(), "c2".to_string()]);

    roster.join(session("c1", 3, 10, "03"));
    let copies = roster.snapshot();
    assert_eq!(copies.len(), 2);
    assert_eq!(copies[0].connection_id, "c1");
    assert_eq!(copies[0].student_id, 3);
    assert_eq!(copies[0].seat_no_text, "03");
}

#[test]
fn join_then_leave_restores_roster() {
    let mut roster = SessionRoster::new();
    roster.join(session("c1", 1, 10, "01"));
    let before = ids(&roster);
    roster.join(session("c9", 9, 10, "09"));
    assert!(roster.remove(&"c9".to_string()));
    assert_eq!(ids(&roster), before);
}

#[test]
fn leaving_twice_reports_absence() {
    let mut roster = SessionRoster::new();
    roster.join(session("c1", 1, 10, "01"));
    assert!(roster.remove(&"c1".to_string()));
    assert!(!roster.remove(&"c1".to_string()));
    assert_eq!(roster.len(), 0);
}

#[test]
fn force_logout_clears_only_that_classroom() {
    let mut roster = SessionRoster::new();
    roster.join(session("a", 1, 10, "01"));
    roster.join(session("b", 2, 20, "01"));
    roster.join(session("c", 3, 10, "02"));
    let gone = roster.remove_classroom(10);
    assert_eq!(gone, vec!["a".to_string(), "c".to_string()]);
    assert_eq!(ids(&roster), vec!["b".to_string()]);
    assert!(!roster.seat_is_occupied(10, &"01".to_string()));
    assert!(roster.seat_is_occupied(20, &"01".to_string()));
}

#[test]
fn admission_refuses_an_occupied_seat() {
    let mut roster = SessionRoster::new();
    let first = roster.admit_student("c1".to_string(), 1, 10, "05".to_string(), " 小明 ".to_string());
    assert_eq!(first, Ok("05小明".to_string()));
    let second = roster.admit_student("c2".to_string(), 2, 10, "05".to_string(), "小華".to_string());
    assert_eq!(second, Err("該學生已連入，請選擇其他座號".to_string()));
    assert_eq!(roster.len(), 1);

    let other_class = roster.admit_student("c3".to_string(), 3, 11, "05".to_string(), String::new());
    assert_eq!(other_class, Ok("05".to_string()));
    assert_eq!(roster.len(), 2);

    let copies = roster.snapshot();
    assert_eq!(copies[0].nickname, "05小明");
    assert_eq!(copies[0].focus_status, "focused");
    assert!(copies[0].connected);
}

#[test]
fn occupied_seats_lists_the_classroom_seats() {
    let mut roster = SessionRoster::new();
    roster.join(session("a", 1, 10, "01"));
    roster.join(session("b", 2, 20, "02"));
    roster.join(session("c", 3, 10, "03"));
    assert_eq!(roster.occupied_seats(10), vec!["01".to_string(), "03".to_string()]);
    assert_eq!(roster.occupied_seats(30), Vec::<String>::new());
}

#[test]
fn rename_student_updates_seat_and_display_name() {
    let mut roster = SessionRoster::new();
    roster.join(session("a", 1, 10, "01"));
    roster.join(session("b", 2, 10, "02"));
    roster.rename_student(2, &"12".to_string(), &"阿明".to_string());
    let copies = roster.snapshot();
    assert_eq!(copies[0].seat_no_text, "01");
    assert_eq!(copies[1].seat_no_text, "12");
    assert_eq!(copies[1].nickname, "12阿明");
}

#[test]
fn roster_save_drops_stale_and_refreshes_kept_students() {
    let mut roster = SessionRoster::new();
    roster.join(session("a", 1, 10, "01"));
    roster.join(session("b", 2, 10, "02"));
    roster.join(session("c", 3, 20, "03"));
    let active = vec![ActiveStudent { id: 2, seat_no_text: "07".to_string(), nickname: "小美".to_string() }];
    let stale = roster.refresh_classroom(10, &active);
    assert_eq!(stale, vec!["a".to_string()]);
    let copies = roster.snapshot();
    assert_eq!(copies.len(), 2);
    assert_eq!(copies[0].connection_id, "b");
    assert_eq!(copies[0].seat_no_text, "07");
    assert_eq!(copies[0].nickname, "07小美");
    assert_eq!(copies[1].connection_id, "c");
    assert_eq!(copies[1].seat_no_text, "03");
}

#[test]
fn last_active_row_finds_the_last_match() {
    let active = vec![
        ActiveStudent { id: 4, seat_no_text: "01".to_string(), nickname: String::new() },
        ActiveStudent { id: 5, seat_no_text: "02".to_string(), nickname: String::new() },
        ActiveStudent { id: 4, seat_no_text: "03".to_string(), nickname: String::new() },
    ];
    assert_eq!(last_active_row(&active, 4), Some(2));
    assert_eq!(last_active_row(&active, 5), Some(1));
    assert_eq!(last_active_row(&active, 6), None);
}
