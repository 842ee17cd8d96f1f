use song_class::api::ApiStatus;
use song_class::roster::{
    check_classroom_deletion, classroom_after_deletion, credential_to_store, default_roster_seats,
    find_current_classroom, is_masked, mask_sensitive, normalize_class_members, normalize_seat_no_text,
    plan_classroom_update, plan_member_sync, require_seat_no_text, resolve_new_classroom_name,
    seat_listed, seat_nickname_display, student_write_failure, two_digit_seat, validate_group_no, ClassroomStudent,
    ClassroomSummary, NormalizedMember, SaveClassMemberItem, TaskSubmissionStatus,
    DEFAULT_CLASSROOM_NAME, DEFAULT_ROSTER_SIZE,
};

fn item(id: Option<i64>, seat: &str, nickname: &str) -> SaveClassMemberItem {
    SaveClassMemberItem { id, seat_no_text: seat.to_string(), nickname: nickname.to_string() }
}

fn member(id: Option<i64>, seat: &str) -> NormalizedMember {
    NormalizedMember { id, seat_no_text: seat.to_string(), nickname: String::new() }
}

#[test]
fn display_name_joins_seat_and_trimmed_nickname() {
    assert_eq!(seat_nickname_display("01", "小明"), "01小明");
    assert_eq!(seat_nickname_display("01", "  小明 "), "01小明");
    assert_eq!(seat_nickname_display("01", "   "), "01");
    assert_eq!(seat_nickname_display("01", ""), "01");
}

#[test]
fn seat_numbers_are_trimmed_and_required() {
    assert_eq!(normalize_seat_no_text("  07 "), "07");
    assert_eq!(require_seat_no_text(" 08").unwrap(), "08");
    let err = require_seat_no_text("   ").unwrap_err();
    assert_eq!(err.status, ApiStatus::BadRequest);
    assert_eq!(err.message, "座號不可為空");
}

#[test]
fn short_credentials_are_fully_masked() {
    assert_eq!(mask_sensitive("abcd1234"), "****");
    assert_eq!(mask_sensitive("a"), "****");
    assert_eq!(mask_sensitive(""), "");
    assert_eq!(mask_sensitive("abcdefghi"), "abcd****");
    assert!(is_masked("ab****cd"));
    assert!(!is_masked("ab***cd"));
}

#[test]
fn masked_credential_sent_back_is_not_stored() {
    let token = "channel-token-abcdef";
    let shown = mask_sensitive(token);
    assert_eq!(credential_to_store(Some(shown.clone())), None);
    let plan = plan_classroom_update(" 三年二班 ", Some(true), Some(shown), Some(mask_sensitive("xy"))).unwrap();
    assert_eq!(plan.name, "三年二班");
    assert_eq!(plan.line_enabled, Some(1));
    assert_eq!(plan.line_channel_access_token, None);
    assert_eq!(plan.line_channel_secret, None);
}

#[test]
fn new_credentials_are_stored() {
    assert_eq!(credential_to_store(Some("new-token".to_string())), Some("new-token".to_string()));
    assert_eq!(credential_to_store(Some(String::new())), None);
    assert_eq!(credential_to_store(None), None);
    let plan = plan_classroom_update("A", Some(false), Some("tok".to_string()), None).unwrap();
    assert_eq!(plan.line_enabled, Some(0));
    assert_eq!(plan.line_channel_access_token, Some("tok".to_string()));
    assert_eq!(plan.line_channel_secret, None);
    let plan = plan_classroom_update("A", None, None, None).unwrap();
    assert_eq!(plan.line_enabled, None);
}

#[test]
fn blank_classroom_name_is_refused() {
    let err = plan_classroom_update("   ", None, None, None).unwrap_err();
    assert_eq!(err.status, ApiStatus::BadRequest);
    assert_eq!(err.message, "班級名稱不可為空");
}

#[test]
fn new_classroom_name_defaults_to_next_number() {
    assert_eq!(resolve_new_classroom_name(None, 2).unwrap(), "新班級3");
    assert_eq!(resolve_new_classroom_name(Some(" 五年一班 ".to_string()), 2).unwrap(), "五年一班");
    let err = resolve_new_classroom_name(Some("  ".to_string()), 0).unwrap_err();
    assert_eq!(err.message, "班級名稱不可為空");
    assert_eq!(DEFAULT_CLASSROOM_NAME, "預設班級");
}

#[test]
fn classroom_deletion_rules() {
    let only = check_classroom_deletion(1, true).unwrap_err();
    assert_eq!(only.status, ApiStatus::BadRequest);
    assert_eq!(only.message, "無法刪除唯一的班級");
    let missing = check_classroom_deletion(3, false).unwrap_err();
    assert_eq!(missing.status, ApiStatus::NotFound);
    assert_eq!(missing.message, "指定班級不存在");
    assert!(check_classroom_deletion(2, true).is_ok());
    assert_eq!(classroom_after_deletion(5, 5, 2), 2);
    assert_eq!(classroom_after_deletion(4, 5, 2), 4);
}

#[test]
fn group_number_must_not_be_negative() {
    assert_eq!(validate_group_no(0), Ok(0));
    assert_eq!(validate_group_no(3), Ok(3));
    assert_eq!(validate_group_no(-1), Err("組別不可小於 0".to_string()));
}

#[test]
fn default_roster_has_thirty_two_digit_seats() {
    let seats = default_roster_seats();
    assert_eq!(seats.len() as u64, DEFAULT_ROSTER_SIZE);
    assert_eq!(seats[0], "01");
    assert_eq!(seats[8], "09");
    assert_eq!(seats[9], "10");
    assert_eq!(seats[29], "30");
    assert_eq!(two_digit_seat(0), "00");
    assert_eq!(two_digit_seat(123), "123");
}

#[test]
fn roster_rows_are_built_from_columns() {
    let occupied = vec!["03".to_string(), "05".to_string()];
    let s = ClassroomStudent::from_row(7, 1, "05".to_string(), "小美".to_string(), 12, 2, &occupied);
    assert_eq!(s.display_name, "05小美");
    assert!(s.occupied);
    assert_eq!(s.points, 12);
    assert_eq!(s.group_no, 2);
    let t = ClassroomStudent::from_row(8, 1, "06".to_string(), String::new(), 0, 0, &occupied);
    assert!(!t.occupied);
    assert_eq!(t.display_name, "06");
    assert!(seat_listed(&occupied, "03"));
    assert!(!seat_listed(&occupied, "04"));

    let sub = TaskSubmissionStatus::from_row(7, 1, "05".to_string(), "小美".to_string(), 2);
    assert!(sub.submitted);
    assert_eq!(sub.display_name, "05小美");
    let c = ClassroomSummary::from_row(1, "A".to_string(), 0, "t".to_string(), "s".to_string(), String::new());
    assert!(!c.line_enabled);
}

#[test]
fn current_classroom_is_found_by_id() {
    let rooms = vec![
        ClassroomSummary::from_row(1, "A".to_string(), 1, String::new(), String::new(), String::new()),
        ClassroomSummary::from_row(4, "B".to_string(), 0, String::new(), String::new(), String::new()),
    ];
    assert_eq!(find_current_classroom(&rooms, 4), Ok(1));
    assert_eq!(find_current_classroom(&rooms, 9), Err("找不到目前班級".to_string()));
}

#[test]
fn class_members_are_trimmed() {
    let rows = vec![item(Some(1), " 01 ", "甲"), item(None, "02", "乙")];
    let members = normalize_class_members(&rows).unwrap();
    assert_eq!(members.len(), 2);
    assert_eq!(members[0].seat_no_text, "01");
    assert_eq!(members[0].id, Some(1));
    assert_eq!(members[1].nickname, "乙");
}

#[test]
fn class_members_refuse_blank_and_repeated_seats() {
    let blank = normalize_class_members(&vec![item(None, "01", ""), item(None, "  ", "")]).unwrap_err();
    assert_eq!(blank.status, ApiStatus::BadRequest);
    assert_eq!(blank.message, "座號不可為空");
    let repeated =
        normalize_class_members(&vec![item(None, "01", ""), item(None, " 01", ""), item(None, "", "")]).unwrap_err();
    assert_eq!(repeated.status, ApiStatus::Conflict);
    assert_eq!(repeated.message, "座號不可重複");
}

#[test]
fn member_sync_deletes_students_left_out() {
    let existing = vec![1, 2, 3];
    let members = vec![member(Some(2), "02"), member(None, "09")];
    let plan = plan_member_sync(&existing, &members).unwrap();
    assert_eq!(plan.delete_ids, vec![1, 3]);
}

#[test]
fn member_sync_refuses_unknown_students() {
    let existing = vec![1, 2];
    let members = vec![member(Some(2), "02"), member(Some(8), "08")];
    let err = plan_member_sync(&existing, &members).unwrap_err();
    assert_eq!(err.status, ApiStatus::NotFound);
    assert_eq!(err.message, "指定學生不存在");
}

#[test]
fn unique_violation_is_a_seat_conflict() {
    let e = student_write_failure("UNIQUE constraint failed: students.classroom_id, students.seat_no_text");
    assert_eq!(e.status, ApiStatus::Conflict);
    assert_eq!(e.message, "座號不可重複");
    let e = student_write_failure("disk I/O error");
    assert_eq!(e.status, ApiStatus::InternalServerError);
    assert_eq!(e.message, "儲存學生資料失敗: disk I/O error");
}

#[test]
fn accepted_roster_has_distinct_nonblank_seats() {
    let rows = vec![item(None, " 1", ""), item(None, "2 ", ""), item(None, "10", "")];
    let members = normalize_class_members(&rows).unwrap();
    for (i, a) in members.iter().enumerate() {
        assert!(!a.seat_no_text.is_empty());
        for b in members.iter().skip(i + 1) {
            assert_ne!(a.seat_no_text, b.seat_no_text);
        }
    }
}

#[test]
fn unicode_white_space_is_trimmed_like_str_trim() {
    assert_eq!(normalize_seat_no_text("\u{3000}07\u{00A0}"), "07");
    assert_eq!(seat_nickname_display("07", "\u{2003}小明\u{205F}"), "07小明");
    assert_eq!(normalize_seat_no_text("\u{200B}07"), "\u{200B}07");
}
