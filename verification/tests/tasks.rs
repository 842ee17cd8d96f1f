use song_class::api::ApiStatus;
use song_class::tasks::{
    build_task_list_query, ensure_tracking_enabled, from_db_bool, normalize_task_date, task_completed_from_counts,
    to_db_bool, validate_task_flags, validate_task_request, ContactBookTask, ListTasksQuery, SqlBind,
    TaskCompletionFilter, TaskTab, TASK_LIST_BASE_SQL,
};

fn query(
    date: Option<&str>,
    tab: Option<TaskTab>,
    completion: Option<TaskCompletionFilter>,
    show_all_unfinished: Option<bool>,
) -> ListTasksQuery {
    ListTasksQuery { date: date.map(|d| d.to_string()), tab, completion, show_all_unfinished }
}

fn bind_texts(binds: &[SqlBind]) -> Vec<String> {
    binds
        .iter()
        .map(|b| match b {
            SqlBind::Integer(v) => format!("i:{v}"),
            SqlBind::Text(t) => format!("t:{t}"),
        })
        .collect()
}

#[test]
fn flags_round_trip_through_the_database_encoding() {
    assert_eq!(to_db_bool(true), 1);
    assert_eq!(to_db_bool(false), 0);
    assert!(from_db_bool(1));
    assert!(from_db_bool(-3));
    assert!(!from_db_bool(0));
    assert!(from_db_bool(to_db_bool(true)));
    assert!(!from_db_bool(to_db_bool(false)));
}

#[test]
fn task_dates_must_be_iso_shaped() {
    assert_eq!(normalize_task_date(" 2024-07-09 "), Some("2024-07-09".to_string()));
    assert_eq!(normalize_task_date("2024/07/09"), None);
    assert_eq!(normalize_task_date("2024-7-9"), None);
    assert_eq!(normalize_task_date("2024-07-0a"), None);
    assert_eq!(normalize_task_date(""), None);
}

#[test]
fn task_needs_a_flag() {
    assert!(validate_task_flags(true, false).is_ok());
    assert!(validate_task_flags(false, true).is_ok());
    assert_eq!(
        validate_task_flags(false, false),
        Err("至少要勾選顯示在聯絡簿或需控管其中一項".to_string())
    );
}

#[test]
fn task_request_errors_come_in_order() {
    let e = validate_task_request("  ", "bad", false, false).unwrap_err();
    assert_eq!(e.status, ApiStatus::BadRequest);
    assert_eq!(e.message, "任務名稱不可為空");
    let e = validate_task_request("作業", "2024-13", false, false).unwrap_err();
    assert_eq!(e.message, "日期格式必須為 YYYY-MM-DD");
    let e = validate_task_request("作業", "2024-07-09", false, false).unwrap_err();
    assert_eq!(e.message, "至少要勾選顯示在聯絡簿或需控管其中一項");
    let ok = validate_task_request(" 作業 ", " 2024-07-09", true, false).unwrap();
    assert_eq!(ok.title, "作業");
    assert_eq!(ok.task_date, "2024-07-09");
}

#[test]
fn untracked_task_refuses_submissions() {
    let task = ContactBookTask::from_row(1, 2, "2024-07-09".to_string(), "T".to_string(), 1, 0, 0, 5, 0);
    let e = ensure_tracking_enabled(&task).unwrap_err();
    assert_eq!(e.status, ApiStatus::BadRequest);
    assert_eq!(e.message, "此任務未啟用繳交控管");
    let followed = ContactBookTask::from_row(1, 2, "2024-07-09".to_string(), "T".to_string(), 0, 1, 0, 5, 0);
    assert!(ensure_tracking_enabled(&followed).is_ok());
    assert!(followed.requires_tracking);
    assert!(!followed.show_in_contact_book);
}

#[test]
fn completion_means_every_student_submitted() {
    assert!(task_completed_from_counts(3, 3));
    assert!(!task_completed_from_counts(3, 2));
    assert!(!task_completed_from_counts(0, 0));
}

#[test]
fn default_task_list_query_lists_contact_book_tasks() {
    let q = build_task_list_query(4, &query(None, None, None, None));
    assert_eq!(
        q.sql,
        format!("{TASK_LIST_BASE_SQL} AND t.show_in_contact_book = 1 ORDER BY t.task_date ASC, t.id ASC")
    );
    assert_eq!(bind_texts(&q.binds), vec!["i:4".to_string()]);
}

#[test]
fn dated_task_list_query_binds_the_date() {
    let q = build_task_list_query(
        4,
        &query(Some(" 2024-07-09 "), Some(TaskTab::Submission), Some(TaskCompletionFilter::Completed), Some(false)),
    );
    assert_eq!(
        q.sql,
        format!(
            "{TASK_LIST_BASE_SQL} AND t.requires_tracking = 1 AND t.task_date = ? AND t.is_completed = 1 ORDER BY t.task_date ASC, t.id ASC"
        )
    );
    assert_eq!(bind_texts(&q.binds), vec!["i:4".to_string(), "t:2024-07-09".to_string()]);

    let bad_date = build_task_list_query(4, &query(Some("07/09"), None, Some(TaskCompletionFilter::Unfinished), None));
    assert_eq!(
        bad_date.sql,
        format!("{TASK_LIST_BASE_SQL} AND t.show_in_contact_book = 1 AND t.is_completed = 0 ORDER BY t.task_date ASC, t.id ASC")
    );
    assert_eq!(bind_texts(&bad_date.binds), vec!["i:4".to_string()]);
}

#[test]
fn all_unfinished_ignores_date_and_completion() {
    let q = build_task_list_query(
        9,
        &query(Some("2024-07-09"), Some(TaskTab::ContactBook), Some(TaskCompletionFilter::Completed), Some(true)),
    );
    assert_eq!(
        q.sql,
        format!("{TASK_LIST_BASE_SQL} AND t.show_in_contact_book = 1 AND t.is_completed = 0 ORDER BY t.task_date ASC, t.id ASC")
    );
    assert_eq!(bind_texts(&q.binds), vec!["i:9".to_string()]);
}
