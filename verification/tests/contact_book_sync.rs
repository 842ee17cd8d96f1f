use song_class::line_sync::{build_sync_text, SyncTaskItem, LINE_RICHMENU_MAX_ACTION_TEXT};

fn make_items(titles: &[&str], date: &str) -> Vec<SyncTaskItem> {
    titles
        .iter()
        .map(|t| SyncTaskItem {
            title: t.to_string(),
            task_date: date.to_string(),
        })
        .collect()
}

#[test]
fn build_sync_text_generates_tasks_and_truncates() {
    let tasks = make_items(
        &["任務編號 1 的內容", "任務編號 2 的內容", "任務編號 3 的內容", "任務編號 4 的內容", "任務編號 5 的內容"],
        "2026-07-09",
    );

    let (text, summarized) = build_sync_text(&tasks);
    assert!(!summarized, "5 short tasks should not require summarization");
    assert!(text.contains("=== 聯絡簿"), "should have header with date");
    assert!(text.contains("7/9 (四)"), "should show date with weekday");
    assert!(text.contains("任務編號 1"), "should contain first task");
    assert!(text.contains("任務編號 5"), "should contain last task");

    let long_items: Vec<SyncTaskItem> = (1..=20)
        .map(|i| SyncTaskItem {
            title: format!(
                "這是一個非常長的任務敘述，包含了很多詳細的說明文字，編號是 {}，\
                 目的是要測試當聯絡簿內容過多時，系統能否正確偵測到長度超過 LINE \
                 API 允許的 300 字上限，並自動切換為摘要模式",
                i
            ),
            task_date: "2026-07-09".to_string(),
        })
        .collect();

    let (short_text, was_summarized) = build_sync_text(&long_items);
    assert!(was_summarized, "20 long tasks should trigger summarization");
    assert!(
        short_text.len() <= LINE_RICHMENU_MAX_ACTION_TEXT,
        "summarized text should not exceed max length"
    );
}

#[test]
fn build_sync_text_handles_empty_input() {
    let empty: Vec<SyncTaskItem> = vec![];
    let (text, summarized) = build_sync_text(&empty);
    assert!(!summarized);
    assert_eq!(text, "=== 聯絡簿 ===\n");
}

#[test]
fn build_sync_text_shows_date_in_header_when_same_date() {
    let tasks = make_items(&["交回條", "帶餐具"], "2026-07-10");
    let (text, _) = build_sync_text(&tasks);
    assert!(text.contains("=== 聯絡簿 (7/10 (五)) ==="));
    assert!(text.contains("1. 交回條"));
    assert!(text.contains("2. 帶餐具"));
}

#[test]
fn build_sync_text_groups_by_date_when_different_dates() {
    let tasks = vec![
        SyncTaskItem { title: "交回條".into(), task_date: "2026-07-09".into() },
        SyncTaskItem { title: "帶餐具".into(), task_date: "2026-07-09".into() },
        SyncTaskItem { title: "買文具".into(), task_date: "2026-07-10".into() },
    ];
    let (text, _) = build_sync_text(&tasks);
    assert!(text.contains("=== 聯絡簿 ==="), "no date in header when dates differ");
    assert!(text.contains("7/9 (四)"), "should have first date group");
    assert!(text.contains("7/10 (五)"), "should have second date group");
    assert!(text.contains("1. 交回條"));
    assert!(text.contains("2. 帶餐具"));
    assert!(text.contains("3. 買文具"));
}
