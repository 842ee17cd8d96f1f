use song_class::api::ApiStatus;
use song_class::line_sync::{
    bearer_header, check_line_access, check_line_sync_access, compose_sync_text, describe_line_error,
    first_sync_step, format_date_weekday, format_weekday_label, generate_rich_menu, line_error_detail,
    line_failure, line_refusal, next_sync_step, require_sync_tasks, richmenu_list_url, richmenu_url,
    sync_step_request, sync_success_message, HttpMethod, LineReply, LineSyncStep, SyncTaskItem,
};

fn task(title: &str, date: &str) -> SyncTaskItem {
    SyncTaskItem { title: title.to_string(), task_date: date.to_string() }
}

#[test]
fn dates_are_labelled_with_their_weekday() {
    assert_eq!(format_date_weekday("2024-07-09"), "7/9 (二)");
    assert_eq!(format_date_weekday("2026-07-09"), "7/9 (四)");
    assert_eq!(format_date_weekday("2024-12-29"), "12/29 (日)");
    assert_eq!(format_date_weekday("2024-02-30"), "2024-02-30");
    assert_eq!(format_date_weekday("明天"), "明天");
}

#[test]
fn weekday_label_follows_the_parsed_parts() {
    assert_eq!(format_weekday_label("x", Some((3, 5, 6))), "3/5 (六)");
    assert_eq!(format_weekday_label("x", Some((3, 5, 9))), "x");
    assert_eq!(format_weekday_label("x", None), "x");
}

#[test]
fn dates_get_their_own_lines_when_they_differ() {
    let tasks = vec![task("A", "d1"), task("B", "d1"), task("C", "d2")];
    let labels = vec!["L1".to_string(), "L1".to_string(), "L2".to_string()];
    let (text, summarized) = compose_sync_text(&tasks, &labels);
    assert!(!summarized);
    assert_eq!(text, "=== 聯絡簿 ===\nL1\n1. A\n2. B\nL2\n3. C\n");

    let same = vec![task("A", "d1"), task("B", "d1")];
    let (text, summarized) = compose_sync_text(&same, &vec!["L1".to_string(), "L1".to_string()]);
    assert!(!summarized);
    assert_eq!(text, "=== 聯絡簿 (L1) ===\n1. A\n2. B\n");

    let (text, summarized) = compose_sync_text(&Vec::new(), &Vec::new());
    assert!(!summarized);
    assert_eq!(text, "=== 聯絡簿 ===\n");
}

#[test]
fn sync_needs_tasks() {
    let e = require_sync_tasks(&Vec::new()).unwrap_err();
    assert_eq!(e.status, ApiStatus::BadRequest);
    assert_eq!(e.message, "同步內容不可為空");
    assert!(require_sync_tasks(&vec![task("A", "d")]).is_ok());
}

#[test]
fn line_access_needs_switch_and_token() {
    assert_eq!(check_line_access(0, "tok").unwrap_err().message, "該班級未啟用 LINE 同步功能");
    assert_eq!(check_line_access(1, "").unwrap_err().message, "該班級未設定 LINE Channel Access Token");
    assert!(check_line_access(1, "tok").is_ok());
    assert_eq!(
        check_line_sync_access(0, "tok").unwrap_err().message,
        "該班級未啟用 LINE 同步功能，請先在班級設定中啟用"
    );
    assert_eq!(check_line_sync_access(2, "").unwrap_err().message, "該班級未設定 LINE Channel Access Token");
    assert!(check_line_sync_access(2, "tok").is_ok());
    assert_eq!(bearer_header("abc"), "Bearer abc");
}

#[test]
fn line_error_detail_reads_the_json_message() {
    assert_eq!(line_error_detail("400 Bad Request", ""), "HTTP 400 Bad Request（無錯誤內容）");
    assert_eq!(
        line_error_detail("400 Bad Request", "{\"message\":\"invalid token\"}"),
        "HTTP 400 Bad Request: invalid token"
    );
    assert_eq!(line_error_detail("500", "{\"message\":5}"), "HTTP 500: {\"message\":5}");
    assert_eq!(line_error_detail("500", "not json"), "HTTP 500: not json");
    assert_eq!(
        describe_line_error("401", "body", Some("m".to_string())),
        "HTTP 401: m"
    );
    assert_eq!(describe_line_error("401", "body", None), "HTTP 401: body");
    let f = line_failure("LINE API 建立 rich menu 錯誤：", "400", "{\"message\":\"bad\"}");
    assert_eq!(f.status, ApiStatus::BadGateway);
    assert_eq!(f.message, "LINE API 建立 rich menu 錯誤：HTTP 400: bad");
}

#[test]
fn success_message_reports_summary_length() {
    assert_eq!(sync_success_message("abc", false), "同步成功");
    assert_eq!(sync_success_message("abc", true), "同步成功（已自動摘要為 3 字）");
    assert_eq!(sync_success_message("聯絡簿", true), "同步成功（已自動摘要為 9 字）");
}

fn delivered(id: Option<&str>) -> LineReply {
    LineReply::Delivered { rich_menu_id: id.map(|s| s.to_string()) }
}

fn step_id(step: &LineSyncStep) -> (&'static str, String) {
    match step {
        LineSyncStep::UpdateMenu { rich_menu_id } => ("update", rich_menu_id.clone()),
        LineSyncStep::DeleteOldMenu { rich_menu_id } => ("delete", rich_menu_id.clone()),
        LineSyncStep::CreateMenu => ("create", String::new()),
        LineSyncStep::UploadImage { rich_menu_id } => ("upload", rich_menu_id.clone()),
        LineSyncStep::SetDefault { rich_menu_id } => ("default", rich_menu_id.clone()),
        LineSyncStep::Finished { rich_menu_id } => ("finished", rich_menu_id.clone()),
    }
}

#[test]
fn rich_menu_carries_the_sync_text() {
    let m = generate_rich_menu("=== 聯絡簿 ===\n1. A\n");
    assert_eq!((m.width, m.height), (2500, 1686));
    assert!(m.selected);
    assert_eq!(m.name, "聯絡簿同步");
    assert_eq!(m.chat_bar_text, "聯絡簿");
    assert_eq!(m.areas.len(), 1);
    assert_eq!((m.areas[0].x, m.areas[0].y, m.areas[0].width, m.areas[0].height), (0, 0, 2500, 1686));
    assert_eq!(m.areas[0].action_type, "message");
    assert_eq!(m.areas[0].action_text, "=== 聯絡簿 ===\n1. A\n");
}

fn refused(code: u16, status: &str, body: &str) -> LineReply {
    LineReply::Refused { code, status: status.to_string(), body: body.to_string() }
}

#[test]
fn publish_updates_the_stored_menu_and_keeps_it() {
    let mut step = first_sync_step("menu-1".to_string());
    assert_eq!(step_id(&step), ("update", "menu-1".to_string()));
    let (method, url) = sync_step_request(&step).unwrap();
    assert_eq!(method, HttpMethod::Post);
    assert_eq!(url, "https://api.line.me/v2/bot/richmenu/menu-1");

    step = next_sync_step(step, delivered(None)).unwrap();
    assert_eq!(step_id(&step), ("finished", "menu-1".to_string()));
    assert!(sync_step_request(&step).is_none());
}

#[test]
fn publish_rebuilds_a_stored_menu_that_line_reports_gone() {
    let mut step = first_sync_step("old-1".to_string());
    step = next_sync_step(step, refused(404, "404 Not Found", "{\"message\":\"Not found\"}")).unwrap();
    assert_eq!(step_id(&step), ("delete", "old-1".to_string()));
    let (method, url) = sync_step_request(&step).unwrap();
    assert_eq!(method, HttpMethod::Delete);
    assert_eq!(url, "https://api.line.me/v2/bot/richmenu/old-1");

    step = next_sync_step(step, refused(404, "404 Not Found", "")).unwrap();
    assert_eq!(step_id(&step), ("create", String::new()));
    let (method, url) = sync_step_request(&step).unwrap();
    assert_eq!(method, HttpMethod::Post);
    assert_eq!(url, "https://api.line.me/v2/bot/richmenu");

    step = next_sync_step(step, delivered(Some("new-7"))).unwrap();
    assert_eq!(step_id(&step), ("upload", "new-7".to_string()));
    let (method, url) = sync_step_request(&step).unwrap();
    assert_eq!(method, HttpMethod::Post);
    assert_eq!(url, "https://api-data.line.me/v2/bot/richmenu/new-7/content");

    step = next_sync_step(step, delivered(None)).unwrap();
    assert_eq!(step_id(&step), ("default", "new-7".to_string()));
    assert_eq!(
        sync_step_request(&step).unwrap().1,
        "https://api.line.me/v2/bot/user/all/richmenu/new-7"
    );

    step = next_sync_step(step, delivered(None)).unwrap();
    assert_eq!(step_id(&step), ("finished", "new-7".to_string()));
    assert!(sync_step_request(&step).is_none());

    let invalid = next_sync_step(first_sync_step("x".to_string()), refused(400, "400 Bad Request", "")).unwrap();
    assert_eq!(step_id(&invalid), ("delete", "x".to_string()));
    for reply in [delivered(None), LineReply::Unreachable { error: "dns".to_string() }, refused(500, "500", "")] {
        let deleting = LineSyncStep::DeleteOldMenu { rich_menu_id: "x".to_string() };
        assert_eq!(step_id(&next_sync_step(deleting, reply).unwrap()), ("create", String::new()));
    }
}

#[test]
fn stored_menu_update_refusals_end_the_publish() {
    let e = next_sync_step(first_sync_step("m".to_string()), refused(401, "401 Unauthorized", "{\"message\":\"bad token\"}"))
        .unwrap_err();
    assert_eq!(e.status, ApiStatus::BadGateway);
    assert_eq!(e.message, "LINE API 更新 rich menu 錯誤：HTTP 401 Unauthorized: bad token");
    let e = next_sync_step(first_sync_step("m".to_string()), LineReply::Unreachable { error: "timeout".to_string() })
        .unwrap_err();
    assert_eq!(e.status, ApiStatus::InternalServerError);
    assert_eq!(e.message, "呼叫 LINE API 更新 rich menu 失敗: timeout");
}

#[test]
fn publish_without_old_menu_starts_by_creating() {
    let step = first_sync_step(String::new());
    assert_eq!(step_id(&step), ("create", String::new()));
}

#[test]
fn publish_refusals_name_the_failed_step() {
    let e = next_sync_step(LineSyncStep::CreateMenu, delivered(None)).unwrap_err();
    assert_eq!(e.status, ApiStatus::InternalServerError);
    assert_eq!(e.message, "LINE API 未回傳 richMenuId");

    let e = next_sync_step(LineSyncStep::CreateMenu, LineReply::Unreadable { error: "EOF".to_string() }).unwrap_err();
    assert_eq!(e.status, ApiStatus::InternalServerError);
    assert_eq!(e.message, "解析 LINE API 回覆失敗: EOF");

    let e = next_sync_step(LineSyncStep::CreateMenu, LineReply::Unreachable { error: "dns".to_string() }).unwrap_err();
    assert_eq!(e.status, ApiStatus::InternalServerError);
    assert_eq!(e.message, "呼叫 LINE API 建立 rich menu 失敗: dns");

    let e = next_sync_step(LineSyncStep::CreateMenu, refused(400, "400 Bad Request", "{\"message\":\"too long\"}")).unwrap_err();
    assert_eq!(e.status, ApiStatus::BadGateway);
    assert_eq!(e.message, "LINE API 建立 rich menu 錯誤：HTTP 400 Bad Request: too long");

    let upload = LineSyncStep::UploadImage { rich_menu_id: "m".to_string() };
    let e = next_sync_step(upload, refused(413, "413", "")).unwrap_err();
    assert_eq!(e.status, ApiStatus::BadGateway);
    assert_eq!(e.message, "LINE API 拒絕 rich menu 圖片：HTTP 413（無錯誤內容）");

    let upload = LineSyncStep::UploadImage { rich_menu_id: "m".to_string() };
    let e = next_sync_step(upload, LineReply::Unreachable { error: "reset".to_string() }).unwrap_err();
    assert_eq!(e.message, "上傳 rich menu 圖片失敗: reset");

    let default = LineSyncStep::SetDefault { rich_menu_id: "m".to_string() };
    let e = next_sync_step(default, refused(404, "404", "gone")).unwrap_err();
    assert_eq!(e.status, ApiStatus::BadGateway);
    assert_eq!(e.message, "LINE API 拒絕設定預設 rich menu：HTTP 404: gone");

    let default = LineSyncStep::SetDefault { rich_menu_id: "m".to_string() };
    let e = next_sync_step(default, LineReply::Unreachable { error: "x".to_string() }).unwrap_err();
    assert_eq!(e.status, ApiStatus::InternalServerError);
    assert_eq!(e.message, "設定預設 rich menu 失敗: x");
}

#[test]
fn published_menu_is_the_stored_or_created_one() {
    let replies = vec![
        refused(404, "404 Not Found", ""),
        delivered(None),
        delivered(Some("created-3")),
        delivered(None),
        delivered(None),
    ];
    let mut step = first_sync_step("old".to_string());
    for reply in replies {
        step = next_sync_step(step, reply).unwrap();
    }
    assert_eq!(step_id(&step), ("finished", "created-3".to_string()));
}

#[test]
fn rich_menu_listing_and_deletion_addresses() {
    assert_eq!(richmenu_list_url(), "https://api.line.me/v2/bot/richmenu/list");
    assert_eq!(richmenu_url("abc"), "https://api.line.me/v2/bot/richmenu/abc");
    let e = line_refusal("LINE API 拒絕刪除 rich menu：", "404 Not Found", "{\"message\":\"x\"}");
    assert_eq!(e.status, ApiStatus::BadGateway);
    assert_eq!(e.message, "LINE API 拒絕刪除 rich menu：HTTP 404 Not Found: {\"message\":\"x\"}");
}

#[test]
fn cut_text_is_a_fitting_text_followed_by_the_note() {
    let tasks: Vec<SyncTaskItem> = (1..=30).map(|i| task(&format!("第 {i} 項作業，記得帶回家給家長簽名"), "d")).collect();
    let labels: Vec<String> = (1..=30).map(|_| "L".to_string()).collect();
    let (text, summarized) = compose_sync_text(&tasks, &labels);
    assert!(summarized);
    let note = "…等共 30 項";
    assert!(text.ends_with(note));
    assert!(text.len() <= 300);

    let few: Vec<SyncTaskItem> = (1..=3).map(|i| task(&format!("作業 {i}"), "d")).collect();
    let (text, summarized) = compose_sync_text(&few, &vec!["L".to_string(); 3]);
    assert!(!summarized);
    assert!(text.len() <= 300);
}

#[test]
fn cut_text_leaves_room_for_its_note() {
    let tasks = vec![task(&"a".repeat(135), "d"), task(&"b".repeat(135), "d"), task("c", "d")];
    let (text, summarized) = song_class::line_sync::build_sync_text(&tasks);
    assert!(summarized);
    assert!(text.starts_with("=== 聯絡簿 (d) ===\n1. "));
    assert!(text.ends_with("a\n…等共 3 項"));
    assert_eq!(text.len(), 176);
}

#[test]
fn text_cut_at_the_limit_keeps_its_note_within_it() {
    let tasks = vec![
        task(&"x".repeat(180), "2026-07-09"),
        task(&"y".repeat(82), "2026-07-09"),
        task("z", "2026-07-09"),
    ];
    let (text, summarized) = song_class::line_sync::build_sync_text(&tasks);
    assert!(summarized);
    assert!(text.starts_with("=== 聯絡簿 (7/9 (四)) ===\n1. x"));
    assert!(text.ends_with("x\n…等共 3 項"));
    assert_eq!(text.len(), 229);
    assert!(text.len() <= 300);
}

#[test]
fn last_task_line_may_fill_the_text_to_the_limit() {
    let tasks = vec![task(&"a".repeat(96), "d"), task(&"b".repeat(174), "d")];
    let (text, summarized) = song_class::line_sync::build_sync_text(&tasks);
    assert!(!summarized);
    assert_eq!(text.len(), 300);
    assert!(text.ends_with(&format!("2. {}\n", "b".repeat(174))));
}

#[test]
fn rich_menu_listing_fills_missing_members() {
    let m = song_class::line_sync::rich_menu_listing(Some("r1".to_string()), None, Some("聯絡簿".to_string()), None);
    assert_eq!(m.rich_menu_id, "r1");
    assert_eq!(m.name, "");
    assert_eq!(m.chat_bar_text, "聯絡簿");
    assert!(!m.selected);
    let m = song_class::line_sync::rich_menu_listing(None, Some("n".to_string()), None, Some(true));
    assert_eq!(m.rich_menu_id, "");
    assert!(m.selected);
}
