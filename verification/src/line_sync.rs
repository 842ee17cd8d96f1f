//! Publishing the contact book to a classroom's LINE official account: the
//! text placed behind the rich menu button, the checks on the classroom's
//! LINE settings and the messages shown for the outcome.
use vstd::prelude::*;
use chrono::Datelike;
use crate::api::{api_failure, refused_with, ApiFailure, ApiStatus};
use crate::roster::opt_view;
use crate::text::{byte_len, capped_byte_len, decimal, lemma_decimal_len, pow10, str_byte_len, to_chars, u64_to_decimal};

verus! {

broadcast use vstd::string::group_string_axioms;

/// The most bytes that LINE accepts in the text of a rich menu message action.
pub const LINE_RICHMENU_MAX_ACTION_TEXT: usize = 300;

/// A contact-book item to publish: its title and its `YYYY-MM-DD` date.
#[derive(Debug)]
pub struct SyncTaskItem {
    pub title: String,
    pub task_date: String,
}

/// The month, day and weekday (counted from Sunday = 0) that chrono's
/// `NaiveDate::parse_from_str(text, "%Y-%m-%d")` reads from `text`, or
/// `None` when it refuses the text.
pub uninterp spec fn iso_date_parts(text: Seq<char>) -> Option<(u32, u32, u32)>;

/// The `message` text of a JSON object that serde_json parses from `body`,
/// or `None` when `body` is no JSON or has no textual `message` member.
pub uninterp spec fn json_message_field(body: Seq<char>) -> Option<Seq<char>>;

/// Parses `iso_date` with chrono's `NaiveDate::parse_from_str` and the
/// format `%Y-%m-%d`, and reads the date's month, day and weekday (days from
/// Sunday). The result is named `iso_date_parts`; chrono documents the
/// month in 1..=12, the day in 1..=31 and the weekday number in 0..=6.
#[verifier::external_body]
fn parse_iso_date(iso_date: &str) -> (r: Option<(u32, u32, u32)>)
    ensures
        r == iso_date_parts(iso_date@),
        r matches Some(p) ==> 1 <= p.0 <= 12 && 1 <= p.1 <= 31 && p.2 <= 6,
{
    match chrono::NaiveDate::parse_from_str(iso_date, "%Y-%m-%d") {
        Ok(date) => Some((date.month(), date.day(), date.weekday().num_days_from_sunday())),
        Err(_) => None,
    }
}

/// Parses `body` with `serde_json::from_str` into a `serde_json::Value` and
/// takes the text of its `message` member (`Value::get` then
/// `Value::as_str`). The result is named `json_message_field`.
#[verifier::external_body]
fn json_message(body: &str) -> (r: Option<String>)
    ensures
        opt_view(r) == json_message_field(body@),
{
    match serde_json::from_str::<serde_json::Value>(body) {
        Ok(value) => match value.get("message") {
            Some(member) => match member.as_str() {
                Some(text) => Some(text.to_string()),
                None => None,
            },
            None => None,
        },
        Err(_) => None,
    }
}

/// The Chinese name of a weekday numbered from Sunday.
pub open spec fn weekday_name(w: u32) -> Seq<char> {
    if w == 0 {
        "日"@
    } else if w == 1 {
        "一"@
    } else if w == 2 {
        "二"@
    } else if w == 3 {
        "三"@
    } else if w == 4 {
        "四"@
    } else if w == 5 {
        "五"@
    } else {
        "六"@
    }
}

/// `M/D (週)` for a parsed date, the date text itself otherwise.
pub open spec fn weekday_label(iso: Seq<char>, parts: Option<(u32, u32, u32)>) -> Seq<char> {
    match parts {
        Some(p) => if p.2 <= 6 {
            decimal(p.0 as nat) + "/"@ + decimal(p.1 as nat) + " ("@ + weekday_name(p.2) + ")"@
        } else {
            iso
        },
        None => iso,
    }
}

/// The label of a date names the weekday that chrono reads: for weekday
/// number `w` (days from Sunday) it is the month, `/`, the day, then
/// ` (`, the `w`-th character of "日一二三四五六" and `)`.
pub proof fn law_weekday_label_names_the_weekday(iso: Seq<char>, month: u32, day: u32, w: u32)
    requires
        w <= 6,
    ensures
        ({
            let l = weekday_label(iso, Some((month, day, w)));
            &&& l.len() >= 4
            &&& l[l.len() - 1] == ')'
            &&& l[l.len() - 2] == "日一二三四五六"@[w as int]
            &&& l[l.len() - 3] == '('
            &&& l[l.len() - 4] == ' '
            &&& l.subrange(0, l.len() - 4) == decimal(month as nat) + "/"@ + decimal(day as nat)
        }),
{
    reveal_strlit("日一二三四五六");
    reveal_strlit("日");
    reveal_strlit("一");
    reveal_strlit("二");
    reveal_strlit("三");
    reveal_strlit("四");
    reveal_strlit("五");
    reveal_strlit("六");
    reveal_strlit(" (");
    reveal_strlit(")");
    let front = decimal(month as nat) + "/"@ + decimal(day as nat);
    let name = weekday_name(w);
    assert(name == seq!["日一二三四五六"@[w as int]]);
    let l = weekday_label(iso, Some((month, day, w)));
    assert(l == front + " ("@ + name + ")"@);
    assert(l.subrange(0, l.len() - 4) =~= front);
}

/// The label of each task's date.
pub open spec fn date_labels(tasks: Seq<SyncTaskItem>) -> Seq<Seq<char>> {
    tasks.map_values(|t: SyncTaskItem| weekday_label(t.task_date@, iso_date_parts(t.task_date@)))
}

/// All tasks carry the date of the first one.
pub open spec fn same_date_everywhere(tasks: Seq<SyncTaskItem>) -> bool {
    forall|i: int| 0 <= i < tasks.len() ==> #[trigger] tasks[i].task_date@ == tasks[0].task_date@
}

/// The first line: with the date label when all tasks share one date.
pub open spec fn sync_header(tasks: Seq<SyncTaskItem>, labels: Seq<Seq<char>>) -> Seq<char> {
    if tasks.len() > 0 && same_date_everywhere(tasks) {
        "=== 聯絡簿 ("@ + labels[0] + ") ===\n"@
    } else {
        "=== 聯絡簿 ===\n"@
    }
}

/// What ends a text that had to be cut short: the number of all tasks.
pub open spec fn overflow_note(n: nat) -> Seq<char> {
    "…等共 "@ + decimal(n) + " 項"@
}

/// The numbered line of the task at position `i`; titles over 180 bytes
/// keep their first 60 characters and an ellipsis.
pub open spec fn task_line(i: nat, title: Seq<char>) -> Seq<char> {
    if byte_len(title) > 180 {
        let keep = if title.len() < 60 {
            title.len() as int
        } else {
            60
        };
        decimal(i + 1) + ". "@ + title.take(keep) + "…\n"@
    } else {
        decimal(i + 1) + ". "@ + title + "\n"@
    }
}

/// Whether `piece` can follow `text` and still leave `reserve` bytes
/// within the action text limit.
pub open spec fn fits(text: Seq<char>, piece: Seq<char>, reserve: nat) -> bool {
    byte_len(text) + byte_len(piece) + reserve <= LINE_RICHMENU_MAX_ACTION_TEXT
}

/// The bytes kept free for the note that ends a text cut short.
pub open spec fn note_room(n: nat) -> nat {
    byte_len(overflow_note(n))
}

/// The text built from task `i` on, given the text so far and the date of
/// the last date line; the flag tells whether it was cut short. Every
/// piece but the last task line must leave room for the note, so a text
/// cut short, note included, stays within the limit.
pub open spec fn sync_from(
    tasks: Seq<SyncTaskItem>,
    labels: Seq<Seq<char>>,
    same: bool,
    i: nat,
    text: Seq<char>,
    current: Seq<char>,
) -> (Seq<char>, bool)
    decreases tasks.len() - i,
{
    if i >= tasks.len() {
        (text, false)
    } else {
        let date = tasks[i as int].task_date@;
        let needs_date_line = !same && date != current;
        let date_line = labels[i as int] + "\n"@;
        if needs_date_line && !fits(text, date_line, note_room(tasks.len())) {
            (text + overflow_note(tasks.len()), true)
        } else {
            let text1 = if needs_date_line {
                text + date_line
            } else {
                text
            };
            let current1 = if needs_date_line {
                date
            } else {
                current
            };
            let line = task_line(i, tasks[i as int].title@);
            let reserve = if i + 1 == tasks.len() {
                0
            } else {
                note_room(tasks.len())
            };
            if !fits(text1, line, reserve) {
                (text1 + overflow_note(tasks.len()), true)
            } else {
                sync_from(tasks, labels, same, i + 1, text1 + line, current1)
            }
        }
    }
}

/// The contact-book text for `tasks` whose dates read as `labels`, and
/// whether it had to be cut short.
pub open spec fn sync_text(tasks: Seq<SyncTaskItem>, labels: Seq<Seq<char>>) -> (Seq<char>, bool) {
    sync_from(
        tasks,
        labels,
        same_date_everywhere(tasks),
        0,
        sync_header(tasks, labels),
        Seq::empty(),
    )
}

/// What is shown for a refusal of the LINE API with status `status` and
/// response body `body`, whose `message` member is `message`.
pub open spec fn line_error_detail_text(status: Seq<char>, body: Seq<char>, message: Option<Seq<char>>) -> Seq<char> {
    if body.len() == 0 {
        "HTTP "@ + status + "（無錯誤內容）"@
    } else {
        match message {
            Some(m) => "HTTP "@ + status + ": "@ + m,
            None => "HTTP "@ + status + ": "@ + body,
        }
    }
}

/// The label of a date: `M/D (週)` for a date that `parts` gives, the date
/// text itself otherwise.
pub fn format_weekday_label(iso_date: &str, parts: Option<(u32, u32, u32)>) -> (r: String)
    ensures
        r@ == weekday_label(iso_date@, parts),
{
    match parts {
        Some(p) => {
            let (month, day, w) = p;
            if w > 6 {
                return String::from_str(iso_date);
            }
            let mut out = u64_to_decimal(month as u64);
            out.append("/");
            let day_text = u64_to_decimal(day as u64);
            out.append(day_text.as_str());
            out.append(" (");
            let name = if w == 0 {
                "日"
            } else if w == 1 {
                "一"
            } else if w == 2 {
                "二"
            } else if w == 3 {
                "三"
            } else if w == 4 {
                "四"
            } else if w == 5 {
                "五"
            } else {
                "六"
            };
            out.append(name);
            out.append(")");
            out
        },
        None => String::from_str(iso_date),
    }
}

/// The label of a `YYYY-MM-DD` date: `M/D (週)`, or the text itself when
/// chrono does not read a date from it.
pub fn format_date_weekday(iso_date: &str) -> (r: String)
    ensures
        r@ == weekday_label(iso_date@, iso_date_parts(iso_date@)),
        iso_date_parts(iso_date@) matches Some(p) ==> 1 <= p.0 <= 12 && 1 <= p.1 <= 31 && p.2 <= 6,
{
    let parts = parse_iso_date(iso_date);
    format_weekday_label(iso_date, parts)
}

/// A byte count as it is tracked while the text grows: exact up to the
/// limit, one past the limit beyond it.
pub open spec fn capped_len(n: nat) -> int {
    if n > LINE_RICHMENU_MAX_ACTION_TEXT {
        LINE_RICHMENU_MAX_ACTION_TEXT + 1
    } else {
        n as int
    }
}

/// `piece` can follow a text of `text_len` bytes and still leave `reserve`
/// bytes within the action text limit (both counts capped).
fn fits_after(text_len: usize, piece: &Vec<char>, reserve: usize) -> (r: bool)
    requires
        text_len <= LINE_RICHMENU_MAX_ACTION_TEXT + 1,
        reserve <= LINE_RICHMENU_MAX_ACTION_TEXT + 1,
    ensures
        forall|text: Seq<char>, room: nat|
            text_len == capped_len(byte_len(text)) && reserve == capped_len(room) ==> r == fits(
                text,
                piece@,
                room,
            ),
{
    let piece_len = capped_byte_len(piece, LINE_RICHMENU_MAX_ACTION_TEXT);
    text_len + piece_len + reserve <= LINE_RICHMENU_MAX_ACTION_TEXT
}

/// Appends the note for a text cut short after `n` tasks.
fn push_overflow_note(text: &mut String, n: usize)
    ensures
        final(text)@ == old(text)@ + overflow_note(n as nat),
{
    text.append("…等共 ");
    let count = u64_to_decimal(n as u64);
    text.append(count.as_str());
    text.append(" 項");
    proof {
        assert(final(text)@ =~= old(text)@ + overflow_note(n as nat));
    }
}

/// The numbered line of the task at position `i`.
fn make_task_line(i: usize, title: &String) -> (r: String)
    requires
        i < usize::MAX,
    ensures
        r@ == task_line(i as nat, title@),
{
    let chars = to_chars(title.as_str());
    let mut out = u64_to_decimal((i + 1) as u64);
    out.append(". ");
    if capped_byte_len(&chars, 180) > 180 {
        let keep: usize = if chars.len() < 60 {
            chars.len()
        } else {
            60
        };
        let head = title.as_str().substring_char(0, keep);
        out.append(head);
        out.append("…\n");
    } else {
        out.append(title.as_str());
        out.append("\n");
    }
    out
}

/// Assembles the contact-book text for `tasks`, whose dates read as
/// `labels`: a header, a date line before each new date when the dates
/// differ, one numbered line per task. Every piece but the last task line
/// must leave room for the note "…等共 N 項"; as soon as one does not, the
/// note ends the text and the flag is set, so the text never passes 300
/// bytes when its header leaves room for the note.
pub fn compose_sync_text(tasks: &Vec<SyncTaskItem>, labels: &Vec<String>) -> (r: (String, bool))
    requires
        labels@.len() == tasks@.len(),
    ensures
        (r.0@, r.1) == sync_text(tasks@, labels@.map_values(|l: String| l@)),
{
    let ghost lv = labels@.map_values(|l: String| l@);
    let n = tasks.len();
    let mut same = true;
    if n > 0 {
        let mut k: usize = 1;
        while k < n
            invariant
                n == tasks@.len(),
                n > 0,
                1 <= k <= n,
                same == forall|j: int| 0 <= j < k ==> #[trigger] tasks@[j].task_date@ == tasks@[0].task_date@,
            decreases n - k,
        {
            if tasks[k].task_date != tasks[0].task_date {
                same = false;
            }
            k = k + 1;
        }
    }
    proof {
        assert(same == same_date_everywhere(tasks@));
    }
    let mut text = if n > 0 && same {
        let mut h = String::from_str("=== 聯絡簿 (");
        h.append(labels[0].as_str());
        h.append(") ===\n");
        h
    } else {
        String::from_str("=== 聯絡簿 ===\n")
    };
    proof {
        assert(text@ =~= sync_header(tasks@, lv));
    }
    let header_chars = to_chars(text.as_str());
    let mut text_len = capped_byte_len(&header_chars, LINE_RICHMENU_MAX_ACTION_TEXT);
    let mut note = String::new();
    push_overflow_note(&mut note, n);
    let note_chars = to_chars(note.as_str());
    let note_len = capped_byte_len(&note_chars, LINE_RICHMENU_MAX_ACTION_TEXT);
    let mut current = String::new();
    let mut i: usize = 0;
    while i < n
        invariant
            n == tasks@.len(),
            labels@.len() == n,
            lv == labels@.map_values(|l: String| l@),
            same == same_date_everywhere(tasks@),
            i <= n,
            note@ == overflow_note(n as nat),
            note_len == capped_len(note_room(n as nat)),
            text_len == capped_len(byte_len(text@)),
            sync_text(tasks@, lv) == sync_from(tasks@, lv, same, i as nat, text@, current@),
        decreases n - i,
    {
        let task = &tasks[i];
        let needs_date_line = !same && task.task_date != current;
        if needs_date_line {
            let mut date_line = labels[i].clone();
            date_line.append("\n");
            let line_chars = to_chars(date_line.as_str());
            if !fits_after(text_len, &line_chars, note_len) {
                text.append(note.as_str());
                return (text, true);
            }
            let piece_len = capped_byte_len(&line_chars, LINE_RICHMENU_MAX_ACTION_TEXT);
            proof {
                crate::text::lemma_byte_len_concat(text@, date_line@);
            }
            text.append(date_line.as_str());
            text_len = text_len + piece_len;
            current = task.task_date.clone();
        }
        let line = make_task_line(i, &task.title);
        let line_chars = to_chars(line.as_str());
        let reserve: usize = if i + 1 == n {
            0
        } else {
            note_len
        };
        if !fits_after(text_len, &line_chars, reserve) {
            text.append(note.as_str());
            return (text, true);
        }
        let piece_len = capped_byte_len(&line_chars, LINE_RICHMENU_MAX_ACTION_TEXT);
        proof {
            crate::text::lemma_byte_len_concat(text@, line@);
        }
        text.append(line.as_str());
        text_len = text_len + piece_len;
        i = i + 1;
    }
    (text, false)
}

/// The contact-book text for `tasks` and whether it had to be cut short,
/// with each date labelled as `format_date_weekday` labels it. When chrono
/// reads every date, the text, cut short or not, is at most 300 bytes.
pub fn build_sync_text(tasks: &Vec<SyncTaskItem>) -> (r: (String, bool))
    ensures
        (r.0@, r.1) == sync_text(tasks@, date_labels(tasks@)),
        (forall|k: int| 0 <= k < tasks@.len() ==> #[trigger] iso_date_parts(tasks@[k].task_date@) is Some)
            ==> byte_len(r.0@) <= LINE_RICHMENU_MAX_ACTION_TEXT,
{
    let mut labels: Vec<String> = Vec::new();
    let mut k: usize = 0;
    while k < tasks.len()
        invariant
            k <= tasks@.len(),
            labels@.len() == k,
            forall|j: int|
                0 <= j < k ==> #[trigger] labels@[j]@ == weekday_label(
                    tasks@[j].task_date@,
                    iso_date_parts(tasks@[j].task_date@),
                ),
            forall|j: int|
                0 <= j < k ==> (#[trigger] iso_date_parts(tasks@[j].task_date@) matches Some(p)
                    ==> 1 <= p.0 <= 12 && 1 <= p.1 <= 31 && p.2 <= 6),
        decreases tasks@.len() - k,
    {
        labels.push(format_date_weekday(tasks[k].task_date.as_str()));
        k = k + 1;
    }
    proof {
        let lv = labels@.map_values(|l: String| l@);
        assert(lv =~= date_labels(tasks@));
        if forall|k: int| 0 <= k < tasks@.len() ==> #[trigger] iso_date_parts(tasks@[k].task_date@) is Some {
            if tasks@.len() > 0 {
                let p = iso_date_parts(tasks@[0].task_date@)->0;
                assert(iso_date_parts(tasks@[0].task_date@) is Some);
                lemma_weekday_label_len(tasks@[0].task_date@, p);
                assert(lv[0] == weekday_label(tasks@[0].task_date@, Some(p)));
            }
            lemma_header_leaves_room(tasks@, lv);
            law_sync_text_within_limit(tasks@, lv);
        }
    }
    compose_sync_text(tasks, &labels)
}

/// The label of a date that chrono reads takes at most nine characters.
proof fn lemma_weekday_label_len(iso: Seq<char>, p: (u32, u32, u32))
    requires
        1 <= p.0 <= 12,
        1 <= p.1 <= 31,
        p.2 <= 6,
    ensures
        weekday_label(iso, Some(p)).len() <= 9,
{
    assert(pow10(2) == 100) by {
        reveal_with_fuel(pow10, 3);
    }
    lemma_decimal_len(p.0 as nat, 2);
    lemma_decimal_len(p.1 as nat, 2);
    reveal_strlit("/");
    reveal_strlit(" (");
    reveal_strlit(")");
    reveal_strlit("日");
    reveal_strlit("一");
    reveal_strlit("二");
    reveal_strlit("三");
    reveal_strlit("四");
    reveal_strlit("五");
    reveal_strlit("六");
    assert(weekday_name(p.2).len() == 1);
}

/// A header whose date label takes at most nine characters leaves room for
/// the note after it.
proof fn lemma_header_leaves_room(tasks: Seq<SyncTaskItem>, labels: Seq<Seq<char>>)
    requires
        tasks.len() <= usize::MAX,
        tasks.len() > 0 ==> labels[0].len() <= 9,
    ensures
        byte_len(sync_header(tasks, labels)) + note_room(tasks.len()) <= LINE_RICHMENU_MAX_ACTION_TEXT,
{
    reveal_strlit("=== 聯絡簿 (");
    reveal_strlit(") ===\n");
    reveal_strlit("=== 聯絡簿 ===\n");
    reveal_strlit("…等共 ");
    reveal_strlit(" 項");
    let header = sync_header(tasks, labels);
    assert(header.len() <= 24);
    crate::text::lemma_byte_len_bound(header);
    crate::text::lemma_usize_decimal_len(tasks.len() as usize);
    let note = overflow_note(tasks.len());
    assert(note.len() <= 26);
    crate::text::lemma_byte_len_bound(note);
}

/// Refuses to publish an empty contact book.
pub fn require_sync_tasks(tasks: &Vec<SyncTaskItem>) -> (r: Result<(), ApiFailure>)
    ensures
        tasks@.len() == 0 ==> refused_with(r, ApiStatus::BadRequest, "同步內容不可為空"@),
        tasks@.len() > 0 ==> r is Ok,
{
    if tasks.len() == 0 {
        return Err(api_failure(ApiStatus::BadRequest, "同步內容不可為空"));
    }
    Ok(())
}

/// The checks before listing or deleting a classroom's rich menus: LINE
/// must be enabled and an access token set.
pub fn check_line_access(line_enabled: i64, access_token: &str) -> (r: Result<(), ApiFailure>)
    ensures
        line_enabled == 0 ==> refused_with(r, ApiStatus::BadRequest, "該班級未啟用 LINE 同步功能"@),
        line_enabled != 0 && access_token@.len() == 0 ==> refused_with(
            r,
            ApiStatus::BadRequest,
            "該班級未設定 LINE Channel Access Token"@,
        ),
        line_enabled != 0 && access_token@.len() > 0 ==> r is Ok,
{
    if line_enabled == 0 {
        return Err(api_failure(ApiStatus::BadRequest, "該班級未啟用 LINE 同步功能"));
    }
    if access_token.is_empty() {
        return Err(api_failure(ApiStatus::BadRequest, "該班級未設定 LINE Channel Access Token"));
    }
    Ok(())
}

/// The checks before publishing: LINE must be enabled and an access token
/// set.
pub fn check_line_sync_access(line_enabled: i64, access_token: &str) -> (r: Result<(), ApiFailure>)
    ensures
        line_enabled == 0 ==> refused_with(
            r,
            ApiStatus::BadRequest,
            "該班級未啟用 LINE 同步功能，請先在班級設定中啟用"@,
        ),
        line_enabled != 0 && access_token@.len() == 0 ==> refused_with(
            r,
            ApiStatus::BadRequest,
            "該班級未設定 LINE Channel Access Token"@,
        ),
        line_enabled != 0 && access_token@.len() > 0 ==> r is Ok,
{
    if line_enabled == 0 {
        return Err(
            api_failure(ApiStatus::BadRequest, "該班級未啟用 LINE 同步功能，請先在班級設定中啟用"),
        );
    }
    if access_token.is_empty() {
        return Err(api_failure(ApiStatus::BadRequest, "該班級未設定 LINE Channel Access Token"));
    }
    Ok(())
}

/// The `Authorization` header value for a channel access token.
pub fn bearer_header(access_token: &str) -> (r: String)
    ensures
        r@ == "Bearer "@ + access_token@,
{
    let mut out = String::from_str("Bearer ");
    out.append(access_token);
    out
}

/// The detail shown for a refusal of the LINE API, given the `message`
/// member of its body.
pub fn describe_line_error(status: &str, body: &str, message: Option<String>) -> (r: String)
    ensures
        r@ == line_error_detail_text(status@, body@, opt_view(message)),
{
    let mut out = String::from_str("HTTP ");
    out.append(status);
    if body.is_empty() {
        out.append("（無錯誤內容）");
        return out;
    }
    out.append(": ");
    match message {
        Some(m) => out.append(m.as_str()),
        None => out.append(body),
    }
    out
}

/// The detail shown for a refusal of the LINE API with status text
/// `status` and body `body`: the body's JSON `message` when it has one.
pub fn line_error_detail(status: &str, body: &str) -> (r: String)
    ensures
        r@ == line_error_detail_text(
            status@,
            body@,
            if body@.len() == 0 {
                None
            } else {
                json_message_field(body@)
            },
        ),
{
    if body.is_empty() {
        return describe_line_error(status, body, None);
    }
    let message = json_message(body);
    describe_line_error(status, body, message)
}

/// The refusal that a failed LINE API step is answered with: a bad gateway
/// whose message is `context` followed by the error detail.
pub fn line_failure(context: &str, status: &str, body: &str) -> (r: ApiFailure)
    ensures
        r.status == ApiStatus::BadGateway,
        r.message@ == context@ + line_error_detail_text(
            status@,
            body@,
            if body@.len() == 0 {
                None
            } else {
                json_message_field(body@)
            },
        ),
{
    let mut message = String::from_str(context);
    let detail = line_error_detail(status, body);
    message.append(detail.as_str());
    ApiFailure { status: ApiStatus::BadGateway, message }
}

/// The message shown after a successful publish; a shortened text reports
/// its length in bytes.
pub fn sync_success_message(sync_text: &str, summarized: bool) -> (r: String)
    requires
        byte_len(sync_text@) <= usize::MAX,
    ensures
        r@ == (if summarized {
            "同步成功（已自動摘要為 "@ + decimal(byte_len(sync_text@)) + " 字）"@
        } else {
            "同步成功"@
        }),
{
    if summarized {
        let mut out = String::from_str("同步成功（已自動摘要為 ");
        let size = str_byte_len(sync_text);
        let digits = u64_to_decimal(size as u64);
        out.append(digits.as_str());
        out.append(" 字）");
        out
    } else {
        String::from_str("同步成功")
    }
}

/// The base address of the LINE Messaging API.
pub const LINE_API_BASE: &'static str = "https://api.line.me/v2/bot";

/// The base address of the LINE Messaging API for uploaded content.
pub const LINE_API_DATA_BASE: &'static str = "https://api-data.line.me/v2/bot";

/// The tappable area of a rich menu and the message it sends.
pub struct RichMenuArea {
    pub x: u32,
    pub y: u32,
    pub width: u32,
    pub height: u32,
    pub action_type: String,
    pub action_text: String,
}

/// The rich menu that carries the contact book.
pub struct RichMenu {
    pub width: u32,
    pub height: u32,
    pub selected: bool,
    pub name: String,
    pub chat_bar_text: String,
    pub areas: Vec<RichMenuArea>,
}

/// The rich menu whose only area, covering the whole menu, sends
/// `sync_text` as a message.
pub fn generate_rich_menu(sync_text: &str) -> (m: RichMenu)
    ensures
        m.width == 2500,
        m.height == 1686,
        m.selected,
        m.name@ == "聯絡簿同步"@,
        m.chat_bar_text@ == "聯絡簿"@,
        m.areas@.len() == 1,
        m.areas@[0].x == 0,
        m.areas@[0].y == 0,
        m.areas@[0].width == 2500,
        m.areas@[0].height == 1686,
        m.areas@[0].action_type@ == "message"@,
        m.areas@[0].action_text@ == sync_text@,
{
    let area = RichMenuArea {
        x: 0,
        y: 0,
        width: 2500,
        height: 1686,
        action_type: String::from_str("message"),
        action_text: String::from_str(sync_text),
    };
    let mut areas: Vec<RichMenuArea> = Vec::new();
    areas.push(area);
    RichMenu {
        width: 2500,
        height: 1686,
        selected: true,
        name: String::from_str("聯絡簿同步"),
        chat_bar_text: String::from_str("聯絡簿"),
        areas,
    }
}

/// An HTTP method of a LINE API call.
#[derive(Debug, Clone, Copy, PartialEq, Eq, Structural)]
pub enum HttpMethod {
    Get,
    Post,
    Delete,
}

/// A step of publishing the contact book to LINE.
#[derive(Debug)]
pub enum LineSyncStep {
    /// Overwrite the classroom's stored rich menu with the new contents.
    UpdateMenu { rich_menu_id: String },
    /// Delete the stored rich menu that LINE would not update, whatever
    /// LINE answers, before a new one is created.
    DeleteOldMenu { rich_menu_id: String },
    /// Create a new rich menu.
    CreateMenu,
    /// Upload the menu image of the new rich menu.
    UploadImage { rich_menu_id: String },
    /// Make the new rich menu the default for all users.
    SetDefault { rich_menu_id: String },
    /// The rich menu is published.
    Finished { rich_menu_id: String },
}

/// How LINE answered the call of a step.
#[derive(Debug)]
pub enum LineReply {
    /// The request could not be sent.
    Unreachable { error: String },
    /// LINE answered with a status that is not a success: its code, its
    /// text and the response body.
    Refused { code: u16, status: String, body: String },
    /// LINE accepted the call; for the create call, the `richMenuId` of the
    /// reply body, if it has a textual one.
    Delivered { rich_menu_id: Option<String> },
    /// LINE accepted the call but its body is no JSON (only the create call
    /// reads the body).
    Unreadable { error: String },
}

/// The detail of a refusal with status `status` and body `body`.
pub open spec fn line_detail(status: Seq<char>, body: Seq<char>) -> Seq<char> {
    line_error_detail_text(
        status,
        body,
        if body.len() == 0 {
            None
        } else {
            json_message_field(body)
        },
    )
}

/// LINE accepted the call.
pub open spec fn delivered(reply: LineReply) -> bool {
    reply is Delivered || reply is Unreadable
}

/// LINE reports the rich menu id invalid (400) or unknown (404).
pub open spec fn menu_gone(reply: LineReply) -> bool {
    match reply {
        LineReply::Refused { code, .. } => code == 400 || code == 404,
        _ => false,
    }
}

/// The first step of a publish: update the stored rich menu if the
/// classroom has one, else create one.
pub open spec fn sync_start(stored_rich_menu_id: String) -> LineSyncStep {
    if stored_rich_menu_id@.len() > 0 {
        LineSyncStep::UpdateMenu { rich_menu_id: stored_rich_menu_id }
    } else {
        LineSyncStep::CreateMenu
    }
}

/// The step after `step` was answered with `reply`; `None` when the publish
/// is refused. A stored menu that LINE updates stays published; one that
/// LINE reports gone is deleted and rebuilt.
pub open spec fn sync_next(step: LineSyncStep, reply: LineReply) -> Option<LineSyncStep> {
    match step {
        LineSyncStep::UpdateMenu { rich_menu_id } => if delivered(reply) {
            Some(LineSyncStep::Finished { rich_menu_id })
        } else if menu_gone(reply) {
            Some(LineSyncStep::DeleteOldMenu { rich_menu_id })
        } else {
            None
        },
        LineSyncStep::DeleteOldMenu { .. } => Some(LineSyncStep::CreateMenu),
        LineSyncStep::CreateMenu => match reply {
            LineReply::Delivered { rich_menu_id: Some(id) } => Some(
                LineSyncStep::UploadImage { rich_menu_id: id },
            ),
            _ => None,
        },
        LineSyncStep::UploadImage { rich_menu_id } => if delivered(reply) {
            Some(LineSyncStep::SetDefault { rich_menu_id })
        } else {
            None
        },
        LineSyncStep::SetDefault { rich_menu_id } => if delivered(reply) {
            Some(LineSyncStep::Finished { rich_menu_id })
        } else {
            None
        },
        LineSyncStep::Finished { rich_menu_id } => Some(LineSyncStep::Finished { rich_menu_id }),
    }
}

/// The status and message that a refused publish is answered with.
pub open spec fn sync_refusal(step: LineSyncStep, reply: LineReply) -> (ApiStatus, Seq<char>) {
    match step {
        LineSyncStep::UpdateMenu { .. } => match reply {
            LineReply::Unreachable { error } => (
                ApiStatus::InternalServerError,
                "呼叫 LINE API 更新 rich menu 失敗: "@ + error@,
            ),
            LineReply::Refused { status, body, .. } => (
                ApiStatus::BadGateway,
                "LINE API 更新 rich menu 錯誤："@ + line_detail(status@, body@),
            ),
            _ => (ApiStatus::InternalServerError, Seq::empty()),
        },
        LineSyncStep::CreateMenu => match reply {
            LineReply::Unreachable { error } => (
                ApiStatus::InternalServerError,
                "呼叫 LINE API 建立 rich menu 失敗: "@ + error@,
            ),
            LineReply::Refused { status, body, .. } => (
                ApiStatus::BadGateway,
                "LINE API 建立 rich menu 錯誤："@ + line_detail(status@, body@),
            ),
            LineReply::Unreadable { error } => (
                ApiStatus::InternalServerError,
                "解析 LINE API 回覆失敗: "@ + error@,
            ),
            LineReply::Delivered { .. } => (
                ApiStatus::InternalServerError,
                "LINE API 未回傳 richMenuId"@,
            ),
        },
        LineSyncStep::UploadImage { .. } => match reply {
            LineReply::Unreachable { error } => (
                ApiStatus::InternalServerError,
                "上傳 rich menu 圖片失敗: "@ + error@,
            ),
            LineReply::Refused { status, body, .. } => (
                ApiStatus::BadGateway,
                "LINE API 拒絕 rich menu 圖片："@ + line_detail(status@, body@),
            ),
            _ => (ApiStatus::InternalServerError, Seq::empty()),
        },
        LineSyncStep::SetDefault { .. } => match reply {
            LineReply::Unreachable { error } => (
                ApiStatus::InternalServerError,
                "設定預設 rich menu 失敗: "@ + error@,
            ),
            LineReply::Refused { status, body, .. } => (
                ApiStatus::BadGateway,
                "LINE API 拒絕設定預設 rich menu："@ + line_detail(status@, body@),
            ),
            _ => (ApiStatus::InternalServerError, Seq::empty()),
        },
        _ => (ApiStatus::InternalServerError, Seq::empty()),
    }
}

/// Where a publish that starts at `step` stands after the replies
/// `replies`, one per step; `None` once it was refused.
pub open spec fn sync_run(step: LineSyncStep, replies: Seq<LineReply>) -> Option<LineSyncStep>
    decreases replies.len(),
{
    if replies.len() == 0 {
        Some(step)
    } else {
        match sync_next(step, replies[0]) {
            Some(next) => sync_run(next, replies.drop_first()),
            None => None,
        }
    }
}

/// The first step of publishing, given the rich menu id that the classroom
/// stores from its previous publish (empty when it has none).
pub fn first_sync_step(stored_rich_menu_id: String) -> (step: LineSyncStep)
    ensures
        step == sync_start(stored_rich_menu_id),
{
    if stored_rich_menu_id.as_str().is_empty() {
        LineSyncStep::CreateMenu
    } else {
        LineSyncStep::UpdateMenu { rich_menu_id: stored_rich_menu_id }
    }
}

/// The refusal of a failed LINE call: an internal error for a call that
/// could not be made, a bad gateway with the error detail for a refusal.
fn step_failure(unreachable_context: &str, refused_context: &str, reply: LineReply) -> (r: ApiFailure)
    requires
        reply is Unreachable || reply is Refused,
    ensures
        match reply {
            LineReply::Unreachable { error } => r.status == ApiStatus::InternalServerError
                && r.message@ == unreachable_context@ + error@,
            LineReply::Refused { status, body, .. } => r.status == ApiStatus::BadGateway
                && r.message@ == refused_context@ + line_detail(status@, body@),
            _ => true,
        },
{
    match reply {
        LineReply::Unreachable { error } => {
            let mut message = String::from_str(unreachable_context);
            message.append(error.as_str());
            ApiFailure { status: ApiStatus::InternalServerError, message }
        },
        LineReply::Refused { status, body, .. } => line_failure(
            refused_context,
            status.as_str(),
            body.as_str(),
        ),
        _ => api_failure(ApiStatus::InternalServerError, ""),
    }
}

/// The step after `step` was answered with `reply`, or the refusal the
/// publish ends with.
pub fn next_sync_step(step: LineSyncStep, reply: LineReply) -> (r: Result<LineSyncStep, ApiFailure>)
    ensures
        match r {
            Ok(next) => sync_next(step, reply) == Some(next),
            Err(e) => sync_next(step, reply) is None && (e.status, e.message@) == sync_refusal(
                step,
                reply,
            ),
        },
{
    proof {
        reveal_strlit("");
    }
    match step {
        LineSyncStep::UpdateMenu { rich_menu_id } => match reply {
            LineReply::Delivered { .. } => Ok(LineSyncStep::Finished { rich_menu_id }),
            LineReply::Unreadable { .. } => Ok(LineSyncStep::Finished { rich_menu_id }),
            LineReply::Refused { code, status, body } => {
                if code == 400 || code == 404 {
                    Ok(LineSyncStep::DeleteOldMenu { rich_menu_id })
                } else {
                    Err(
                        step_failure(
                            "呼叫 LINE API 更新 rich menu 失敗: ",
                            "LINE API 更新 rich menu 錯誤：",
                            LineReply::Refused { code, status, body },
                        ),
                    )
                }
            },
            other => Err(
                step_failure("呼叫 LINE API 更新 rich menu 失敗: ", "LINE API 更新 rich menu 錯誤：", other),
            ),
        },
        LineSyncStep::DeleteOldMenu { .. } => Ok(LineSyncStep::CreateMenu),
        LineSyncStep::CreateMenu => match reply {
            LineReply::Delivered { rich_menu_id: Some(id) } => Ok(
                LineSyncStep::UploadImage { rich_menu_id: id },
            ),
            LineReply::Delivered { rich_menu_id: None } => Err(
                api_failure(ApiStatus::InternalServerError, "LINE API 未回傳 richMenuId"),
            ),
            LineReply::Unreadable { error } => {
                let mut message = String::from_str("解析 LINE API 回覆失敗: ");
                message.append(error.as_str());
                Err(ApiFailure { status: ApiStatus::InternalServerError, message })
            },
            other => Err(
                step_failure("呼叫 LINE API 建立 rich menu 失敗: ", "LINE API 建立 rich menu 錯誤：", other),
            ),
        },
        LineSyncStep::UploadImage { rich_menu_id } => match reply {
            LineReply::Delivered { .. } => Ok(LineSyncStep::SetDefault { rich_menu_id }),
            LineReply::Unreadable { .. } => Ok(LineSyncStep::SetDefault { rich_menu_id }),
            other => Err(step_failure("上傳 rich menu 圖片失敗: ", "LINE API 拒絕 rich menu 圖片：", other)),
        },
        LineSyncStep::SetDefault { rich_menu_id } => match reply {
            LineReply::Delivered { .. } => Ok(LineSyncStep::Finished { rich_menu_id }),
            LineReply::Unreadable { .. } => Ok(LineSyncStep::Finished { rich_menu_id }),
            other => Err(
                step_failure("設定預設 rich menu 失敗: ", "LINE API 拒絕設定預設 rich menu：", other),
            ),
        },
        LineSyncStep::Finished { rich_menu_id } => Ok(LineSyncStep::Finished { rich_menu_id }),
    }
}

/// The call a step makes: its method and address; none once published.
/// The update and create calls carry the rich menu as their body.
pub fn sync_step_request(step: &LineSyncStep) -> (r: Option<(HttpMethod, String)>)
    ensures
        match *step {
            LineSyncStep::UpdateMenu { rich_menu_id } => r matches Some(c) && c.0
                == HttpMethod::Post && c.1@ == LINE_API_BASE@ + "/richmenu/"@ + rich_menu_id@,
            LineSyncStep::DeleteOldMenu { rich_menu_id } => r matches Some(c) && c.0
                == HttpMethod::Delete && c.1@ == LINE_API_BASE@ + "/richmenu/"@ + rich_menu_id@,
            LineSyncStep::CreateMenu => r matches Some(c) && c.0 == HttpMethod::Post && c.1@
                == LINE_API_BASE@ + "/richmenu"@,
            LineSyncStep::UploadImage { rich_menu_id } => r matches Some(c) && c.0
                == HttpMethod::Post && c.1@ == LINE_API_DATA_BASE@ + "/richmenu/"@ + rich_menu_id@
                + "/content"@,
            LineSyncStep::SetDefault { rich_menu_id } => r matches Some(c) && c.0
                == HttpMethod::Post && c.1@ == LINE_API_BASE@ + "/user/all/richmenu/"@
                + rich_menu_id@,
            LineSyncStep::Finished { .. } => r is None,
        },
{
    match step {
        LineSyncStep::UpdateMenu { rich_menu_id } => Some((HttpMethod::Post, richmenu_url(rich_menu_id.as_str()))),
        LineSyncStep::DeleteOldMenu { rich_menu_id } => Some(
            (HttpMethod::Delete, richmenu_url(rich_menu_id.as_str())),
        ),
        LineSyncStep::CreateMenu => {
            let mut url = String::from_str(LINE_API_BASE);
            url.append("/richmenu");
            Some((HttpMethod::Post, url))
        },
        LineSyncStep::UploadImage { rich_menu_id } => {
            let mut url = String::from_str(LINE_API_DATA_BASE);
            url.append("/richmenu/");
            url.append(rich_menu_id.as_str());
            url.append("/content");
            Some((HttpMethod::Post, url))
        },
        LineSyncStep::SetDefault { rich_menu_id } => {
            let mut url = String::from_str(LINE_API_BASE);
            url.append("/user/all/richmenu/");
            url.append(rich_menu_id.as_str());
            Some((HttpMethod::Post, url))
        },
        LineSyncStep::Finished { .. } => None,
    }
}

/// The address of the rich menu `rich_menu_id`.
pub fn richmenu_url(rich_menu_id: &str) -> (r: String)
    ensures
        r@ == LINE_API_BASE@ + "/richmenu/"@ + rich_menu_id@,
{
    let mut url = String::from_str(LINE_API_BASE);
    url.append("/richmenu/");
    url.append(rich_menu_id);
    url
}

/// The address of the list of a channel's rich menus.
pub fn richmenu_list_url() -> (r: String)
    ensures
        r@ == LINE_API_BASE@ + "/richmenu/list"@,
{
    let mut url = String::from_str(LINE_API_BASE);
    url.append("/richmenu/list");
    url
}

/// The refusal of a rich menu listing or deletion that LINE refused: a
/// bad gateway whose message is `context`, the status and the raw body.
pub fn line_refusal(context: &str, status: &str, body: &str) -> (r: ApiFailure)
    ensures
        r.status == ApiStatus::BadGateway,
        r.message@ == context@ + "HTTP "@ + status@ + ": "@ + body@,
{
    let mut message = String::from_str(context);
    message.append("HTTP ");
    message.append(status);
    message.append(": ");
    message.append(body);
    ApiFailure { status: ApiStatus::BadGateway, message }
}

/// A rich menu of a channel as the rich menu listing shows it.
#[derive(Debug)]
pub struct RichMenuListing {
    pub rich_menu_id: String,
    pub name: String,
    pub chat_bar_text: String,
    pub selected: bool,
}

/// The text of an optional member, empty when it is missing.
pub open spec fn text_or_empty(o: Option<String>) -> Seq<char> {
    match o {
        Some(t) => t@,
        None => Seq::empty(),
    }
}

fn take_text(o: Option<String>) -> (r: String)
    ensures
        r@ == text_or_empty(o),
{
    match o {
        Some(t) => t,
        None => String::new(),
    }
}

/// The listing entry of a rich menu from the members that LINE gave for
/// it (`richMenuId`, `name`, `chatBarText`, `selected`): a missing text is
/// empty and a missing flag is false.
pub fn rich_menu_listing(
    rich_menu_id: Option<String>,
    name: Option<String>,
    chat_bar_text: Option<String>,
    selected: Option<bool>,
) -> (r: RichMenuListing)
    ensures
        r.rich_menu_id@ == text_or_empty(rich_menu_id),
        r.name@ == text_or_empty(name),
        r.chat_bar_text@ == text_or_empty(chat_bar_text),
        r.selected == (selected == Some(true)),
{
    RichMenuListing {
        rich_menu_id: take_text(rich_menu_id),
        name: take_text(name),
        chat_bar_text: take_text(chat_bar_text),
        selected: match selected {
            Some(b) => b,
            None => false,
        },
    }
}

/// A classroom's stored rich menu that LINE accepts the update of stays
/// the published menu: the publish ends at once with that id and creates
/// no new menu.
pub proof fn law_stored_menu_is_kept(stored_rich_menu_id: String, replies: Seq<LineReply>)
    requires
        stored_rich_menu_id@.len() > 0,
        replies.len() > 0,
        delivered(replies[0]),
    ensures
        sync_next(sync_start(stored_rich_menu_id), replies[0]) == Some(
            (LineSyncStep::Finished { rich_menu_id: stored_rich_menu_id }),
        ),
        sync_run(sync_start(stored_rich_menu_id), replies) == Some(
            (LineSyncStep::Finished { rich_menu_id: stored_rich_menu_id }),
        ),
{
    lemma_finished_stays(stored_rich_menu_id, replies.drop_first());
}

/// A publish that ends with a published rich menu either kept the stored
/// menu, which LINE updated, or published a menu that its create call
/// returned, after LINE accepted the upload of its image and made it the
/// default. It creates a menu only when the classroom stores none, or when
/// LINE reported the stored one invalid or unknown and the publish then
/// asked LINE to delete it.
pub proof fn law_published_menu_is_stored_or_created(
    stored_rich_menu_id: String,
    replies: Seq<LineReply>,
    published: String,
)
    requires
        sync_run(sync_start(stored_rich_menu_id), replies) == Some(
            (LineSyncStep::Finished { rich_menu_id: published }),
        ),
    ensures
        replies.len() > 0,
        stored_rich_menu_id@.len() > 0 && delivered(replies[0]) ==> published
            == stored_rich_menu_id,
        !(stored_rich_menu_id@.len() > 0 && delivered(replies[0])) ==> ({
            let c: int = if stored_rich_menu_id@.len() > 0 {
                2
            } else {
                0
            };
            &&& stored_rich_menu_id@.len() > 0 ==> menu_gone(replies[0])
            &&& replies.len() >= c + 3
            &&& replies[c] == (LineReply::Delivered { rich_menu_id: Some(published) })
            &&& delivered(replies[c + 1])
            &&& delivered(replies[c + 2])
        }),
{
    if replies.len() == 0 {
        if stored_rich_menu_id@.len() > 0 {
            assert(sync_start(stored_rich_menu_id) is UpdateMenu);
        } else {
            assert(sync_start(stored_rich_menu_id) is CreateMenu);
        }
    } else if stored_rich_menu_id@.len() > 0 {
        if delivered(replies[0]) {
            lemma_finished_stays(stored_rich_menu_id, replies.drop_first());
        } else {
            let r1 = replies.drop_first();
            assert(menu_gone(replies[0]));
            let deleting = LineSyncStep::DeleteOldMenu { rich_menu_id: stored_rich_menu_id };
            assert(sync_run(deleting, r1) == Some((LineSyncStep::Finished { rich_menu_id: published })));
            assert(r1.len() > 0);
            let r = r1.drop_first();
            assert(sync_run(LineSyncStep::CreateMenu, r) == Some(
                (LineSyncStep::Finished { rich_menu_id: published }),
            ));
            lemma_created_run(r, published);
            assert(replies[2] == r[0]);
            assert(replies[3] == r[1]);
            assert(replies[4] == r[2]);
        }
    } else {
        lemma_created_run(replies, published);
    }
}

/// A published menu stays published whatever replies follow.
proof fn lemma_finished_stays(id: String, replies: Seq<LineReply>)
    ensures
        sync_run((LineSyncStep::Finished { rich_menu_id: id }), replies) == Some(
            (LineSyncStep::Finished { rich_menu_id: id }),
        ),
    decreases replies.len(),
{
    if replies.len() > 0 {
        lemma_finished_stays(id, replies.drop_first());
    }
}

/// A publish from the create step that ends published had its create,
/// upload and default calls accepted, the first with the published id.
proof fn lemma_created_run(r: Seq<LineReply>, published: String)
    requires
        sync_run(LineSyncStep::CreateMenu, r) == Some((LineSyncStep::Finished { rich_menu_id: published })),
    ensures
        r.len() >= 3,
        r[0] == (LineReply::Delivered { rich_menu_id: Some(published) }),
        delivered(r[1]),
        delivered(r[2]),
{
    assert(r.len() > 0);
    let id = match r[0] {
        LineReply::Delivered { rich_menu_id: Some(id) } => id,
        _ => {
            assert(false);
            published
        },
    };
    let r1 = r.drop_first();
    assert(sync_run(LineSyncStep::UploadImage { rich_menu_id: id }, r1) == Some(
        LineSyncStep::Finished { rich_menu_id: published },
    ));
    assert(r1.len() > 0);
    assert(delivered(r1[0]));
    let r2 = r1.drop_first();
    assert(sync_run(LineSyncStep::SetDefault { rich_menu_id: id }, r2) == Some(
        LineSyncStep::Finished { rich_menu_id: published },
    ));
    assert(r2.len() > 0);
    assert(delivered(r2[0]));
    let r3 = r2.drop_first();
    lemma_finished_stays(id, r3);
    assert(id == published);
}

/// Building on from a text within the limit, a text that is not cut short
/// stays within the limit.
proof fn lemma_full_sync_from_fits(
    tasks: Seq<SyncTaskItem>,
    labels: Seq<Seq<char>>,
    same: bool,
    i: nat,
    text: Seq<char>,
    current: Seq<char>,
)
    requires
        byte_len(text) <= LINE_RICHMENU_MAX_ACTION_TEXT,
    ensures
        !sync_from(tasks, labels, same, i, text, current).1 ==> byte_len(
            sync_from(tasks, labels, same, i, text, current).0,
        ) <= LINE_RICHMENU_MAX_ACTION_TEXT,
    decreases tasks.len() - i,
{
    if i < tasks.len() {
        let date = tasks[i as int].task_date@;
        let needs_date_line = !same && date != current;
        let date_line = labels[i as int] + "\n"@;
        if !(needs_date_line && !fits(text, date_line, note_room(tasks.len()))) {
            let text1 = if needs_date_line {
                text + date_line
            } else {
                text
            };
            let current1 = if needs_date_line {
                date
            } else {
                current
            };
            if needs_date_line {
                crate::text::lemma_byte_len_concat(text, date_line);
            }
            let line = task_line(i, tasks[i as int].title@);
            let reserve: nat = if i + 1 == tasks.len() {
                0
            } else {
                note_room(tasks.len())
            };
            if fits(text1, line, reserve) {
                crate::text::lemma_byte_len_concat(text1, line);
                lemma_full_sync_from_fits(tasks, labels, same, i + 1, text1 + line, current1);
            }
        }
    }
}

/// Building on from a text that leaves room for the note (while tasks
/// remain), the result stays within the limit, and a result cut short is a
/// text that left room for the note followed by the note.
proof fn lemma_sync_from_within_limit(
    tasks: Seq<SyncTaskItem>,
    labels: Seq<Seq<char>>,
    same: bool,
    i: nat,
    text: Seq<char>,
    current: Seq<char>,
)
    requires
        byte_len(text) <= LINE_RICHMENU_MAX_ACTION_TEXT,
        i < tasks.len() ==> byte_len(text) + note_room(tasks.len()) <= LINE_RICHMENU_MAX_ACTION_TEXT,
    ensures
        byte_len(sync_from(tasks, labels, same, i, text, current).0)
            <= LINE_RICHMENU_MAX_ACTION_TEXT,
        sync_from(tasks, labels, same, i, text, current).1 ==> exists|kept: Seq<char>|
            byte_len(kept) + note_room(tasks.len()) <= LINE_RICHMENU_MAX_ACTION_TEXT
                && #[trigger] sync_from(tasks, labels, same, i, text, current).0 == kept
                + overflow_note(tasks.len()),
    decreases tasks.len() - i,
{
    let note = overflow_note(tasks.len());
    if i < tasks.len() {
        let date = tasks[i as int].task_date@;
        let needs_date_line = !same && date != current;
        let date_line = labels[i as int] + "\n"@;
        if needs_date_line && !fits(text, date_line, note_room(tasks.len())) {
            crate::text::lemma_byte_len_concat(text, note);
            assert(sync_from(tasks, labels, same, i, text, current).0 == text + note);
        } else {
            let text1 = if needs_date_line {
                text + date_line
            } else {
                text
            };
            let current1 = if needs_date_line {
                date
            } else {
                current
            };
            if needs_date_line {
                crate::text::lemma_byte_len_concat(text, date_line);
            }
            let line = task_line(i, tasks[i as int].title@);
            let reserve: nat = if i + 1 == tasks.len() {
                0
            } else {
                note_room(tasks.len())
            };
            if !fits(text1, line, reserve) {
                crate::text::lemma_byte_len_concat(text1, note);
                assert(sync_from(tasks, labels, same, i, text, current).0 == text1 + note);
            } else {
                crate::text::lemma_byte_len_concat(text1, line);
                lemma_sync_from_within_limit(tasks, labels, same, i + 1, text1 + line, current1);
            }
        }
    }
}

/// A contact-book text that did not have to be cut short fits the action
/// text limit of 300 bytes.
pub proof fn law_full_sync_text_fits(tasks: Seq<SyncTaskItem>, labels: Seq<Seq<char>>)
    ensures
        !sync_text(tasks, labels).1 ==> byte_len(sync_text(tasks, labels).0)
            <= LINE_RICHMENU_MAX_ACTION_TEXT,
{
    let same = same_date_everywhere(tasks);
    let header = sync_header(tasks, labels);
    if !(tasks.len() > 0 && same) {
        reveal_strlit("=== 聯絡簿 ===\n");
        crate::text::lemma_byte_len_bound(header);
    }
    if byte_len(header) <= LINE_RICHMENU_MAX_ACTION_TEXT {
        lemma_full_sync_from_fits(tasks, labels, same, 0, header, Seq::empty());
    } else {
        let line = task_line(0, tasks[0].title@);
        let reserve: nat = if tasks.len() == 1 {
            0
        } else {
            note_room(tasks.len())
        };
        assert(!fits(header, line, reserve));
    }
}

/// For tasks whose header leaves room for the note, the contact-book text,
/// cut short or not, is at most 300 bytes long.
pub proof fn law_sync_text_within_limit(tasks: Seq<SyncTaskItem>, labels: Seq<Seq<char>>)
    requires
        byte_len(sync_header(tasks, labels)) + note_room(tasks.len()) <= LINE_RICHMENU_MAX_ACTION_TEXT,
    ensures
        byte_len(sync_text(tasks, labels).0) <= LINE_RICHMENU_MAX_ACTION_TEXT,
{
    lemma_sync_from_within_limit(
        tasks,
        labels,
        same_date_everywhere(tasks),
        0,
        sync_header(tasks, labels),
        Seq::empty(),
    );
}

/// A contact-book text that had to be cut short, for tasks whose header
/// leaves room for the note, is a text that left room for the note
/// followed by the note "…等共 N 項" with the number of all tasks.
pub proof fn law_cut_sync_text_ends_with_note(tasks: Seq<SyncTaskItem>, labels: Seq<Seq<char>>)
    requires
        byte_len(sync_header(tasks, labels)) + note_room(tasks.len()) <= LINE_RICHMENU_MAX_ACTION_TEXT,
    ensures
        sync_text(tasks, labels).1 ==> exists|kept: Seq<char>|
            byte_len(kept) + note_room(tasks.len()) <= LINE_RICHMENU_MAX_ACTION_TEXT
                && #[trigger] sync_text(tasks, labels).0 == kept + overflow_note(tasks.len()),
{
    lemma_sync_from_within_limit(
        tasks,
        labels,
        same_date_everywhere(tasks),
        0,
        sync_header(tasks, labels),
        Seq::empty(),
    );
}

} // verus!
