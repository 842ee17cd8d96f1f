//! Classrooms and their student rosters: display names, seat numbers,
//! masking of LINE credentials and the checks that the classroom and roster
//! requests go through.
use vstd::prelude::*;
use crate::api::{api_failure, refused_with, ApiFailure, ApiStatus};
use crate::tasks::from_db_bool;
use crate::text::{
    byte_len, capped_byte_len, chars_contain, contains_pattern, decimal, i64_to_decimal,
    lemma_byte_len_take_step, lemma_byte_len_take_strict, signed_decimal, to_chars, trim,
    trim_str, u64_to_decimal, utf8_width,
};

verus! {

broadcast use vstd::string::group_string_axioms;

/// The name given to the classroom that a fresh database is seeded with.
pub const DEFAULT_CLASSROOM_NAME: &'static str = "預設班級";

/// How many students the seeded classroom gets.
pub const DEFAULT_ROSTER_SIZE: u64 = 30;

/// A classroom with its LINE official account settings.
#[derive(Debug)]
pub struct ClassroomSummary {
    pub id: i64,
    pub name: String,
    pub line_enabled: bool,
    pub line_channel_access_token: String,
    pub line_channel_secret: String,
    pub line_rich_menu_id: String,
}

/// A student of the current classroom, as the teacher's pages list it.
#[derive(Debug)]
pub struct ClassroomStudent {
    pub id: i64,
    pub classroom_id: i64,
    pub seat_no_text: String,
    pub nickname: String,
    pub display_name: String,
    pub occupied: bool,
    pub points: i64,
    pub group_no: i64,
}

/// Whether one student has handed in a tracked task.
#[derive(Debug)]
pub struct TaskSubmissionStatus {
    pub student_id: i64,
    pub classroom_id: i64,
    pub seat_no_text: String,
    pub nickname: String,
    pub display_name: String,
    pub submitted: bool,
}

/// One row of a roster save request.
#[derive(Debug)]
pub struct SaveClassMemberItem {
    pub id: Option<i64>,
    pub seat_no_text: String,
    pub nickname: String,
}

/// A roster row after its seat number was trimmed.
#[derive(Debug)]
pub struct NormalizedMember {
    pub id: Option<i64>,
    pub seat_no_text: String,
    pub nickname: String,
}

/// What a classroom update writes: the trimmed name and the LINE settings
/// that are to be overwritten.
#[derive(Debug)]
pub struct ClassroomUpdatePlan {
    pub name: String,
    pub line_enabled: Option<i64>,
    pub line_channel_access_token: Option<String>,
    pub line_channel_secret: Option<String>,
}

/// The student rows that a roster save deletes, in the order of the
/// existing ids.
#[derive(Debug)]
pub struct MemberSyncPlan {
    pub delete_ids: Vec<i64>,
}

/// "Seat number followed by nickname": the seat alone when the nickname is
/// blank, otherwise the seat and the trimmed nickname with no separator.
pub open spec fn display_name(seat: Seq<char>, nickname: Seq<char>) -> Seq<char> {
    if trim(nickname).len() == 0 {
        seat
    } else {
        seat + trim(nickname)
    }
}

/// The four stars that stand for hidden characters.
pub open spec fn mask_marker() -> Seq<char> {
    seq!['*', '*', '*', '*']
}

/// Whether the first `n` bytes of `s` end between two characters.
pub open spec fn is_byte_boundary(s: Seq<char>, n: nat) -> bool {
    exists|k: int| 0 <= k <= s.len() && #[trigger] byte_len(s.take(k)) == n
}

/// The number of characters that the first `n` bytes of `s` hold.
pub open spec fn boundary_index(s: Seq<char>, n: nat) -> int {
    choose|k: int| 0 <= k <= s.len() && #[trigger] byte_len(s.take(k)) == n
}

/// How a credential is shown: values longer than eight bytes keep their
/// first four bytes, other non-empty values are all stars, the empty value
/// stays empty.
pub open spec fn masked(v: Seq<char>) -> Seq<char> {
    if byte_len(v) > 8 {
        v.take(boundary_index(v, 4)) + mask_marker()
    } else if v.len() > 0 {
        mask_marker()
    } else {
        v
    }
}

/// Whether a credential text is a masked value sent back unchanged.
pub open spec fn looks_masked(v: Seq<char>) -> bool {
    contains_pattern(v, mask_marker())
}

/// A credential sent with a classroom update is written only when it is
/// non-empty and not a masked value.
pub open spec fn credential_update(sent: Option<Seq<char>>) -> Option<Seq<char>> {
    match sent {
        Some(v) => if v.len() > 0 && !looks_masked(v) {
            Some(v)
        } else {
            None
        },
        None => None,
    }
}

/// Two-digit seat numbers, as `{:02}` writes them.
pub open spec fn two_digit(n: nat) -> Seq<char> {
    if n < 10 {
        seq!['0'] + decimal(n)
    } else {
        decimal(n)
    }
}

/// The view of an optional text.
pub open spec fn opt_view(o: Option<String>) -> Option<Seq<char>> {
    match o {
        Some(s) => Some(s@),
        None => None,
    }
}

/// The trimmed seat numbers of a roster save request.
pub open spec fn member_seats(rows: Seq<SaveClassMemberItem>) -> Seq<Seq<char>> {
    rows.map_values(|r: SaveClassMemberItem| trim(r.seat_no_text@))
}

/// Row `k` is refused: its seat is blank or repeats an earlier seat.
pub open spec fn member_problem_at(seats: Seq<Seq<char>>, k: int) -> bool {
    seats[k].len() == 0 || seats.take(k).contains(seats[k])
}

/// The ids that a roster save keeps.
pub open spec fn kept_ids(members: Seq<NormalizedMember>) -> Set<i64> {
    Set::new(|id: i64| exists|k: int| 0 <= k < members.len() && members[k].id == Some(id))
}

/// The display name of a student.
pub fn seat_nickname_display(seat_no_text: &str, nickname: &str) -> (r: String)
    ensures
        r@ == display_name(seat_no_text@, nickname@),
{
    let trimmed = trim_str(nickname);
    if trimmed.is_empty() {
        String::from_str(seat_no_text)
    } else {
        let mut out = String::from_str(seat_no_text);
        out.append(trimmed);
        out
    }
}

/// A seat number as it is stored: trimmed.
pub fn normalize_seat_no_text(raw: &str) -> (r: String)
    ensures
        r@ == trim(raw@),
{
    String::from_str(trim_str(raw))
}

/// The trimmed seat number of a student update; a blank one is refused.
pub fn require_seat_no_text(raw: &str) -> (r: Result<String, ApiFailure>)
    ensures
        trim(raw@).len() == 0 ==> refused_with(r, ApiStatus::BadRequest, "座號不可為空"@),
        trim(raw@).len() > 0 ==> (r matches Ok(s) && s@ == trim(raw@)),
{
    let seat = normalize_seat_no_text(raw);
    if seat.as_str().is_empty() {
        return Err(api_failure(ApiStatus::BadRequest, "座號不可為空"));
    }
    Ok(seat)
}

/// Masks a LINE credential for display.
pub fn mask_sensitive(value: &str) -> (r: String)
    requires
        byte_len(value@) > 8 ==> is_byte_boundary(value@, 4),
    ensures
        r@ == masked(value@),
{
    proof {
        reveal_strlit("****");
        assert("****"@ =~= mask_marker());
    }
    let chars = to_chars(value);
    if capped_byte_len(&chars, 8) > 8 {
        let mut k: usize = 0;
        let mut total: usize = 0;
        assert(chars@.take(0) =~= Seq::<char>::empty());
        assert(vstd::utf8::encode_utf8(Seq::<char>::empty()) =~= Seq::<u8>::empty());
        while total < 4
            invariant
                chars@ == value@,
                byte_len(value@) > 8,
                k <= chars@.len(),
                total == byte_len(chars@.take(k as int)),
                k == 0 || byte_len(chars@.take(k - 1)) < 4,
            decreases chars@.len() - k,
        {
            if k >= chars.len() {
                proof {
                    assert(chars@.take(k as int) =~= chars@);
                }
                assert(false);
            }
            proof {
                lemma_byte_len_take_step(chars@, k as int);
            }
            let w = utf8_width(chars[k]);
            total = total + w;
            k = k + 1;
        }
        proof {
            let k0 = choose|j: int| 0 <= j <= value@.len() && #[trigger] byte_len(value@.take(j)) == 4;
            if k0 < k {
                if k0 < k - 1 {
                    lemma_byte_len_take_strict(value@, k0, k - 1);
                }
            } else if k0 > k {
                lemma_byte_len_take_strict(value@, k as int, k0);
            }
            assert(k0 == k);
            assert(boundary_index(value@, 4) == k0);
        }
        let head = value.substring_char(0, k);
        let mut out = String::from_str(head);
        out.append("****");
        out
    } else if !value.is_empty() {
        String::from_str("****")
    } else {
        String::from_str(value)
    }
}

/// Whether a credential text carries the mask marker `****`.
pub fn is_masked(value: &str) -> (r: bool)
    ensures
        r == looks_masked(value@),
{
    let chars = to_chars(value);
    let marker: Vec<char> = vec!['*', '*', '*', '*'];
    proof {
        assert(marker@ =~= mask_marker());
    }
    chars_contain(&chars, &marker)
}

/// The credential to write for a value sent with a classroom update.
pub fn credential_to_store(sent: Option<String>) -> (r: Option<String>)
    ensures
        opt_view(r) == credential_update(opt_view(sent)),
{
    match sent {
        Some(v) => {
            if !v.as_str().is_empty() && !is_masked(v.as_str()) {
                Some(v)
            } else {
                None
            }
        },
        None => None,
    }
}

/// The writes of a classroom update: the trimmed name, the LINE switch
/// when one was sent, and each credential that `credential_update` keeps.
pub fn plan_classroom_update(
    name: &str,
    line_enabled: Option<bool>,
    line_channel_access_token: Option<String>,
    line_channel_secret: Option<String>,
) -> (r: Result<ClassroomUpdatePlan, ApiFailure>)
    ensures
        trim(name@).len() == 0 ==> refused_with(r, ApiStatus::BadRequest, "班級名稱不可為空"@),
        trim(name@).len() > 0 ==> (r matches Ok(p) && p.name@ == trim(name@) && p.line_enabled
            == (match line_enabled {
            Some(b) => Some(if b {
                1i64
            } else {
                0i64
            }),
            None => None,
        }) && opt_view(p.line_channel_access_token) == credential_update(
            opt_view(line_channel_access_token),
        ) && opt_view(p.line_channel_secret) == credential_update(opt_view(line_channel_secret))),
{
    let class_name = trim_str(name);
    if class_name.is_empty() {
        return Err(api_failure(ApiStatus::BadRequest, "班級名稱不可為空"));
    }
    let enabled = match line_enabled {
        Some(b) => Some(if b {
            1i64
        } else {
            0i64
        }),
        None => None,
    };
    Ok(
        ClassroomUpdatePlan {
            name: String::from_str(class_name),
            line_enabled: enabled,
            line_channel_access_token: credential_to_store(line_channel_access_token),
            line_channel_secret: credential_to_store(line_channel_secret),
        },
    )
}

/// A masked credential sent back unchanged never overwrites the stored one.
pub proof fn law_masked_credential_is_not_stored(v: Seq<char>)
    requires
        byte_len(v) > 8 ==> is_byte_boundary(v, 4),
    ensures
        credential_update(Some(masked(v))) is None,
{
    if v.len() > 0 {
        let m = masked(v);
        let at: int = if byte_len(v) > 8 {
            boundary_index(v, 4)
        } else {
            0
        };
        if byte_len(v) > 8 {
            assert(0 <= at <= v.len());
            assert(m.subrange(at, at + mask_marker().len()) =~= mask_marker());
        } else {
            assert(m.subrange(0int, 0int + mask_marker().len()) =~= mask_marker());
        }
        assert(looks_masked(m));
    }
}

/// The name of a new classroom: the requested one, or "新班級" followed by
/// one more than the number of classrooms; trimmed, and refused when blank.
pub fn resolve_new_classroom_name(requested: Option<String>, classroom_count: i64) -> (r: Result<
    String,
    ApiFailure,
>)
    requires
        classroom_count < i64::MAX,
    ensures
        ({
            let chosen = match requested {
                Some(n) => n@,
                None => "新班級"@ + signed_decimal(classroom_count + 1),
            };
            &&& trim(chosen).len() == 0 ==> refused_with(r, ApiStatus::BadRequest, "班級名稱不可為空"@)
            &&& trim(chosen).len() > 0 ==> (r matches Ok(s) && s@ == trim(chosen))
        }),
{
    let mut suggested = String::from_str("新班級");
    let number = i64_to_decimal(classroom_count + 1);
    suggested.append(number.as_str());
    let chosen = match requested {
        Some(n) => n,
        None => suggested,
    };
    let class_name = trim_str(chosen.as_str());
    if class_name.is_empty() {
        return Err(api_failure(ApiStatus::BadRequest, "班級名稱不可為空"));
    }
    Ok(String::from_str(class_name))
}

/// Refuses to delete the only classroom, or one that does not exist.
pub fn check_classroom_deletion(classroom_count: i64, classroom_exists: bool) -> (r: Result<
    (),
    ApiFailure,
>)
    ensures
        classroom_count <= 1 ==> refused_with(r, ApiStatus::BadRequest, "無法刪除唯一的班級"@),
        classroom_count > 1 && !classroom_exists ==> refused_with(
            r,
            ApiStatus::NotFound,
            "指定班級不存在"@,
        ),
        classroom_count > 1 && classroom_exists ==> r is Ok,
{
    if classroom_count <= 1 {
        return Err(api_failure(ApiStatus::BadRequest, "無法刪除唯一的班級"));
    }
    if !classroom_exists {
        return Err(api_failure(ApiStatus::NotFound, "指定班級不存在"));
    }
    Ok(())
}

/// The current classroom after `deleted_id` was deleted: `next_id` if the
/// deleted one was current, otherwise unchanged.
pub fn classroom_after_deletion(current_id: i64, deleted_id: i64, next_id: i64) -> (r: i64)
    ensures
        r == (if current_id == deleted_id {
            next_id
        } else {
            current_id
        }),
{
    if current_id == deleted_id {
        next_id
    } else {
        current_id
    }
}

/// Refuses a negative group number.
pub fn validate_group_no(group_no: i64) -> (r: Result<i64, String>)
    ensures
        group_no < 0 ==> (r matches Err(m) && m@ == "組別不可小於 0"@),
        group_no >= 0 ==> r == Ok::<i64, String>(group_no),
{
    if group_no < 0 {
        return Err(String::from_str("組別不可小於 0"));
    }
    Ok(group_no)
}

impl ClassroomSummary {
    /// Builds a classroom from the columns of a classroom row.
    pub fn from_row(
        id: i64,
        name: String,
        line_enabled: i64,
        line_channel_access_token: String,
        line_channel_secret: String,
        line_rich_menu_id: String,
    ) -> (c: ClassroomSummary)
        ensures
            c.id == id,
            c.name == name,
            c.line_enabled == (line_enabled != 0),
            c.line_channel_access_token == line_channel_access_token,
            c.line_channel_secret == line_channel_secret,
            c.line_rich_menu_id == line_rich_menu_id,
    {
        ClassroomSummary {
            id,
            name,
            line_enabled: line_enabled != 0,
            line_channel_access_token,
            line_channel_secret,
            line_rich_menu_id,
        }
    }
}

/// The position of the first classroom with `id`, refused with "找不到目前班級"
/// when there is none.
pub fn find_current_classroom(classrooms: &Vec<ClassroomSummary>, id: i64) -> (r: Result<
    usize,
    String,
>)
    ensures
        match r {
            Ok(k) => k < classrooms@.len() && classrooms@[k as int].id == id && forall|j: int|
                0 <= j < k ==> classrooms@[j].id != id,
            Err(m) => m@ == "找不到目前班級"@ && forall|j: int|
                0 <= j < classrooms@.len() ==> classrooms@[j].id != id,
        },
{
    let mut k: usize = 0;
    while k < classrooms.len()
        invariant
            k <= classrooms@.len(),
            forall|j: int| 0 <= j < k ==> classrooms@[j].id != id,
        decreases classrooms@.len() - k,
    {
        if classrooms[k].id == id {
            return Ok(k);
        }
        k = k + 1;
    }
    Err(String::from_str("找不到目前班級"))
}

/// Whether `seat` is among `seats`.
pub fn seat_listed(seats: &Vec<String>, seat: &str) -> (r: bool)
    ensures
        r == exists|k: int| 0 <= k < seats@.len() && seats@[k]@ == seat@,
{
    let target = String::from_str(seat);
    let mut k: usize = 0;
    while k < seats.len()
        invariant
            k <= seats@.len(),
            target@ == seat@,
            forall|j: int| 0 <= j < k ==> seats@[j]@ != seat@,
        decreases seats@.len() - k,
    {
        if seats[k] == target {
            return true;
        }
        k = k + 1;
    }
    false
}

impl ClassroomStudent {
    /// Builds a roster entry from a student row; it is occupied when its
    /// seat is among the seats of connected students.
    pub fn from_row(
        id: i64,
        classroom_id: i64,
        seat_no_text: String,
        nickname: String,
        points: i64,
        group_no: i64,
        occupied_seats: &Vec<String>,
    ) -> (s: ClassroomStudent)
        ensures
            s.id == id,
            s.classroom_id == classroom_id,
            s.seat_no_text == seat_no_text,
            s.nickname == nickname,
            s.display_name@ == display_name(seat_no_text@, nickname@),
            s.occupied == exists|k: int|
                0 <= k < occupied_seats@.len() && occupied_seats@[k]@ == seat_no_text@,
            s.points == points,
            s.group_no == group_no,
    {
        let display = seat_nickname_display(seat_no_text.as_str(), nickname.as_str());
        let occupied = seat_listed(occupied_seats, seat_no_text.as_str());
        ClassroomStudent {
            id,
            classroom_id,
            seat_no_text,
            nickname,
            display_name: display,
            occupied,
            points,
            group_no,
        }
    }
}

impl TaskSubmissionStatus {
    /// Builds a submission state from a student row joined with its
    /// submission flag.
    pub fn from_row(
        student_id: i64,
        classroom_id: i64,
        seat_no_text: String,
        nickname: String,
        submitted: i64,
    ) -> (s: TaskSubmissionStatus)
        ensures
            s.student_id == student_id,
            s.classroom_id == classroom_id,
            s.seat_no_text == seat_no_text,
            s.nickname == nickname,
            s.display_name@ == display_name(seat_no_text@, nickname@),
            s.submitted == (submitted != 0),
    {
        let display = seat_nickname_display(seat_no_text.as_str(), nickname.as_str());
        TaskSubmissionStatus {
            student_id,
            classroom_id,
            seat_no_text,
            nickname,
            display_name: display,
            submitted: from_db_bool(submitted),
        }
    }
}

/// A seat number written with at least two digits.
pub fn two_digit_seat(n: u64) -> (r: String)
    ensures
        r@ == two_digit(n as nat),
{
    if n < 10 {
        let mut out = String::from_str("0");
        proof {
            reveal_strlit("0");
        }
        let digits = u64_to_decimal(n);
        out.append(digits.as_str());
        out
    } else {
        u64_to_decimal(n)
    }
}

/// The seats of the classroom a fresh database is seeded with: `01` to `30`.
pub fn default_roster_seats() -> (seats: Vec<String>)
    ensures
        seats@.len() == DEFAULT_ROSTER_SIZE,
        forall|k: int| 0 <= k < seats@.len() ==> #[trigger] seats@[k]@ == two_digit((k + 1) as nat),
{
    let mut seats: Vec<String> = Vec::new();
    let mut seat: u64 = 1;
    while seat <= DEFAULT_ROSTER_SIZE
        invariant
            1 <= seat <= DEFAULT_ROSTER_SIZE + 1,
            seats@.len() == seat - 1,
            forall|k: int| 0 <= k < seats@.len() ==> #[trigger] seats@[k]@ == two_digit((k + 1) as nat),
        decreases DEFAULT_ROSTER_SIZE + 1 - seat,
    {
        seats.push(two_digit_seat(seat));
        seat = seat + 1;
    }
    seats
}

/// Whether `seat` is among the first `k` trimmed seats.
fn seat_seen(seen: &Vec<String>, seat: &str) -> (r: bool)
    ensures
        r == seen@.map_values(|s: String| s@).contains(seat@),
{
    let r = seat_listed(seen, seat);
    proof {
        let v = seen@.map_values(|s: String| s@);
        if r {
            let k = choose|k: int| 0 <= k < seen@.len() && seen@[k]@ == seat@;
            assert(v[k] == seat@);
        }
        if v.contains(seat@) {
            let k = choose|k: int| 0 <= k < v.len() && v[k] == seat@;
            assert(seen@[k]@ == seat@);
        }
    }
    r
}

/// Trims the seat numbers of a roster save request. The first row that has
/// a blank seat, or one that an earlier row already has, refuses the whole
/// request: a blank seat with "座號不可為空", a repeated one with "座號不可重複".
pub fn normalize_class_members(rows: &Vec<SaveClassMemberItem>) -> (r: Result<
    Vec<NormalizedMember>,
    ApiFailure,
>)
    ensures
        match r {
            Ok(v) => (forall|k: int| 0 <= k < rows@.len() ==> !member_problem_at(member_seats(rows@), k))
                && v@.len() == rows@.len() && forall|k: int|
                0 <= k < v@.len() ==> {
                    &&& (#[trigger] v@[k]).id == rows@[k].id
                    &&& v@[k].seat_no_text@ == trim(rows@[k].seat_no_text@)
                    &&& v@[k].nickname@ == rows@[k].nickname@
                },
            Err(e) => exists|k: int|
                0 <= k < rows@.len() && member_problem_at(member_seats(rows@), k) && (forall|j: int|
                    0 <= j < k ==> !member_problem_at(member_seats(rows@), j)) && e.status == (if trim(
                    rows@[k].seat_no_text@,
                ).len() == 0 {
                    ApiStatus::BadRequest
                } else {
                    ApiStatus::Conflict
                }) && e.message@ == (if trim(rows@[k].seat_no_text@).len() == 0 {
                    "座號不可為空"@
                } else {
                    "座號不可重複"@
                }),
        },
{
    let ghost seats = member_seats(rows@);
    let mut normalized: Vec<NormalizedMember> = Vec::new();
    let mut seen: Vec<String> = Vec::new();
    let n = rows.len();
    let mut k: usize = 0;
    while k < n
        invariant
            seats == member_seats(rows@),
            n == rows@.len(),
            k <= n,
            seen@.map_values(|s: String| s@) == seats.take(k as int),
            normalized@.len() == k,
            forall|j: int| 0 <= j < k ==> !member_problem_at(seats, j),
            forall|j: int|
                0 <= j < k ==> {
                    &&& (#[trigger] normalized@[j]).id == rows@[j].id
                    &&& normalized@[j].seat_no_text@ == trim(rows@[j].seat_no_text@)
                    &&& normalized@[j].nickname@ == rows@[j].nickname@
                },
        decreases n - k,
    {
        let row = &rows[k];
        proof {
            assert(seats[k as int] == trim(row.seat_no_text@));
        }
        let seat = normalize_seat_no_text(row.seat_no_text.as_str());
        if seat.as_str().is_empty() {
            proof {
                assert(member_problem_at(seats, k as int));
            }
            return Err(api_failure(ApiStatus::BadRequest, "座號不可為空"));
        }
        if seat_seen(&seen, seat.as_str()) {
            proof {
                assert(member_problem_at(seats, k as int));
            }
            return Err(api_failure(ApiStatus::Conflict, "座號不可重複"));
        }
        let kept = String::from_str(seat.as_str());
        seen.push(kept);
        proof {
            assert(seats.take(k + 1) =~= seats.take(k as int).push(seats[k as int]));
            assert(seen@.map_values(|s: String| s@) =~= seats.take(k + 1));
        }
        normalized.push(
            NormalizedMember { id: row.id, seat_no_text: seat, nickname: row.nickname.clone() },
        );
        k = k + 1;
    }
    Ok(normalized)
}

/// Whether `id` is among `ids`.
pub fn id_listed(ids: &Vec<i64>, id: i64) -> (r: bool)
    ensures
        r == ids@.contains(id),
{
    let mut k: usize = 0;
    while k < ids.len()
        invariant
            k <= ids@.len(),
            forall|j: int| 0 <= j < k ==> ids@[j] != id,
        decreases ids@.len() - k,
    {
        if ids[k] == id {
            proof {
                assert(ids@[k as int] == id);
            }
            return true;
        }
        k = k + 1;
    }
    false
}

/// Whether some row of `members` keeps the student `id`.
pub fn member_keeps(members: &Vec<NormalizedMember>, id: i64) -> (r: bool)
    ensures
        r == kept_ids(members@).contains(id),
{
    let mut k: usize = 0;
    while k < members.len()
        invariant
            k <= members@.len(),
            forall|j: int| 0 <= j < k ==> members@[j].id != Some(id),
        decreases members@.len() - k,
    {
        match members[k].id {
            Some(x) => {
                if x == id {
                    return true;
                }
            },
            None => {},
        }
        k = k + 1;
    }
    false
}

/// Plans the deletions of a roster save. Every id that the request keeps
/// must belong to a student of the classroom, else the save is refused with
/// "指定學生不存在"; the existing students that the request does not keep are
/// deleted.
pub fn plan_member_sync(existing_ids: &Vec<i64>, members: &Vec<NormalizedMember>) -> (r: Result<
    MemberSyncPlan,
    ApiFailure,
>)
    ensures
        match r {
            Ok(p) => (forall|id: i64| kept_ids(members@).contains(id) ==> existing_ids@.contains(id))
                && (forall|id: i64|
                p.delete_ids@.contains(id) <==> (existing_ids@.contains(id) && !kept_ids(
                    members@,
                ).contains(id))) && p.delete_ids@.len() <= existing_ids@.len(),
            Err(e) => e.status == ApiStatus::NotFound && e.message@ == "指定學生不存在"@ && exists|
                id: i64,
            | kept_ids(members@).contains(id) && !existing_ids@.contains(id),
        },
{
    let mut k: usize = 0;
    while k < members.len()
        invariant
            k <= members@.len(),
            forall|j: int|
                0 <= j < k ==> match #[trigger] members@[j].id {
                    Some(id) => existing_ids@.contains(id),
                    None => true,
                },
        decreases members@.len() - k,
    {
        match members[k].id {
            Some(id) => {
                if !id_listed(existing_ids, id) {
                    proof {
                        assert(kept_ids(members@).contains(id));
                    }
                    return Err(api_failure(ApiStatus::NotFound, "指定學生不存在"));
                }
            },
            None => {},
        }
        k = k + 1;
    }
    let mut delete_ids: Vec<i64> = Vec::new();
    let mut e: usize = 0;
    while e < existing_ids.len()
        invariant
            e <= existing_ids@.len(),
            delete_ids@.len() <= e,
            forall|id: i64|
                delete_ids@.contains(id) <==> (existing_ids@.take(e as int).contains(id)
                    && !kept_ids(members@).contains(id)),
        decreases existing_ids@.len() - e,
    {
        let id = existing_ids[e];
        let ghost before = delete_ids@;
        let ghost prior = existing_ids@.take(e as int);
        proof {
            assert(existing_ids@.take(e + 1) =~= prior.push(id));
        }
        let keeps = member_keeps(members, id);
        if !keeps {
            delete_ids.push(id);
        }
        proof {
            assert forall|x: i64| delete_ids@.contains(x) <==> (existing_ids@.take(e + 1).contains(x)
                && !kept_ids(members@).contains(x)) by {
                vstd::seq_lib::lemma_seq_contains_after_push(prior, id, x);
                vstd::seq_lib::lemma_seq_contains_after_push(before, id, x);
            }
        }
        e = e + 1;
    }
    proof {
        assert(existing_ids@.take(e as int) =~= existing_ids@);
        assert forall|id: i64| kept_ids(members@).contains(id) implies existing_ids@.contains(id) by {
            let j = choose|j: int| 0 <= j < members@.len() && members@[j].id == Some(id);
            assert(members@[j].id == Some(id));
        }
    }
    Ok(MemberSyncPlan { delete_ids })
}

/// The refusal of a student row that could not be written: a seat
/// conflict when the database reports a `UNIQUE` violation, an internal
/// error with the database's message otherwise.
pub fn student_write_failure(error: &str) -> (r: ApiFailure)
    ensures
        contains_pattern(error@, "UNIQUE"@) ==> r.status == ApiStatus::Conflict && r.message@
            == "座號不可重複"@,
        !contains_pattern(error@, "UNIQUE"@) ==> r.status == ApiStatus::InternalServerError
            && r.message@ == "儲存學生資料失敗: "@ + error@,
{
    let chars = to_chars(error);
    let marker: Vec<char> = vec!['U', 'N', 'I', 'Q', 'U', 'E'];
    proof {
        reveal_strlit("UNIQUE");
        assert(marker@ =~= "UNIQUE"@);
    }
    if chars_contain(&chars, &marker) {
        return api_failure(ApiStatus::Conflict, "座號不可重複");
    }
    let mut message = String::from_str("儲存學生資料失敗: ");
    message.append(error);
    ApiFailure { status: ApiStatus::InternalServerError, message }
}

/// A roster that passes the seat checks has non-empty seats, no two alike.
pub proof fn law_accepted_roster_has_distinct_seats(seats: Seq<Seq<char>>)
    requires
        forall|k: int| 0 <= k < seats.len() ==> !member_problem_at(seats, k),
    ensures
        forall|k: int| 0 <= k < seats.len() ==> (#[trigger] seats[k]).len() > 0,
        forall|i: int, j: int| 0 <= i < j < seats.len() ==> #[trigger] seats[i] != #[trigger] seats[j],
{
    assert forall|k: int| 0 <= k < seats.len() implies (#[trigger] seats[k]).len() > 0 by {
        assert(!member_problem_at(seats, k));
    }
    assert forall|i: int, j: int| 0 <= i < j < seats.len() implies #[trigger] seats[i]
        != #[trigger] seats[j] by {
        assert(!member_problem_at(seats, j));
        assert(seats.take(j)[i] == seats[i]);
    }
}

} // verus!
