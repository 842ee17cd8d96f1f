//! Contact-book tasks: input validation, the task list query and the
//! completion state derived from submissions.
use vstd::prelude::*;
use crate::api::{api_failure, refused_with, ApiFailure, ApiStatus};
use crate::text::{is_ascii_digit, to_chars, trim, trim_str};

verus! {

broadcast use vstd::string::group_string_axioms;

/// Which tab of the contact-book page lists the tasks.
#[derive(Clone, Copy, Debug, PartialEq, Eq, Structural)]
pub enum TaskTab {
    ContactBook,
    Submission,
}

/// Which completion state the listed tasks must have.
#[derive(Clone, Copy, Debug, PartialEq, Eq, Structural)]
pub enum TaskCompletionFilter {
    All,
    Unfinished,
    Completed,
}

/// The filters of a task list request.
pub struct ListTasksQuery {
    pub date: Option<String>,
    pub tab: Option<TaskTab>,
    pub completion: Option<TaskCompletionFilter>,
    pub show_all_unfinished: Option<bool>,
}

/// A value bound to a `?` placeholder of a query.
pub enum SqlBind {
    Integer(i64),
    Text(String),
}

/// The view of a bound value.
pub enum SqlBindView {
    Integer(i64),
    Text(Seq<char>),
}

impl View for SqlBind {
    type V = SqlBindView;

    open spec fn view(&self) -> SqlBindView {
        match self {
            SqlBind::Integer(v) => SqlBindView::Integer(*v),
            SqlBind::Text(t) => SqlBindView::Text(t@),
        }
    }
}

/// A query text with the values of its placeholders, in order.
pub struct SqlQuery {
    pub sql: String,
    pub binds: Vec<SqlBind>,
}

/// A task of the contact book, with its submission counts.
#[derive(Debug)]
pub struct ContactBookTask {
    pub id: i64,
    pub classroom_id: i64,
    pub task_date: String,
    pub title: String,
    pub show_in_contact_book: bool,
    pub requires_tracking: bool,
    pub is_completed: bool,
    pub student_count: i64,
    pub submitted_count: i64,
}

/// A task request whose title and date passed validation.
#[derive(Debug)]
pub struct ValidTaskInput {
    pub title: String,
    pub task_date: String,
}

/// The start of every task list query.
pub const TASK_LIST_BASE_SQL: &'static str = "SELECT t.id,
                t.classroom_id,
                t.task_date,
                t.title,
                t.show_in_contact_book,
                t.requires_tracking,
                t.is_completed,
                (SELECT COUNT(1)
                   FROM students s
                  WHERE s.classroom_id = t.classroom_id) AS student_count,
                (SELECT COUNT(1)
                   FROM task_submissions ts
                   JOIN students s ON s.id = ts.student_id
                  WHERE ts.task_id = t.id
                    AND ts.submitted = 1
                    AND s.classroom_id = t.classroom_id) AS submitted_count
           FROM tasks t
          WHERE t.classroom_id = ?";

/// A `YYYY-MM-DD` shaped text: ten characters, digits around two dashes.
pub open spec fn is_iso_date_shape(t: Seq<char>) -> bool {
    &&& t.len() == 10
    &&& t[4] == '-'
    &&& t[7] == '-'
    &&& forall|k: int| 0 <= k < 10 && k != 4 && k != 7 ==> is_ascii_digit(#[trigger] t[k])
}

/// The date a task list request filters on, if it gives a well-formed one.
pub open spec fn requested_date(q: ListTasksQuery) -> Option<Seq<char>> {
    match q.date {
        Some(d) => if is_iso_date_shape(trim(d@)) {
            Some(trim(d@))
        } else {
            None
        },
        None => None,
    }
}

/// The filter of the tab: tracked tasks, or tasks shown in the contact book.
pub open spec fn tab_clause(tab: Option<TaskTab>) -> Seq<char> {
    match tab {
        Some(TaskTab::Submission) => " AND t.requires_tracking = 1"@,
        _ => " AND t.show_in_contact_book = 1"@,
    }
}

/// The filter of the completion state, none for all tasks.
pub open spec fn completion_clause(c: Option<TaskCompletionFilter>) -> Seq<char> {
    match c {
        Some(TaskCompletionFilter::Unfinished) => " AND t.is_completed = 0"@,
        Some(TaskCompletionFilter::Completed) => " AND t.is_completed = 1"@,
        _ => Seq::empty(),
    }
}

/// The request asks for every unfinished task, whatever its date.
pub open spec fn shows_all_unfinished(q: ListTasksQuery) -> bool {
    q.show_all_unfinished == Some(true)
}

/// The text of the task list query for `q`.
pub open spec fn task_list_sql(q: ListTasksQuery) -> Seq<char> {
    let filters = if shows_all_unfinished(q) {
        " AND t.is_completed = 0"@
    } else {
        (if requested_date(q) is Some {
            " AND t.task_date = ?"@
        } else {
            Seq::empty()
        }) + completion_clause(q.completion)
    };
    TASK_LIST_BASE_SQL@ + tab_clause(q.tab) + filters + " ORDER BY t.task_date ASC, t.id ASC"@
}

/// The values bound to the task list query for `q`.
pub open spec fn task_list_binds(classroom_id: i64, q: ListTasksQuery) -> Seq<SqlBindView> {
    if !shows_all_unfinished(q) && requested_date(q) is Some {
        seq![SqlBindView::Integer(classroom_id), SqlBindView::Text(requested_date(q)->0)]
    } else {
        seq![SqlBindView::Integer(classroom_id)]
    }
}

/// Whether a task counts as completed: the class has students and every one
/// of them has submitted.
pub open spec fn completion_from_counts(student_count: int, submitted_count: int) -> bool {
    student_count > 0 && submitted_count == student_count
}

/// How the tables store a flag: 1 for set, 0 for clear.
pub open spec fn stored_flag(value: bool) -> i64 {
    if value {
        1
    } else {
        0
    }
}

/// How a stored flag reads: any non-zero value is set.
pub open spec fn read_flag(value: i64) -> bool {
    value != 0
}

/// A flag reads back as it was stored.
pub proof fn law_flag_round_trip(value: bool)
    ensures
        read_flag(stored_flag(value)) == value,
{
}

/// Encodes a flag the way the task and student tables store it.
pub fn to_db_bool(value: bool) -> (encoded: i64)
    ensures
        encoded == stored_flag(value),
{
    if value {
        1
    } else {
        0
    }
}

/// Decodes a stored flag: any non-zero value is set.
pub fn from_db_bool(value: i64) -> (flag: bool)
    ensures
        flag == read_flag(value),
{
    value != 0
}

/// The trimmed date when it has the `YYYY-MM-DD` shape, otherwise `None`.
pub fn normalize_task_date(raw: &str) -> (r: Option<String>)
    ensures
        match r {
            Some(d) => is_iso_date_shape(trim(raw@)) && d@ == trim(raw@),
            None => !is_iso_date_shape(trim(raw@)),
        },
{
    let trimmed = trim_str(raw);
    let chars = to_chars(trimmed);
    if chars.len() != 10 {
        return None;
    }
    if chars[4] != '-' || chars[7] != '-' {
        return None;
    }
    let mut k: usize = 0;
    while k < 10
        invariant
            chars@ == trim(raw@),
            chars@.len() == 10,
            k <= 10,
            forall|q: int| 0 <= q < k && q != 4 && q != 7 ==> is_ascii_digit(#[trigger] chars@[q]),
        decreases 10 - k,
    {
        if k != 4 && k != 7 {
            let c = chars[k];
            if !('0' <= c && c <= '9') {
                return None;
            }
        }
        k = k + 1;
    }
    Some(String::from_str(trimmed))
}

/// Refuses a task that is neither shown in the contact book nor tracked.
pub fn validate_task_flags(show_in_contact_book: bool, requires_tracking: bool) -> (r: Result<(), String>)
    ensures
        r is Err <==> (!show_in_contact_book && !requires_tracking),
        r matches Err(m) ==> m@ == "至少要勾選顯示在聯絡簿或需控管其中一項"@,
{
    if !show_in_contact_book && !requires_tracking {
        return Err(String::from_str("至少要勾選顯示在聯絡簿或需控管其中一項"));
    }
    Ok(())
}

/// Checks a task create or update request: a non-empty title, a
/// `YYYY-MM-DD` date and at least one of the two flags, in this order.
pub fn validate_task_request(
    title: &str,
    task_date: &str,
    show_in_contact_book: bool,
    requires_tracking: bool,
) -> (r: Result<ValidTaskInput, ApiFailure>)
    ensures
        trim(title@).len() == 0 ==> refused_with(r, ApiStatus::BadRequest, "任務名稱不可為空"@),
        trim(title@).len() > 0 && !is_iso_date_shape(trim(task_date@)) ==> refused_with(
            r,
            ApiStatus::BadRequest,
            "日期格式必須為 YYYY-MM-DD"@,
        ),
        trim(title@).len() > 0 && is_iso_date_shape(trim(task_date@)) && !show_in_contact_book
            && !requires_tracking ==> refused_with(
            r,
            ApiStatus::BadRequest,
            "至少要勾選顯示在聯絡簿或需控管其中一項"@,
        ),
        trim(title@).len() > 0 && is_iso_date_shape(trim(task_date@)) && (show_in_contact_book
            || requires_tracking) ==> (r matches Ok(v) && v.title@ == trim(title@) && v.task_date@
            == trim(task_date@)),
{
    let trimmed_title = trim_str(title);
    if trimmed_title.is_empty() {
        return Err(api_failure(ApiStatus::BadRequest, "任務名稱不可為空"));
    }
    let date = match normalize_task_date(task_date) {
        Some(d) => d,
        None => {
            return Err(api_failure(ApiStatus::BadRequest, "日期格式必須為 YYYY-MM-DD"));
        },
    };
    match validate_task_flags(show_in_contact_book, requires_tracking) {
        Ok(()) => {},
        Err(m) => {
            return Err(ApiFailure { status: ApiStatus::BadRequest, message: m });
        },
    }
    Ok(ValidTaskInput { title: String::from_str(trimmed_title), task_date: date })
}

impl ContactBookTask {
    /// Builds a task from the columns of a task row; the three flags are
    /// stored as integers.
    pub fn from_row(
        id: i64,
        classroom_id: i64,
        task_date: String,
        title: String,
        show_in_contact_book: i64,
        requires_tracking: i64,
        is_completed: i64,
        student_count: i64,
        submitted_count: i64,
    ) -> (t: ContactBookTask)
        ensures
            t.id == id,
            t.classroom_id == classroom_id,
            t.task_date == task_date,
            t.title == title,
            t.show_in_contact_book == (show_in_contact_book != 0),
            t.requires_tracking == (requires_tracking != 0),
            t.is_completed == (is_completed != 0),
            t.student_count == student_count,
            t.submitted_count == submitted_count,
    {
        ContactBookTask {
            id,
            classroom_id,
            task_date,
            title,
            show_in_contact_book: from_db_bool(show_in_contact_book),
            requires_tracking: from_db_bool(requires_tracking),
            is_completed: from_db_bool(is_completed),
            student_count,
            submitted_count,
        }
    }
}

/// Refuses submission work on a task that is not tracked.
pub fn ensure_tracking_enabled(task: &ContactBookTask) -> (r: Result<(), ApiFailure>)
    ensures
        r is Ok <==> task.requires_tracking,
        !task.requires_tracking ==> refused_with(r, ApiStatus::BadRequest, "此任務未啟用繳交控管"@),
{
    if !task.requires_tracking {
        return Err(api_failure(ApiStatus::BadRequest, "此任務未啟用繳交控管"));
    }
    Ok(())
}

/// The query that lists the tasks of `classroom_id` that `query` asks for,
/// ordered by date and id.
pub fn build_task_list_query(classroom_id: i64, query: &ListTasksQuery) -> (q: SqlQuery)
    ensures
        q.sql@ == task_list_sql(*query),
        q.binds@.map_values(|b: SqlBind| b@) == task_list_binds(classroom_id, *query),
{
    let mut sql = String::from_str(TASK_LIST_BASE_SQL);
    let mut binds: Vec<SqlBind> = Vec::new();
    binds.push(SqlBind::Integer(classroom_id));
    match query.tab {
        Some(TaskTab::Submission) => sql.append(" AND t.requires_tracking = 1"),
        _ => sql.append(" AND t.show_in_contact_book = 1"),
    }
    let ghost prefix = sql@;
    let all_unfinished = match query.show_all_unfinished {
        Some(v) => v,
        None => false,
    };
    if all_unfinished {
        sql.append(" AND t.is_completed = 0");
    } else {
        let date = match &query.date {
            Some(raw) => normalize_task_date(raw.as_str()),
            None => None,
        };
        match date {
            Some(d) => {
                sql.append(" AND t.task_date = ?");
                binds.push(SqlBind::Text(d));
            },
            None => {},
        }
        let ghost mid = sql@;
        match query.completion {
            Some(TaskCompletionFilter::Unfinished) => sql.append(" AND t.is_completed = 0"),
            Some(TaskCompletionFilter::Completed) => sql.append(" AND t.is_completed = 1"),
            _ => {},
        }
        proof {
            assert(sql@ =~= mid + completion_clause(query.completion));
        }
    }
    let ghost before_order = sql@;
    sql.append(" ORDER BY t.task_date ASC, t.id ASC");
    proof {
        assert(sql@ =~= task_list_sql(*query));
        assert(binds@.map_values(|b: SqlBind| b@) =~= task_list_binds(classroom_id, *query));
    }
    SqlQuery { sql, binds }
}

/// A task counts as completed only once every student of a non-empty class
/// has submitted: with fewer submissions it is not, with all of them it is.
pub proof fn law_completion_needs_every_student(student_count: int, submitted_count: int)
    ensures
        0 <= submitted_count < student_count ==> !completion_from_counts(student_count, submitted_count),
        completion_from_counts(student_count, submitted_count) ==> student_count > 0
            && submitted_count == student_count,
        student_count > 0 ==> completion_from_counts(student_count, student_count),
        student_count <= 0 ==> !completion_from_counts(student_count, submitted_count),
{
}

/// The request `q` with its completion filter replaced by `c`.
pub open spec fn with_completion(q: ListTasksQuery, c: Option<TaskCompletionFilter>) -> ListTasksQuery {
    ListTasksQuery {
        date: q.date,
        tab: q.tab,
        completion: c,
        show_all_unfinished: q.show_all_unfinished,
    }
}

/// The completion filter `All` lists finished and unfinished tasks alike:
/// its query and values are those of a request without a completion
/// filter. `Unfinished` and `Completed` add exactly the condition
/// ` AND t.is_completed = 0` / ` = 1` before the ordering of that query,
/// unless the request asks for every unfinished task anyway.
pub proof fn law_all_tasks_filter_adds_nothing(classroom_id: i64, q: ListTasksQuery)
    ensures
        task_list_sql(with_completion(q, Some(TaskCompletionFilter::All))) == task_list_sql(
            with_completion(q, None),
        ),
        task_list_binds(classroom_id, with_completion(q, Some(TaskCompletionFilter::All)))
            == task_list_binds(classroom_id, with_completion(q, None)),
        !shows_all_unfinished(q) ==> ({
            let order = " ORDER BY t.task_date ASC, t.id ASC"@;
            let plain = task_list_sql(with_completion(q, None));
            let head = plain.subrange(0, plain.len() - order.len());
            &&& plain == head + order
            &&& task_list_sql(with_completion(q, Some(TaskCompletionFilter::Unfinished))) == head
                + " AND t.is_completed = 0"@ + order
            &&& task_list_sql(with_completion(q, Some(TaskCompletionFilter::Completed))) == head
                + " AND t.is_completed = 1"@ + order
        }),
{
    let order = " ORDER BY t.task_date ASC, t.id ASC"@;
    let qn = with_completion(q, None);
    assert(requested_date(qn) == requested_date(q));
    assert(requested_date(with_completion(q, Some(TaskCompletionFilter::All))) == requested_date(q));
    assert(requested_date(with_completion(q, Some(TaskCompletionFilter::Unfinished))) == requested_date(q));
    assert(requested_date(with_completion(q, Some(TaskCompletionFilter::Completed))) == requested_date(q));
    let date_part = if requested_date(q) is Some {
        " AND t.task_date = ?"@
    } else {
        Seq::empty()
    };
    let x = TASK_LIST_BASE_SQL@ + tab_clause(q.tab) + (date_part + Seq::<char>::empty());
    if !shows_all_unfinished(q) {
        let plain = task_list_sql(qn);
        assert(plain == x + order);
        assert(plain.subrange(0, plain.len() - order.len()) =~= x);
        assert(task_list_sql(with_completion(q, Some(TaskCompletionFilter::Unfinished))) =~= x
            + " AND t.is_completed = 0"@ + order);
        assert(task_list_sql(with_completion(q, Some(TaskCompletionFilter::Completed))) =~= x
            + " AND t.is_completed = 1"@ + order);
    }
}

/// Whether a task is completed after a submission change: the class has
/// students and all of them have submitted.
pub fn task_completed_from_counts(student_count: i64, submitted_count: i64) -> (done: bool)
    ensures
        done == completion_from_counts(student_count as int, submitted_count as int),
{
    student_count > 0 && submitted_count == student_count
}

} // verus!
