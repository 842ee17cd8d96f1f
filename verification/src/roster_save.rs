//! The writes of a roster save. A classroom's seat numbers are unique, so
//! the rows that stay are first moved to temporary seats that no row can
//! hold; only then do they take their new seats, which lets two students
//! swap seats in one save.
use vstd::prelude::*;
use crate::api::{api_failure, ApiFailure, ApiStatus};
use crate::roster::{kept_ids, member_keeps, member_problem_at, member_seats, NormalizedMember, SaveClassMemberItem};
use crate::text::{is_white_space, lemma_trim_head, to_chars, trim};

verus! {

broadcast use vstd::string::group_string_axioms;

/// A student row of a classroom as the database holds it.
#[derive(Debug)]
pub struct StudentRow {
    pub id: i64,
    pub seat_no_text: String,
    pub nickname: String,
}

/// A write to the student rows of a classroom.
#[derive(Debug)]
pub enum RosterWrite {
    /// Delete the student `id`.
    Delete { id: i64 },
    /// Give the student `id` this seat and nickname (no effect when there
    /// is no such student).
    Update { id: i64, seat_no_text: String, nickname: String },
    /// Add a student with this seat and nickname.
    Insert { seat_no_text: String, nickname: String },
}

/// The student rows of a classroom: seat and nickname of each student by
/// id, and the students added by inserts, in order.
pub struct RosterTable {
    pub rows: Map<i64, (Seq<char>, Seq<char>)>,
    pub added: Seq<(Seq<char>, Seq<char>)>,
}

/// No two students of the table share a seat.
pub open spec fn table_seats_unique(t: RosterTable) -> bool {
    &&& forall|a: i64, b: i64|
        t.rows.dom().contains(a) && t.rows.dom().contains(b) && a != b ==> #[trigger] t.rows[a].0
            != #[trigger] t.rows[b].0
    &&& forall|a: i64, k: int|
        t.rows.dom().contains(a) && 0 <= k < t.added.len() ==> #[trigger] t.rows[a].0
            != #[trigger] t.added[k].0
    &&& forall|k1: int, k2: int|
        0 <= k1 < t.added.len() && 0 <= k2 < t.added.len() && k1 != k2 ==> #[trigger] t.added[k1].0
            != #[trigger] t.added[k2].0
}

/// The table after one write.
pub open spec fn apply_write(t: RosterTable, w: RosterWrite) -> RosterTable {
    match w {
        RosterWrite::Delete { id } => RosterTable { rows: t.rows.remove(id), added: t.added },
        RosterWrite::Update { id, seat_no_text, nickname } => if t.rows.dom().contains(id) {
            RosterTable { rows: t.rows.insert(id, (seat_no_text@, nickname@)), added: t.added }
        } else {
            t
        },
        RosterWrite::Insert { seat_no_text, nickname } => RosterTable {
            rows: t.rows,
            added: t.added.push((seat_no_text@, nickname@)),
        },
    }
}

/// The table after the writes `ws`, one after the other; `None` when one of
/// them would give two students the same seat, which the database refuses.
pub open spec fn apply_writes(t: RosterTable, ws: Seq<RosterWrite>) -> Option<RosterTable>
    decreases ws.len(),
{
    if ws.len() == 0 {
        Some(t)
    } else {
        match apply_writes(t, ws.drop_last()) {
            Some(t1) => {
                let t2 = apply_write(t1, ws.last());
                if table_seats_unique(t2) {
                    Some(t2)
                } else {
                    None
                }
            },
            None => None,
        }
    }
}

/// Whether some row of `existing` is the student `id`.
pub open spec fn has_row(existing: Seq<StudentRow>, id: i64) -> bool {
    exists|k: int| 0 <= k < existing.len() && #[trigger] existing[k].id == id
}

/// The position of the row of student `id`.
pub open spec fn row_index(existing: Seq<StudentRow>, id: i64) -> int {
    choose|k: int| 0 <= k < existing.len() && #[trigger] existing[k].id == id
}

/// The table that the rows `existing` form.
pub open spec fn table_of(existing: Seq<StudentRow>) -> RosterTable {
    RosterTable {
        rows: Map::new(
            |id: i64| has_row(existing, id),
            |id: i64|
                (
                    existing[row_index(existing, id)].seat_no_text@,
                    existing[row_index(existing, id)].nickname@,
                ),
        ),
        added: Seq::empty(),
    }
}

/// Rows with distinct ids and distinct seats, as the database holds them.
pub open spec fn rows_valid(existing: Seq<StudentRow>) -> bool {
    forall|i: int, j: int|
        0 <= i < existing.len() && 0 <= j < existing.len() && i != j ==> #[trigger] existing[i].id
            != #[trigger] existing[j].id && existing[i].seat_no_text@ != existing[j].seat_no_text@
}

/// Rows of a save request as `normalize_class_members` leaves them: each
/// seat non-empty and not starting with white space, and no two seats
/// alike. A student may be named by more than one row.
pub open spec fn members_valid(members: Seq<NormalizedMember>) -> bool {
    &&& forall|k: int|
        0 <= k < members.len() ==> (#[trigger] members[k]).seat_no_text@.len() > 0
            && !is_white_space(members[k].seat_no_text@[0])
    &&& forall|i: int, j: int|
        0 <= i < members.len() && 0 <= j < members.len() && i != j ==> (#[trigger] members[i]).seat_no_text@
            != (#[trigger] members[j]).seat_no_text@
}

/// The position of the last request row before position `m` that names
/// student `id`, if any.
pub open spec fn latest_row(members: Seq<NormalizedMember>, id: i64, m: int) -> Option<int>
    decreases m,
{
    if m <= 0 {
        None
    } else if members[m - 1].id == Some(id) {
        Some(m - 1)
    } else {
        latest_row(members, id, m - 1)
    }
}

/// The seat and nickname that the last request row naming `id` gives it.
pub open spec fn requested_row(members: Seq<NormalizedMember>, id: i64) -> (Seq<char>, Seq<char>) {
    let k = latest_row(members, id, members.len() as int)->0;
    (members[k].seat_no_text@, members[k].nickname@)
}

/// The students that the request adds, in order.
pub open spec fn new_rows(members: Seq<NormalizedMember>) -> Seq<(Seq<char>, Seq<char>)>
    decreases members.len(),
{
    if members.len() == 0 {
        Seq::empty()
    } else {
        let rest = new_rows(members.drop_last());
        if members.last().id is None {
            rest.push((members.last().seat_no_text@, members.last().nickname@))
        } else {
            rest
        }
    }
}

/// The classroom after a save of `members`: exactly the students the
/// request keeps, each with the seat and nickname of the last row that
/// names it, and a new student for each row without an id.
pub open spec fn saved_table(members: Seq<NormalizedMember>) -> RosterTable {
    RosterTable {
        rows: Map::new(|id: i64| kept_ids(members).contains(id), |id: i64| requested_row(members, id)),
        added: new_rows(members),
    }
}

/// A seat of `n` spaces.
pub open spec fn blank_seat(n: nat) -> Seq<char> {
    Seq::new(n, |i: int| ' ')
}

/// `row` is the seat and nickname of a request row without an id.
pub open spec fn added_from(members: Seq<NormalizedMember>, row: (Seq<char>, Seq<char>)) -> bool {
    exists|k: int|
        0 <= k < members.len() && members[k].id is None && row == (
            members[k].seat_no_text@,
            members[k].nickname@,
        )
}

/// Each added student comes from a request row without an id.
proof fn lemma_new_rows_origin(members: Seq<NormalizedMember>)
    ensures
        forall|i: int|
            0 <= i < new_rows(members).len() ==> added_from(members, #[trigger] new_rows(members)[i]),
    decreases members.len(),
{
    if members.len() > 0 {
        let d = members.drop_last();
        lemma_new_rows_origin(d);
        let rest = new_rows(d);
        let w = new_rows(members);
        assert forall|i: int| 0 <= i < w.len() implies added_from(members, #[trigger] w[i]) by {
            if i < rest.len() {
                assert(w[i] == rest[i]);
                assert(added_from(d, rest[i]));
                let k = choose|k: int|
                    0 <= k < d.len() && d[k].id is None && rest[i] == (
                        d[k].seat_no_text@,
                        d[k].nickname@,
                    );
                assert(members[k] == d[k]);
            } else {
                let n = members.len() - 1;
                assert(members.last().id is None);
                assert(members[n] == members.last());
                assert(w[i] == (members[n].seat_no_text@, members[n].nickname@));
            }
        }
    }
}

/// The rows after the drops of the rows before position `e`.
pub open spec fn after_drops(existing: Seq<StudentRow>, members: Seq<NormalizedMember>, e: int) -> Map<
    i64,
    (Seq<char>, Seq<char>),
> {
    Map::new(
        |id: i64|
            has_row(existing, id) && (kept_ids(members).contains(id) || row_index(existing, id) >= e),
        |id: i64| table_of(existing).rows[id],
    )
}

/// The kept rows after those before position `e` moved to their
/// temporary seats of `base` plus position spaces.
pub open spec fn after_parking(
    existing: Seq<StudentRow>,
    members: Seq<NormalizedMember>,
    base: nat,
    e: int,
) -> Map<i64, (Seq<char>, Seq<char>)> {
    Map::new(
        |id: i64| has_row(existing, id) && kept_ids(members).contains(id),
        |id: i64|
            if row_index(existing, id) < e {
                (
                    blank_seat((base + row_index(existing, id)) as nat),
                    table_of(existing).rows[id].1,
                )
            } else {
                table_of(existing).rows[id]
            },
    )
}

/// The kept rows after the request rows before position `m` took effect.
pub open spec fn after_moves(
    existing: Seq<StudentRow>,
    members: Seq<NormalizedMember>,
    base: nat,
    m: int,
) -> Map<i64, (Seq<char>, Seq<char>)> {
    Map::new(
        |id: i64| has_row(existing, id) && kept_ids(members).contains(id),
        |id: i64|
            if latest_row(members, id, m) is Some {
                (
                    members[latest_row(members, id, m)->0].seat_no_text@,
                    members[latest_row(members, id, m)->0].nickname@,
                )
            } else {
                (
                    blank_seat((base + row_index(existing, id)) as nat),
                    table_of(existing).rows[id].1,
                )
            },
    )
}

/// Where the row of an id is.
proof fn lemma_positions(existing: Seq<StudentRow>, members: Seq<NormalizedMember>)
    ensures
        forall|id: i64|
            #[trigger] has_row(existing, id) ==> 0 <= row_index(existing, id) < existing.len()
                && existing[row_index(existing, id)].id == id,
        rows_valid(existing) ==> forall|k: int|
            0 <= k < existing.len() ==> has_row(existing, #[trigger] existing[k].id)
                && row_index(existing, existing[k].id) == k,
{
    assert forall|id: i64| #[trigger] has_row(existing, id) implies 0 <= row_index(existing, id)
        < existing.len() && existing[row_index(existing, id)].id == id by {
        let k = choose|k: int| 0 <= k < existing.len() && #[trigger] existing[k].id == id;
        assert(existing[k].id == id);
    }
    if rows_valid(existing) {
        assert forall|k: int| 0 <= k < existing.len() implies has_row(
            existing,
            #[trigger] existing[k].id,
        ) && row_index(existing, existing[k].id) == k by {
            assert(existing[k].id == existing[k].id);
            let r = row_index(existing, existing[k].id);
            if r != k {
                assert(existing[r].id != existing[k].id);
            }
        }
    }
}

/// The last request row before `m` naming `id` names it, and no row after
/// it (before `m`) does.
proof fn lemma_latest_row(members: Seq<NormalizedMember>, id: i64, m: int)
    requires
        0 <= m <= members.len(),
    ensures
        latest_row(members, id, m) matches Some(k) ==> 0 <= k < m && members[k].id == Some(id)
            && forall|j: int| k < j < m ==> (#[trigger] members[j]).id != Some(id),
        latest_row(members, id, m) is None ==> forall|j: int|
            0 <= j < m ==> (#[trigger] members[j]).id != Some(id),
    decreases m,
{
    if m > 0 {
        lemma_latest_row(members, id, m - 1);
    }
}

/// Every student the request keeps is named by some row of it.
proof fn lemma_kept_has_latest(members: Seq<NormalizedMember>, id: i64)
    requires
        kept_ids(members).contains(id),
    ensures
        latest_row(members, id, members.len() as int) is Some,
{
    let k = choose|k: int| 0 <= k < members.len() && members[k].id == Some(id);
    lemma_latest_row(members, id, members.len() as int);
    assert(members[k].id == Some(id));
}

/// The rows of a valid classroom have distinct seats, and distinct ids
/// sit at distinct positions.
proof fn lemma_table_unique(existing: Seq<StudentRow>, members: Seq<NormalizedMember>)
    requires
        rows_valid(existing),
    ensures
        table_seats_unique(table_of(existing)),
        forall|a: i64, b: i64|
            has_row(existing, a) && has_row(existing, b) && a != b ==> #[trigger] row_index(
                existing,
                a,
            ) != #[trigger] row_index(existing, b),
{
    lemma_positions(existing, members);
    let t = table_of(existing);
    assert forall|a: i64, b: i64|
        t.rows.dom().contains(a) && t.rows.dom().contains(b) && a != b implies #[trigger] t.rows[a].0
        != #[trigger] t.rows[b].0 by {
        assert(has_row(existing, a));
        assert(has_row(existing, b));
        let ra = row_index(existing, a);
        let rb = row_index(existing, b);
        assert(ra != rb);
    }
}

proof fn lemma_start(existing: Seq<StudentRow>, members: Seq<NormalizedMember>)
    ensures
        after_drops(existing, members, 0) == table_of(existing).rows,
        apply_writes(table_of(existing), Seq::empty()) == Some(
            (RosterTable { rows: after_drops(existing, members, 0), added: Seq::empty() }),
        ),
{
    lemma_positions(existing, members);
    assert(after_drops(existing, members, 0) =~= table_of(existing).rows);
}

proof fn lemma_drop_step(existing: Seq<StudentRow>, members: Seq<NormalizedMember>, e: int)
    requires
        rows_valid(existing),
        0 <= e < existing.len(),
        !kept_ids(members).contains(existing[e].id),
    ensures
        ({
            let t2 = apply_write(
                RosterTable { rows: after_drops(existing, members, e), added: Seq::empty() },
                RosterWrite::Delete { id: existing[e].id },
            );
            &&& t2 == (RosterTable { rows: after_drops(existing, members, e + 1), added: Seq::empty() })
            &&& table_seats_unique(t2)
        }),
{
    lemma_positions(existing, members);
    lemma_table_unique(existing, members);
    let id = existing[e].id;
    assert(row_index(existing, id) == e);
    assert(after_drops(existing, members, e).remove(id) =~= after_drops(existing, members, e + 1));
    let t2 = RosterTable { rows: after_drops(existing, members, e + 1), added: Seq::empty() };
    let t0 = table_of(existing);
    assert forall|a: i64, b: i64|
        t2.rows.dom().contains(a) && t2.rows.dom().contains(b) && a != b implies #[trigger] t2.rows[a].0
        != #[trigger] t2.rows[b].0 by {
        assert(t0.rows.dom().contains(a) && t0.rows.dom().contains(b));
        assert(t2.rows[a] == t0.rows[a] && t2.rows[b] == t0.rows[b]);
    }
}

proof fn lemma_keep_step(existing: Seq<StudentRow>, members: Seq<NormalizedMember>, e: int)
    requires
        rows_valid(existing),
        0 <= e < existing.len(),
        kept_ids(members).contains(existing[e].id),
    ensures
        after_drops(existing, members, e) == after_drops(existing, members, e + 1),
{
    lemma_positions(existing, members);
    assert(row_index(existing, existing[e].id) == e);
    assert(after_drops(existing, members, e) =~= after_drops(existing, members, e + 1));
}

proof fn lemma_parked_start(existing: Seq<StudentRow>, members: Seq<NormalizedMember>)
    requires
        rows_valid(existing),
    ensures
        forall|base: nat|
            after_drops(existing, members, existing.len() as int) == #[trigger] after_parking(
                existing,
                members,
                base,
                0,
            ),
{
    lemma_positions(existing, members);
    assert forall|base: nat|
        after_drops(existing, members, existing.len() as int) == #[trigger] after_parking(
            existing,
            members,
            base,
            0,
        ) by {
        assert(after_drops(existing, members, existing.len() as int) =~= after_parking(
            existing,
            members,
            base,
            0,
        ));
    }
}

/// The seats after parking the rows before `e`, with `base` above every
/// seat's length, are unique.
proof fn lemma_parking_unique(
    existing: Seq<StudentRow>,
    members: Seq<NormalizedMember>,
    longest: nat,
    e: int,
)
    requires
        rows_valid(existing),
        forall|q: int| 0 <= q < existing.len() ==> existing[q].seat_no_text@.len() <= longest,
    ensures
        table_seats_unique(
            RosterTable {
                rows: after_parking(existing, members, longest + 1, e),
                added: Seq::empty(),
            },
        ),
{
    lemma_positions(existing, members);
    lemma_table_unique(existing, members);
    let base = longest + 1;
    let rows = after_parking(existing, members, base, e);
    let t0 = table_of(existing);
    assert forall|a: i64, b: i64|
        rows.dom().contains(a) && rows.dom().contains(b) && a != b implies #[trigger] rows[a].0
        != #[trigger] rows[b].0 by {
        let ra = row_index(existing, a);
        let rb = row_index(existing, b);
        assert(ra != rb);
        assert(t0.rows.dom().contains(a) && t0.rows.dom().contains(b));
        assert(existing[ra].seat_no_text@.len() <= longest);
        assert(existing[rb].seat_no_text@.len() <= longest);
        if ra < e && rb < e {
            assert(rows[a].0.len() == base + ra);
            assert(rows[b].0.len() == base + rb);
        } else if ra < e {
            assert(rows[a].0.len() == base + ra);
            assert(rows[b].0 == t0.rows[b].0);
        } else if rb < e {
            assert(rows[b].0.len() == base + rb);
            assert(rows[a].0 == t0.rows[a].0);
        } else {
            assert(rows[a] == t0.rows[a] && rows[b] == t0.rows[b]);
        }
    }
}

proof fn lemma_park_step(existing: Seq<StudentRow>, members: Seq<NormalizedMember>, longest: nat, e: int)
    requires
        rows_valid(existing),
        0 <= e < existing.len(),
        kept_ids(members).contains(existing[e].id),
        forall|q: int| 0 <= q < existing.len() ==> existing[q].seat_no_text@.len() <= longest,
    ensures
        ({
            let id = existing[e].id;
            let rows = after_parking(existing, members, longest + 1, e);
            let t2 = RosterTable {
                rows: rows.insert(id, (blank_seat((longest + 1 + e) as nat), existing[e].nickname@)),
                added: Seq::empty(),
            };
            &&& rows.dom().contains(id)
            &&& t2 == (RosterTable {
                rows: after_parking(existing, members, longest + 1, e + 1),
                added: Seq::empty(),
            })
            &&& table_seats_unique(t2)
        }),
{
    lemma_positions(existing, members);
    let id = existing[e].id;
    assert(row_index(existing, id) == e);
    let base = longest + 1;
    assert(after_parking(existing, members, base, e).insert(
        id,
        (blank_seat((base + e) as nat), existing[e].nickname@),
    ) =~= after_parking(existing, members, base, e + 1));
    lemma_parking_unique(existing, members, longest, e + 1);
}

proof fn lemma_park_skip(existing: Seq<StudentRow>, members: Seq<NormalizedMember>, base: nat, e: int)
    requires
        rows_valid(existing),
        0 <= e < existing.len(),
        !kept_ids(members).contains(existing[e].id),
    ensures
        after_parking(existing, members, base, e) == after_parking(existing, members, base, e + 1),
{
    lemma_positions(existing, members);
    assert(row_index(existing, existing[e].id) == e);
    assert(after_parking(existing, members, base, e) =~= after_parking(existing, members, base, e + 1));
}

proof fn lemma_moves_start(existing: Seq<StudentRow>, members: Seq<NormalizedMember>, base: nat)
    requires
        rows_valid(existing),
    ensures
        after_parking(existing, members, base, existing.len() as int) == after_moves(
            existing,
            members,
            base,
            0,
        ),
{
    lemma_positions(existing, members);
    assert(after_parking(existing, members, base, existing.len() as int) =~= after_moves(
        existing,
        members,
        base,
        0,
    ));
}

/// The seats after the request rows before `m` took effect are unique.
proof fn lemma_moves_unique(existing: Seq<StudentRow>, members: Seq<NormalizedMember>, base: nat, m: int)
    requires
        rows_valid(existing),
        members_valid(members),
        base >= 1,
        0 <= m <= members.len(),
    ensures
        table_seats_unique(
            RosterTable { rows: after_moves(existing, members, base, m), added: Seq::empty() },
        ),
{
    lemma_positions(existing, members);
    lemma_table_unique(existing, members);
    let rows = after_moves(existing, members, base, m);
    assert forall|a: i64, b: i64|
        rows.dom().contains(a) && rows.dom().contains(b) && a != b implies #[trigger] rows[a].0
        != #[trigger] rows[b].0 by {
        let ra = row_index(existing, a);
        let rb = row_index(existing, b);
        assert(has_row(existing, a) && has_row(existing, b));
        assert(ra != rb);
        lemma_latest_row(members, a, m);
        lemma_latest_row(members, b, m);
        match (latest_row(members, a, m), latest_row(members, b, m)) {
            (Some(ka), Some(kb)) => {
                assert(members[ka].id == Some(a) && members[kb].id == Some(b));
                assert(ka != kb);
                assert(members[ka].seat_no_text@ != members[kb].seat_no_text@);
            },
            (Some(ka), None) => {
                let s = members[ka].seat_no_text@;
                assert(s.len() > 0 && !is_white_space(s[0]));
                assert(rows[b].0 == blank_seat((base + rb) as nat));
                assert(rows[b].0[0] == ' ');
            },
            (None, Some(kb)) => {
                let s = members[kb].seat_no_text@;
                assert(s.len() > 0 && !is_white_space(s[0]));
                assert(rows[a].0 == blank_seat((base + ra) as nat));
                assert(rows[a].0[0] == ' ');
            },
            (None, None) => {
                assert(rows[a].0.len() == base + ra);
                assert(rows[b].0.len() == base + rb);
            },
        }
    }
}

proof fn lemma_move_step(existing: Seq<StudentRow>, members: Seq<NormalizedMember>, base: nat, m: int)
    requires
        rows_valid(existing),
        members_valid(members),
        base >= 1,
        0 <= m < members.len(),
        members[m].id is Some,
        forall|id: i64| kept_ids(members).contains(id) ==> has_row(existing, id),
    ensures
        ({
            let id = members[m].id->0;
            let rows = after_moves(existing, members, base, m);
            let t2 = RosterTable {
                rows: rows.insert(id, (members[m].seat_no_text@, members[m].nickname@)),
                added: Seq::empty(),
            };
            &&& rows.dom().contains(id)
            &&& t2 == (RosterTable {
                rows: after_moves(existing, members, base, m + 1),
                added: Seq::empty(),
            })
            &&& table_seats_unique(t2)
        }),
{
    let id = members[m].id->0;
    assert(kept_ids(members).contains(id));
    assert(latest_row(members, id, m + 1) == Some(m));
    assert forall|b: i64| b != id implies latest_row(members, b, m + 1) == latest_row(members, b, m) by {}
    assert(after_moves(existing, members, base, m).insert(
        id,
        (members[m].seat_no_text@, members[m].nickname@),
    ) =~= after_moves(existing, members, base, m + 1));
    lemma_moves_unique(existing, members, base, m + 1);
}

proof fn lemma_move_skip(existing: Seq<StudentRow>, members: Seq<NormalizedMember>, base: nat, m: int)
    requires
        0 <= m < members.len(),
        members[m].id is None,
    ensures
        after_moves(existing, members, base, m) == after_moves(existing, members, base, m + 1),
{
    assert forall|b: i64| latest_row(members, b, m + 1) == latest_row(members, b, m) by {}
    assert(after_moves(existing, members, base, m) =~= after_moves(existing, members, base, m + 1));
}

proof fn lemma_add_step(existing: Seq<StudentRow>, members: Seq<NormalizedMember>, base: nat, m: int)
    requires
        rows_valid(existing),
        members_valid(members),
        base >= 1,
        0 <= m < members.len(),
        members[m].id is None,
        table_seats_unique(
            RosterTable {
                rows: after_moves(existing, members, base, members.len() as int),
                added: new_rows(members.take(m)),
            },
        ),
    ensures
        ({
            let rows = after_moves(existing, members, base, members.len() as int);
            let t2 = RosterTable {
                rows,
                added: new_rows(members.take(m)).push(
                    (members[m].seat_no_text@, members[m].nickname@),
                ),
            };
            &&& t2 == (RosterTable { rows, added: new_rows(members.take(m + 1)) })
            &&& table_seats_unique(t2)
        }),
{
    lemma_positions(existing, members);
    let taken = members.take(m);
    assert(members.take(m + 1).drop_last() =~= taken);
    assert(members.take(m + 1).last() == members[m]);
    lemma_new_rows_origin(taken);
    let rows = after_moves(existing, members, base, members.len() as int);
    let old_added = new_rows(taken);
    let added = old_added.push((members[m].seat_no_text@, members[m].nickname@));
    let t2 = RosterTable { rows, added };
    let seat = members[m].seat_no_text@;
    let t1 = RosterTable { rows, added: old_added };
    assert(table_seats_unique(t1));
    assert forall|a: i64, b: i64|
        t2.rows.dom().contains(a) && t2.rows.dom().contains(b) && a != b implies #[trigger] t2.rows[a].0
        != #[trigger] t2.rows[b].0 by {
        assert(t1.rows[a].0 != t1.rows[b].0);
    }
    assert forall|a: i64, k: int|
        t2.rows.dom().contains(a) && 0 <= k < t2.added.len() implies #[trigger] t2.rows[a].0
        != #[trigger] t2.added[k].0 by {
        if k < old_added.len() {
            assert(t2.added[k] == old_added[k]);
            assert(t1.rows[a].0 != t1.added[k].0);
        } else {
            assert(has_row(existing, a) && kept_ids(members).contains(a));
            lemma_kept_has_latest(members, a);
            lemma_latest_row(members, a, members.len() as int);
            let ka = latest_row(members, a, members.len() as int)->0;
            assert(members[ka].id == Some(a));
            assert(ka != m);
            assert(rows[a].0 == members[ka].seat_no_text@);
            assert(k == old_added.len());
            assert(t2.added[k] == (members[m].seat_no_text@, members[m].nickname@));
            assert(members[ka].seat_no_text@ != members[m].seat_no_text@);
        }
    }
    assert forall|k1: int, k2: int|
        0 <= k1 < t2.added.len() && 0 <= k2 < t2.added.len() && k1 != k2 implies #[trigger] t2.added[k1].0
        != #[trigger] t2.added[k2].0 by {
        if k1 < old_added.len() && k2 < old_added.len() {
            assert(t2.added[k1] == old_added[k1] && t2.added[k2] == old_added[k2]);
            assert(t1.added[k1].0 != t1.added[k2].0);
        } else if k1 < old_added.len() {
            assert(t2.added[k1] == old_added[k1]);
            assert(t2.added[k2] == (members[m].seat_no_text@, members[m].nickname@));
            assert(added_from(taken, old_added[k1]));
            let j = choose|j: int|
                0 <= j < taken.len() && taken[j].id is None && old_added[k1] == (
                    taken[j].seat_no_text@,
                    taken[j].nickname@,
                );
            assert(taken[j] == members[j]);
            assert(members[j].seat_no_text@ != members[m].seat_no_text@);
        } else {
            assert(t2.added[k2] == old_added[k2]);
            assert(t2.added[k1] == (members[m].seat_no_text@, members[m].nickname@));
            assert(added_from(taken, old_added[k2]));
            let j = choose|j: int|
                0 <= j < taken.len() && taken[j].id is None && old_added[k2] == (
                    taken[j].seat_no_text@,
                    taken[j].nickname@,
                );
            assert(taken[j] == members[j]);
            assert(members[j].seat_no_text@ != members[m].seat_no_text@);
        }
    }
}

/// Applying writes to a table with unique seats gives one with unique seats.
proof fn lemma_apply_unique(t: RosterTable, ws: Seq<RosterWrite>)
    requires
        table_seats_unique(t),
        apply_writes(t, ws) is Some,
    ensures
        table_seats_unique(apply_writes(t, ws)->0),
    decreases ws.len(),
{
    if ws.len() > 0 {
        lemma_apply_unique(t, ws.drop_last());
    }
}

proof fn lemma_saved(existing: Seq<StudentRow>, members: Seq<NormalizedMember>, base: nat)
    requires
        forall|id: i64| kept_ids(members).contains(id) ==> has_row(existing, id),
    ensures
        after_moves(existing, members, base, members.len() as int) == saved_table(members).rows,
{
    assert forall|id: i64| #[trigger] kept_ids(members).contains(id) implies latest_row(
        members,
        id,
        members.len() as int,
    ) is Some by {
        lemma_kept_has_latest(members, id);
    }
    assert(after_moves(existing, members, base, members.len() as int) =~= saved_table(members).rows);
}

/// The rows that `normalize_class_members` accepts are valid for
/// `plan_roster_save`: so a save of them leaves exactly the requested
/// students, each as the last row naming it asks.
pub proof fn law_normalized_rows_are_valid(rows: Seq<SaveClassMemberItem>, members: Seq<NormalizedMember>)
    requires
        forall|k: int| 0 <= k < rows.len() ==> !member_problem_at(member_seats(rows), k),
        members.len() == rows.len(),
        forall|k: int|
            0 <= k < members.len() ==> (#[trigger] members[k]).id == rows[k].id
                && members[k].seat_no_text@ == trim(rows[k].seat_no_text@),
    ensures
        members_valid(members),
{
    let seats = member_seats(rows);
    assert forall|k: int| 0 <= k < members.len() implies (#[trigger] members[k]).seat_no_text@.len() > 0
        && !is_white_space(members[k].seat_no_text@[0]) by {
        assert(!member_problem_at(seats, k));
        assert(seats[k] == trim(rows[k].seat_no_text@));
        lemma_trim_head(rows[k].seat_no_text@);
    }
    assert forall|i: int, j: int|
        0 <= i < members.len() && 0 <= j < members.len() && i != j implies (#[trigger] members[i]).seat_no_text@
        != (#[trigger] members[j]).seat_no_text@ by {
        assert(rows[i] == rows[i] && rows[j] == rows[j]);
        let (lo, hi) = if i < j {
            (i, j)
        } else {
            (j, i)
        };
        assert(!member_problem_at(seats, hi));
        assert(seats.take(hi)[lo] == seats[lo]);
        assert(seats[lo] == trim(rows[lo].seat_no_text@));
        assert(seats[hi] == trim(rows[hi].seat_no_text@));
    }
}

/// A text of `n` spaces.
fn blank_seat_text(n: u128) -> (r: String)
    ensures
        r@ == blank_seat(n as nat),
{
    let mut out = String::new();
    let mut i: u128 = 0;
    while i < n
        invariant
            i <= n,
            out@ == blank_seat(i as nat),
        decreases n - i,
    {
        proof {
            reveal_strlit(" ");
        }
        out.append(" ");
        i = i + 1;
        proof {
            assert(out@ =~= blank_seat(i as nat));
        }
    }
    out
}

/// The writes that save the request rows `members` over the classroom rows
/// `existing`. Every id the request keeps must belong to a row of the
/// classroom, else the save is refused with "指定學生不存在". The writes
/// delete the rows the request drops, move the rows it keeps to temporary
/// seats, give them their new seats and nicknames in the order of the
/// request, and add the rows without an id; on valid rows they leave
/// exactly the requested students, a student named by several rows as the
/// last of them asks, and never give two students the same seat on the way.
pub fn plan_roster_save(existing: &Vec<StudentRow>, members: &Vec<NormalizedMember>) -> (r: Result<
    Vec<RosterWrite>,
    ApiFailure,
>)
    ensures
        match r {
            Ok(ws) => (forall|id: i64| kept_ids(members@).contains(id) ==> has_row(existing@, id))
                && (rows_valid(existing@) && members_valid(members@) ==> apply_writes(
                table_of(existing@),
                ws@,
            ) == Some(saved_table(members@))),
            Err(e) => e.status == ApiStatus::NotFound && e.message@ == "指定學生不存在"@ && exists|
                id: i64,
            | kept_ids(members@).contains(id) && !has_row(existing@, id),
        },
{
    let ghost valid = rows_valid(existing@) && members_valid(members@);
    let ghost t0 = table_of(existing@);
    let ghost kept = kept_ids(members@);
    // Every kept id must be a row of the classroom.
    let mut m: usize = 0;
    while m < members.len()
        invariant
            m <= members@.len(),
            kept == kept_ids(members@),
            forall|j: int|
                0 <= j < m ==> match #[trigger] members@[j].id {
                    Some(id) => has_row(existing@, id),
                    None => true,
                },
        decreases members@.len() - m,
    {
        match members[m].id {
            Some(id) => {
                let mut e: usize = 0;
                let mut found = false;
                while e < existing.len()
                    invariant
                        e <= existing@.len(),
                        found ==> has_row(existing@, id),
                        !found ==> forall|q: int| 0 <= q < e ==> existing@[q].id != id,
                    decreases existing@.len() - e,
                {
                    if existing[e].id == id {
                        proof {
                            assert(existing@[e as int].id == id);
                        }
                        found = true;
                    }
                    e = e + 1;
                }
                if !found {
                    proof {
                        assert(members@[m as int].id == Some(id));
                        assert(kept.contains(id));
                        assert(!has_row(existing@, id));
                    }
                    return Err(api_failure(ApiStatus::NotFound, "指定學生不存在"));
                }
            },
            None => {},
        }
        m = m + 1;
    }
    proof {
        assert forall|id: i64| kept.contains(id) implies has_row(existing@, id) by {
            let j = choose|j: int| 0 <= j < members@.len() && members@[j].id == Some(id);
            assert(members@[j].id == Some(id));
        }
    }
    // The longest seat of the classroom.
    let mut longest: u128 = 0;
    let mut e: usize = 0;
    while e < existing.len()
        invariant
            e <= existing@.len(),
            longest <= usize::MAX,
            forall|q: int| 0 <= q < e ==> existing@[q].seat_no_text@.len() <= longest,
        decreases existing@.len() - e,
    {
        let chars = to_chars(existing[e].seat_no_text.as_str());
        let n = chars.len() as u128;
        if n > longest {
            longest = n;
        }
        e = e + 1;
    }
    let base: u128 = longest + 1;
    let mut writes: Vec<RosterWrite> = Vec::new();
    proof {
        lemma_start(existing@, members@);
    }
    // Drop the rows the request does not keep.
    let mut e: usize = 0;
    while e < existing.len()
        invariant
            e <= existing@.len(),
            t0 == table_of(existing@),
            kept == kept_ids(members@),
            forall|id: i64| kept.contains(id) ==> has_row(existing@, id),
            valid == (rows_valid(existing@) && members_valid(members@)),
            valid ==> apply_writes(t0, writes@) == Some(
                (RosterTable { rows: after_drops(existing@, members@, e as int), added: Seq::empty() }),
            ),
        decreases existing@.len() - e,
    {
        let id = existing[e].id;
        let ghost before = writes@;
        if !member_keeps(members, id) {
            writes.push(RosterWrite::Delete { id });
            proof {
                if valid {
                    lemma_drop_step(existing@, members@, e as int);
                    assert(writes@.drop_last() == before);
                }
            }
        } else {
            proof {
                if valid {
                    lemma_keep_step(existing@, members@, e as int);
                }
            }
        }
        e = e + 1;
    }
    // Move the kept rows to temporary seats longer than every seat.
    proof {
        if valid {
            lemma_parked_start(existing@, members@);
        }
    }
    let mut e: usize = 0;
    while e < existing.len()
        invariant
            e <= existing@.len(),
            base == longest + 1,
            longest <= usize::MAX,
            forall|q: int| 0 <= q < existing@.len() ==> existing@[q].seat_no_text@.len() <= longest,
            t0 == table_of(existing@),
            kept == kept_ids(members@),
            forall|id: i64| kept.contains(id) ==> has_row(existing@, id),
            valid == (rows_valid(existing@) && members_valid(members@)),
            valid ==> apply_writes(t0, writes@) == Some(
                (RosterTable {
                    rows: after_parking(existing@, members@, base as nat, e as int),
                    added: Seq::empty(),
                }),
            ),
        decreases existing@.len() - e,
    {
        let id = existing[e].id;
        let ghost before = writes@;
        if member_keeps(members, id) {
            let seat = blank_seat_text(base + e as u128);
            let nickname = existing[e].nickname.clone();
            writes.push(RosterWrite::Update { id, seat_no_text: seat, nickname });
            proof {
                if valid {
                    lemma_park_step(existing@, members@, longest as nat, e as int);
                    assert(writes@.drop_last() == before);
                }
            }
        } else {
            proof {
                if valid {
                    lemma_park_skip(existing@, members@, base as nat, e as int);
                }
            }
        }
        e = e + 1;
    }
    // Give the kept students their new seats and nicknames.
    proof {
        if valid {
            lemma_moves_start(existing@, members@, base as nat);
        }
    }
    let mut m: usize = 0;
    while m < members.len()
        invariant
            m <= members@.len(),
            base == longest + 1,
            t0 == table_of(existing@),
            kept == kept_ids(members@),
            forall|id: i64| kept.contains(id) ==> has_row(existing@, id),
            valid == (rows_valid(existing@) && members_valid(members@)),
            valid ==> apply_writes(t0, writes@) == Some(
                (RosterTable {
                    rows: after_moves(existing@, members@, base as nat, m as int),
                    added: Seq::empty(),
                }),
            ),
        decreases members@.len() - m,
    {
        let ghost before = writes@;
        match members[m].id {
            Some(id) => {
                let seat = members[m].seat_no_text.clone();
                let nickname = members[m].nickname.clone();
                writes.push(RosterWrite::Update { id, seat_no_text: seat, nickname });
                proof {
                    if valid {
                        lemma_move_step(existing@, members@, base as nat, m as int);
                        assert(writes@.drop_last() == before);
                    }
                }
            },
            None => {
                proof {
                    if valid {
                        lemma_move_skip(existing@, members@, base as nat, m as int);
                    }
                }
            },
        }
        m = m + 1;
    }
    // Add the students without an id.
    let mut m: usize = 0;
    while m < members.len()
        invariant
            m <= members@.len(),
            base == longest + 1,
            t0 == table_of(existing@),
            kept == kept_ids(members@),
            forall|id: i64| kept.contains(id) ==> has_row(existing@, id),
            valid == (rows_valid(existing@) && members_valid(members@)),
            valid ==> apply_writes(t0, writes@) == Some(
                (RosterTable {
                    rows: after_moves(existing@, members@, base as nat, members@.len() as int),
                    added: new_rows(members@.take(m as int)),
                }),
            ),
        decreases members@.len() - m,
    {
        let ghost before = writes@;
        match members[m].id {
            Some(_) => {
                proof {
                    assert(members@.take(m + 1).drop_last() =~= members@.take(m as int));
                }
            },
            None => {
                let seat = members[m].seat_no_text.clone();
                let nickname = members[m].nickname.clone();
                writes.push(RosterWrite::Insert { seat_no_text: seat, nickname });
                proof {
                    assert(members@.take(m + 1).drop_last() =~= members@.take(m as int));
                    if valid {
                        lemma_table_unique(existing@, members@);
                        lemma_apply_unique(t0, before);
                        lemma_add_step(existing@, members@, base as nat, m as int);
                        assert(writes@.drop_last() == before);
                    }
                }
            },
        }
        m = m + 1;
    }
    proof {
        assert(members@.take(members@.len() as int) =~= members@);
        if valid {
            lemma_saved(existing@, members@, base as nat);
        }
    }
    Ok(writes)
}

} // verus!
