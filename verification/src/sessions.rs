//! The students connected to the classroom server, keyed by connection id:
//! who holds which seat, joining, leaving, forced logout and the refresh
//! that follows a roster change.
use vstd::prelude::*;
use crate::roster::{display_name, seat_nickname_display};

verus! {

broadcast use vstd::string::group_string_axioms;

/// A connected student.
#[derive(Debug)]
pub struct StudentSession {
    pub connection_id: String,
    pub student_id: i64,
    pub classroom_id: i64,
    pub seat_no_text: String,
    pub nickname: String,
    pub connected: bool,
    pub focus_status: String,
    pub focus_updated_at: u64,
}

/// The view of a connected student.
pub struct SessionView {
    pub connection_id: Seq<char>,
    pub student_id: i64,
    pub classroom_id: i64,
    pub seat_no_text: Seq<char>,
    pub nickname: Seq<char>,
    pub connected: bool,
    pub focus_status: Seq<char>,
    pub focus_updated_at: u64,
}

impl View for StudentSession {
    type V = SessionView;

    open spec fn view(&self) -> SessionView {
        SessionView {
            connection_id: self.connection_id@,
            student_id: self.student_id,
            classroom_id: self.classroom_id,
            seat_no_text: self.seat_no_text@,
            nickname: self.nickname@,
            connected: self.connected,
            focus_status: self.focus_status@,
            focus_updated_at: self.focus_updated_at,
        }
    }
}

impl Clone for StudentSession {
    fn clone(&self) -> (r: Self)
        ensures
            r == *self,
    {
        StudentSession {
            connection_id: self.connection_id.clone(),
            student_id: self.student_id,
            classroom_id: self.classroom_id,
            seat_no_text: self.seat_no_text.clone(),
            nickname: self.nickname.clone(),
            connected: self.connected,
            focus_status: self.focus_status.clone(),
            focus_updated_at: self.focus_updated_at,
        }
    }
}

/// A student row of a classroom after its roster was saved.
#[derive(Debug)]
pub struct ActiveStudent {
    pub id: i64,
    pub seat_no_text: String,
    pub nickname: String,
}

/// The connected students, one entry per connection id.
pub struct SessionRoster {
    sessions: Vec<StudentSession>,
}

impl View for SessionRoster {
    type V = Seq<SessionView>;

    closed spec fn view(&self) -> Seq<SessionView> {
        self.sessions@.map_values(|s: StudentSession| s@)
    }
}

/// No two entries share a connection id.
pub open spec fn unique_connections(v: Seq<SessionView>) -> bool {
    forall|i: int, j: int|
        0 <= i < v.len() && 0 <= j < v.len() && i != j ==> #[trigger] v[i].connection_id
            != #[trigger] v[j].connection_id
}

/// No two entries of one classroom hold the same seat.
pub open spec fn unique_seats(v: Seq<SessionView>) -> bool {
    forall|i: int, j: int|
        0 <= i < v.len() && 0 <= j < v.len() && i != j && (#[trigger] v[i]).classroom_id == (
        #[trigger] v[j]).classroom_id ==> v[i].seat_no_text != v[j].seat_no_text
}

/// Whether some entry has the connection id `id`.
pub open spec fn has_connection(v: Seq<SessionView>, id: Seq<char>) -> bool {
    exists|i: int| 0 <= i < v.len() && #[trigger] v[i].connection_id == id
}

/// The position of the entry with the connection id `id`.
pub open spec fn connection_index(v: Seq<SessionView>, id: Seq<char>) -> int {
    choose|i: int| 0 <= i < v.len() && #[trigger] v[i].connection_id == id
}

/// Whether a student of classroom `classroom_id` is connected on `seat`.
pub open spec fn seat_taken(v: Seq<SessionView>, classroom_id: i64, seat: Seq<char>) -> bool {
    exists|i: int|
        0 <= i < v.len() && (#[trigger] v[i]).classroom_id == classroom_id && v[i].seat_no_text
            == seat
}

/// The entries after `s` is stored under its connection id: it replaces the
/// entry with that id, or is added at the end.
pub open spec fn joined(v: Seq<SessionView>, s: SessionView) -> Seq<SessionView> {
    if has_connection(v, s.connection_id) {
        v.update(connection_index(v, s.connection_id), s)
    } else {
        v.push(s)
    }
}

/// The entries after the one with connection id `id` is dropped.
pub open spec fn removed(v: Seq<SessionView>, id: Seq<char>) -> Seq<SessionView> {
    if has_connection(v, id) {
        v.remove(connection_index(v, id))
    } else {
        v
    }
}

/// The entries that are not in classroom `classroom_id`, in order.
pub open spec fn outside_classroom(v: Seq<SessionView>, classroom_id: i64) -> Seq<SessionView>
    decreases v.len(),
{
    if v.len() == 0 {
        v
    } else {
        let rest = outside_classroom(v.drop_last(), classroom_id);
        if v.last().classroom_id != classroom_id {
            rest.push(v.last())
        } else {
            rest
        }
    }
}

/// The connection ids of the entries in classroom `classroom_id`, in order.
pub open spec fn classroom_connections(v: Seq<SessionView>, classroom_id: i64) -> Seq<Seq<char>>
    decreases v.len(),
{
    if v.len() == 0 {
        Seq::empty()
    } else {
        let rest = classroom_connections(v.drop_last(), classroom_id);
        if v.last().classroom_id == classroom_id {
            rest.push(v.last().connection_id)
        } else {
            rest
        }
    }
}

/// An entry after the student `student_id` moved to `seat` with the display
/// name `shown`.
pub open spec fn renamed(s: SessionView, student_id: i64, seat: Seq<char>, shown: Seq<char>) -> SessionView {
    if s.student_id == student_id {
        SessionView { seat_no_text: seat, nickname: shown, ..s }
    } else {
        s
    }
}

/// The position of the last row of `active` for student `id`, if any.
pub open spec fn active_index(active: Seq<ActiveStudent>, id: i64) -> Option<int>
    decreases active.len(),
{
    if active.len() == 0 {
        None
    } else if active.last().id == id {
        Some(active.len() - 1)
    } else {
        active_index(active.drop_last(), id)
    }
}

/// An entry of classroom `classroom_id` whose student is gone from `active`.
pub open spec fn is_stale(s: SessionView, classroom_id: i64, active: Seq<ActiveStudent>) -> bool {
    s.classroom_id == classroom_id && active_index(active, s.student_id) is None
}

/// An entry after a roster save of classroom `classroom_id`: a student that
/// is still on the roster takes the saved seat and display name.
pub open spec fn refreshed(s: SessionView, classroom_id: i64, active: Seq<ActiveStudent>) -> SessionView {
    if s.classroom_id == classroom_id && active_index(active, s.student_id) is Some {
        let row = active[active_index(active, s.student_id)->0];
        SessionView {
            seat_no_text: row.seat_no_text@,
            nickname: display_name(row.seat_no_text@, row.nickname@),
            ..s
        }
    } else {
        s
    }
}

/// The entries after a roster save: stale ones dropped, the others refreshed.
pub open spec fn after_roster_save(v: Seq<SessionView>, classroom_id: i64, active: Seq<ActiveStudent>) -> Seq<SessionView>
    decreases v.len(),
{
    if v.len() == 0 {
        v
    } else {
        let rest = after_roster_save(v.drop_last(), classroom_id, active);
        if is_stale(v.last(), classroom_id, active) {
            rest
        } else {
            rest.push(refreshed(v.last(), classroom_id, active))
        }
    }
}

/// The connection ids of the stale entries, in order.
pub open spec fn stale_connections(v: Seq<SessionView>, classroom_id: i64, active: Seq<ActiveStudent>) -> Seq<Seq<char>>
    decreases v.len(),
{
    if v.len() == 0 {
        Seq::empty()
    } else {
        let rest = stale_connections(v.drop_last(), classroom_id, active);
        if is_stale(v.last(), classroom_id, active) {
            rest.push(v.last().connection_id)
        } else {
            rest
        }
    }
}

/// The entry a student gets when joining: connected, focused, with the
/// display name of its roster row.
pub open spec fn admitted_session(
    connection_id: Seq<char>,
    student_id: i64,
    classroom_id: i64,
    seat: Seq<char>,
    nickname: Seq<char>,
) -> SessionView {
    SessionView {
        connection_id,
        student_id,
        classroom_id,
        seat_no_text: seat,
        nickname: display_name(seat, nickname),
        connected: true,
        focus_status: "focused"@,
        focus_updated_at: 0,
    }
}

/// With unique connection ids, the entry at `i` is the one found by its id.
pub proof fn lemma_index_is_connection_index(v: Seq<SessionView>, i: int)
    requires
        unique_connections(v),
        0 <= i < v.len(),
    ensures
        has_connection(v, v[i].connection_id),
        connection_index(v, v[i].connection_id) == i,
{
    assert(v[i].connection_id == v[i].connection_id);
    let k = connection_index(v, v[i].connection_id);
    if k != i {
        assert(v[k].connection_id != v[i].connection_id);
    }
}

impl SessionRoster {
    /// The roster invariant: connection ids are unique.
    pub open spec fn wf(&self) -> bool {
        unique_connections(self@)
    }

    /// An empty roster.
    pub fn new() -> (r: SessionRoster)
        ensures
            r@ == Seq::<SessionView>::empty(),
            r.wf(),
    {
        let r = SessionRoster { sessions: Vec::new() };
        proof {
            assert(r@ =~= Seq::<SessionView>::empty());
        }
        r
    }

    /// The number of connected students.
    pub fn len(&self) -> (n: usize)
        ensures
            n == self@.len(),
    {
        self.sessions.len()
    }

    /// The position of the entry with connection id `id`.
    fn position_of(&self, id: &String) -> (r: Option<usize>)
        requires
            self.wf(),
        ensures
            match r {
                Some(i) => i < self@.len() && self@[i as int].connection_id == id@
                    && has_connection(self@, id@) && connection_index(self@, id@) == i,
                None => !has_connection(self@, id@),
            },
    {
        let mut i: usize = 0;
        while i < self.sessions.len()
            invariant
                i <= self@.len(),
                self@.len() == self.sessions@.len(),
                unique_connections(self@),
                forall|j: int| 0 <= j < i ==> self@[j].connection_id != id@,
            decreases self@.len() - i,
        {
            if self.sessions[i].connection_id == *id {
                proof {
                    assert(self@[i as int] == self.sessions@[i as int]@);
                    lemma_index_is_connection_index(self@, i as int);
                }
                return Some(i);
            }
            proof {
                assert(self@[i as int] == self.sessions@[i as int]@);
            }
            i = i + 1;
        }
        None
    }

    /// Stores `session` under its connection id, replacing an entry with the
    /// same id.
    pub fn join(&mut self, session: StudentSession)
        requires
            old(self).wf(),
        ensures
            final(self)@ == joined(old(self)@, session@),
            final(self).wf(),
    {
        let ghost s = session@;
        let found = self.position_of(&session.connection_id);
        match found {
            Some(i) => {
                self.sessions.set(i, session);
                proof {
                    assert(self@ =~= old(self)@.update(i as int, s));
                }
            },
            None => {
                self.sessions.push(session);
                proof {
                    assert(self@ =~= old(self)@.push(s));
                }
            },
        }
        proof {
            lemma_joined_unique(old(self)@, s);
        }
    }

    /// Drops the entry with connection id `id`; tells whether there was one.
    pub fn remove(&mut self, id: &String) -> (was_there: bool)
        requires
            old(self).wf(),
        ensures
            was_there == has_connection(old(self)@, id@),
            final(self)@ == removed(old(self)@, id@),
            final(self).wf(),
            unique_seats(old(self)@) ==> unique_seats(final(self)@),
    {
        let found = self.position_of(id);
        match found {
            Some(i) => {
                self.sessions.remove(i);
                proof {
                    assert(self@ =~= old(self)@.remove(i as int));
                    lemma_removed_unique(old(self)@, id@);
                    if unique_seats(old(self)@) {
                        lemma_removed_seats(old(self)@, id@);
                    }
                }
                true
            },
            None => false,
        }
    }

    /// Whether a student of classroom `classroom_id` is connected on `seat`.
    pub fn seat_is_occupied(&self, classroom_id: i64, seat: &String) -> (r: bool)
        ensures
            r == seat_taken(self@, classroom_id, seat@),
    {
        let mut i: usize = 0;
        while i < self.sessions.len()
            invariant
                i <= self@.len(),
                self@.len() == self.sessions@.len(),
                forall|j: int|
                    0 <= j < i ==> !((#[trigger] self@[j]).classroom_id == classroom_id
                        && self@[j].seat_no_text == seat@),
            decreases self@.len() - i,
        {
            proof {
                assert(self@[i as int] == self.sessions@[i as int]@);
            }
            if self.sessions[i].classroom_id == classroom_id && self.sessions[i].seat_no_text
                == *seat {
                return true;
            }
            i = i + 1;
        }
        false
    }

    /// The seats of the connected students of classroom `classroom_id`.
    pub fn occupied_seats(&self, classroom_id: i64) -> (seats: Vec<String>)
        ensures
            forall|k: int|
                0 <= k < seats@.len() ==> seat_taken(self@, classroom_id, #[trigger] seats@[k]@),
            forall|i: int|
                0 <= i < self@.len() && (#[trigger] self@[i]).classroom_id == classroom_id ==> exists|
                    k: int,
                | 0 <= k < seats@.len() && seats@[k]@ == self@[i].seat_no_text,
    {
        let mut seats: Vec<String> = Vec::new();
        let mut i: usize = 0;
        while i < self.sessions.len()
            invariant
                i <= self@.len(),
                self@.len() == self.sessions@.len(),
                forall|k: int|
                    0 <= k < seats@.len() ==> seat_taken(self@, classroom_id, #[trigger] seats@[k]@),
                forall|j: int|
                    0 <= j < i && (#[trigger] self@[j]).classroom_id == classroom_id ==> exists|k: int|
                        0 <= k < seats@.len() && seats@[k]@ == self@[j].seat_no_text,
            decreases self@.len() - i,
        {
            proof {
                assert(self@[i as int] == self.sessions@[i as int]@);
            }
            if self.sessions[i].classroom_id == classroom_id {
                let seat = self.sessions[i].seat_no_text.clone();
                let ghost before = seats@;
                seats.push(seat);
                proof {
                    assert(seats@[before.len() as int]@ == self@[i as int].seat_no_text);
                    assert forall|j: int|
                        0 <= j < i + 1 && (#[trigger] self@[j]).classroom_id
                            == classroom_id implies exists|k: int|
                        0 <= k < seats@.len() && seats@[k]@ == self@[j].seat_no_text by {
                        if j < i {
                            let k = choose|k: int|
                                0 <= k < before.len() && before[k]@ == self@[j].seat_no_text;
                            assert(seats@[k] == before[k]);
                        } else {
                            assert(seats@[before.len() as int]@ == self@[j].seat_no_text);
                        }
                    }
                    assert forall|k: int| 0 <= k < seats@.len() implies seat_taken(
                        self@,
                        classroom_id,
                        #[trigger] seats@[k]@,
                    ) by {
                        if k < before.len() {
                            assert(seats@[k] == before[k]);
                        } else {
                            assert(self@[i as int].classroom_id == classroom_id);
                        }
                    }
                }
            }
            i = i + 1;
        }
        seats
    }

    /// Drops every entry of classroom `classroom_id` and returns their
    /// connection ids, in roster order.
    pub fn remove_classroom(&mut self, classroom_id: i64) -> (ids: Vec<String>)
        requires
            old(self).wf(),
        ensures
            final(self)@ == outside_classroom(old(self)@, classroom_id),
            ids@.map_values(|s: String| s@) == classroom_connections(old(self)@, classroom_id),
            final(self).wf(),
            unique_seats(old(self)@) ==> unique_seats(final(self)@),
    {
        let ghost start = self@;
        let mut kept: Vec<StudentSession> = Vec::new();
        let mut ids: Vec<String> = Vec::new();
        let mut i: usize = 0;
        while i < self.sessions.len()
            invariant
                start == self@,
                i <= self@.len(),
                self@.len() == self.sessions@.len(),
                kept@.map_values(|s: StudentSession| s@) == outside_classroom(
                    start.take(i as int),
                    classroom_id,
                ),
                ids@.map_values(|s: String| s@) == classroom_connections(
                    start.take(i as int),
                    classroom_id,
                ),
            decreases self@.len() - i,
        {
            let ghost prefix = start.take(i + 1);
            proof {
                assert(self@[i as int] == self.sessions@[i as int]@);
                assert(prefix.drop_last() =~= start.take(i as int));
                assert(prefix.last() == start[i as int]);
            }
            let entry = self.sessions[i].clone();
            if entry.classroom_id == classroom_id {
                let ghost before = ids@;
                ids.push(entry.connection_id);
                proof {
                    assert(ids@.map_values(|s: String| s@) =~= before.map_values(|s: String| s@).push(
                        start[i as int].connection_id,
                    ));
                }
            } else {
                let ghost before = kept@;
                kept.push(entry);
                proof {
                    assert(kept@.map_values(|s: StudentSession| s@) =~= before.map_values(
                        |s: StudentSession| s@,
                    ).push(start[i as int]));
                }
            }
            i = i + 1;
        }
        proof {
            assert(start.take(i as int) =~= start);
            lemma_outside_classroom_unique(start, classroom_id);
            if unique_seats(start) {
                lemma_outside_seats(start, classroom_id);
            }
        }
        self.sessions = kept;
        ids
    }

    /// Gives every entry of student `student_id` the seat `seat_no_text` and
    /// the display name of that seat and `nickname`.
    pub fn rename_student(&mut self, student_id: i64, seat_no_text: &String, nickname: &String)
        requires
            old(self).wf(),
        ensures
            final(self)@.len() == old(self)@.len(),
            forall|i: int|
                0 <= i < old(self)@.len() ==> #[trigger] final(self)@[i] == renamed(
                    old(self)@[i],
                    student_id,
                    seat_no_text@,
                    display_name(seat_no_text@, nickname@),
                ),
            final(self).wf(),
    {
        let shown = seat_nickname_display(seat_no_text.as_str(), nickname.as_str());
        let ghost start = self@;
        let mut i: usize = 0;
        while i < self.sessions.len()
            invariant
                start == old(self)@,
                self@.len() == start.len(),
                self@.len() == self.sessions@.len(),
                i <= self@.len(),
                shown@ == display_name(seat_no_text@, nickname@),
                forall|j: int|
                    0 <= j < i ==> #[trigger] self@[j] == renamed(
                        start[j],
                        student_id,
                        seat_no_text@,
                        shown@,
                    ),
                forall|j: int| i <= j < self@.len() ==> #[trigger] self@[j] == start[j],
            decreases self@.len() - i,
        {
            proof {
                assert(self@[i as int] == self.sessions@[i as int]@);
            }
            if self.sessions[i].student_id == student_id {
                let current = self.sessions[i].clone();
                let updated = StudentSession {
                    seat_no_text: seat_no_text.clone(),
                    nickname: shown.clone(),
                    ..current
                };
                let ghost before = self@;
                self.sessions.set(i, updated);
                proof {
                    assert(self@ =~= before.update(
                        i as int,
                        renamed(start[i as int], student_id, seat_no_text@, shown@),
                    ));
                }
            }
            i = i + 1;
        }
        proof {
            assert forall|a: int, b: int|
                0 <= a < self@.len() && 0 <= b < self@.len() && a != b implies #[trigger] self@[a].connection_id
                != #[trigger] self@[b].connection_id by {
                assert(self@[a].connection_id == start[a].connection_id);
                assert(self@[b].connection_id == start[b].connection_id);
            }
        }
    }

    /// Applies a roster save of classroom `classroom_id`: its connected
    /// students that are still on the roster take their saved seat and
    /// display name, the others are dropped; returns the dropped connection
    /// ids in roster order.
    pub fn refresh_classroom(&mut self, classroom_id: i64, active: &Vec<ActiveStudent>) -> (stale: Vec<String>)
        requires
            old(self).wf(),
        ensures
            final(self)@ == after_roster_save(old(self)@, classroom_id, active@),
            stale@.map_values(|s: String| s@) == stale_connections(old(self)@, classroom_id, active@),
            final(self).wf(),
    {
        let ghost start = self@;
        let mut kept: Vec<StudentSession> = Vec::new();
        let mut stale: Vec<String> = Vec::new();
        let mut i: usize = 0;
        while i < self.sessions.len()
            invariant
                start == self@,
                i <= self@.len(),
                self@.len() == self.sessions@.len(),
                kept@.map_values(|s: StudentSession| s@) == after_roster_save(
                    start.take(i as int),
                    classroom_id,
                    active@,
                ),
                stale@.map_values(|s: String| s@) == stale_connections(
                    start.take(i as int),
                    classroom_id,
                    active@,
                ),
            decreases self@.len() - i,
        {
            let ghost prefix = start.take(i + 1);
            proof {
                assert(self@[i as int] == self.sessions@[i as int]@);
                assert(prefix.drop_last() =~= start.take(i as int));
                assert(prefix.last() == start[i as int]);
            }
            let entry = self.sessions[i].clone();
            let found = if entry.classroom_id == classroom_id {
                last_active_row(active, entry.student_id)
            } else {
                None
            };
            if entry.classroom_id == classroom_id && found.is_none() {
                let ghost before = stale@;
                stale.push(entry.connection_id);
                proof {
                    assert(stale@.map_values(|s: String| s@) =~= before.map_values(|s: String| s@).push(
                        start[i as int].connection_id,
                    ));
                }
            } else {
                let ghost before = kept@;
                match found {
                    Some(k) => {
                        let row = &active[k];
                        let shown = seat_nickname_display(
                            row.seat_no_text.as_str(),
                            row.nickname.as_str(),
                        );
                        let updated = StudentSession {
                            seat_no_text: row.seat_no_text.clone(),
                            nickname: shown,
                            ..entry
                        };
                        kept.push(updated);
                    },
                    None => {
                        kept.push(entry);
                    },
                }
                proof {
                    assert(kept@.map_values(|s: StudentSession| s@) =~= before.map_values(
                        |s: StudentSession| s@,
                    ).push(refreshed(start[i as int], classroom_id, active@)));
                }
            }
            i = i + 1;
        }
        proof {
            assert(start.take(i as int) =~= start);
            lemma_after_roster_save_unique(start, classroom_id, active@);
        }
        self.sessions = kept;
        stale
    }

    /// Admits a student to `seat` of classroom `classroom_id` on connection
    /// `connection_id`, unless a student of that classroom is already
    /// connected on the seat; returns the display name it joined under.
    pub fn admit_student(
        &mut self,
        connection_id: String,
        student_id: i64,
        classroom_id: i64,
        seat_no_text: String,
        nickname: String,
    ) -> (r: Result<String, String>)
        requires
            old(self).wf(),
        ensures
            final(self).wf(),
            seat_taken(old(self)@, classroom_id, seat_no_text@) ==> (r matches Err(m) && m@
                == "該學生已連入，請選擇其他座號"@ && final(self)@ == old(self)@),
            !seat_taken(old(self)@, classroom_id, seat_no_text@) ==> (r matches Ok(shown) && shown@
                == display_name(seat_no_text@, nickname@) && final(self)@ == joined(
                old(self)@,
                admitted_session(connection_id@, student_id, classroom_id, seat_no_text@, nickname@),
            )),
            unique_seats(old(self)@) ==> unique_seats(final(self)@),
    {
        let ghost start = self@;
        let ghost conn = connection_id@;
        let ghost seat = seat_no_text@;
        let ghost raw_nickname = nickname@;
        if self.seat_is_occupied(classroom_id, &seat_no_text) {
            return Err(String::from_str("該學生已連入，請選擇其他座號"));
        }
        let shown = seat_nickname_display(seat_no_text.as_str(), nickname.as_str());
        let session = StudentSession {
            connection_id,
            student_id,
            classroom_id,
            seat_no_text,
            nickname: shown.clone(),
            connected: true,
            focus_status: String::from_str("focused"),
            focus_updated_at: 0,
        };
        self.join(session);
        proof {
            if unique_seats(start) {
                law_admission_keeps_seats_unique(
                    start,
                    conn,
                    student_id,
                    classroom_id,
                    seat,
                    raw_nickname,
                );
            }
        }
        Ok(shown)
    }

    /// Copies of all entries, in roster order.
    pub fn snapshot(&self) -> (copies: Vec<StudentSession>)
        ensures
            copies@.map_values(|s: StudentSession| s@) == self@,
    {
        let mut copies: Vec<StudentSession> = Vec::new();
        let mut i: usize = 0;
        while i < self.sessions.len()
            invariant
                i <= self.sessions@.len(),
                copies@ == self.sessions@.take(i as int),
            decreases self.sessions@.len() - i,
        {
            copies.push(self.sessions[i].clone());
            proof {
                assert(copies@ =~= self.sessions@.take(i + 1));
            }
            i = i + 1;
        }
        proof {
            assert(copies@ =~= self.sessions@);
        }
        copies
    }
}

/// The position of the last row of `active` for student `id`.
pub fn last_active_row(active: &Vec<ActiveStudent>, id: i64) -> (r: Option<usize>)
    ensures
        match r {
            Some(k) => active_index(active@, id) == Some(k as int) && k < active@.len(),
            None => active_index(active@, id) is None,
        },
{
    let mut k: usize = active.len();
    proof {
        assert(active@.take(k as int) =~= active@);
    }
    while k > 0
        invariant
            k <= active@.len(),
            active_index(active@, id) == active_index(active@.take(k as int), id),
        decreases k,
    {
        let ghost prefix = active@.take(k as int);
        proof {
            assert(prefix.drop_last() =~= active@.take(k - 1));
            assert(prefix.last() == active@[k - 1]);
        }
        if active[k - 1].id == id {
            return Some(k - 1);
        }
        k = k - 1;
    }
    proof {
        assert(active@.take(0) =~= Seq::<ActiveStudent>::empty());
    }
    None
}

/// An active row found by `active_index` is within the rows.
pub proof fn lemma_active_index_bounds(active: Seq<ActiveStudent>, id: i64)
    ensures
        active_index(active, id) matches Some(k) ==> 0 <= k < active.len() && active[k].id == id,
    decreases active.len(),
{
    if active.len() > 0 && active.last().id != id {
        lemma_active_index_bounds(active.drop_last(), id);
    }
}

/// Joining keeps connection ids unique.
pub proof fn lemma_joined_unique(v: Seq<SessionView>, s: SessionView)
    requires
        unique_connections(v),
    ensures
        unique_connections(joined(v, s)),
        has_connection(joined(v, s), s.connection_id),
{
    let w = joined(v, s);
    if has_connection(v, s.connection_id) {
        let k = connection_index(v, s.connection_id);
        assert(w[k].connection_id == s.connection_id);
    } else {
        assert(w[v.len() as int].connection_id == s.connection_id);
    }
}

/// Removing a connection keeps ids unique and forgets that id.
pub proof fn lemma_removed_unique(v: Seq<SessionView>, id: Seq<char>)
    requires
        unique_connections(v),
    ensures
        unique_connections(removed(v, id)),
        !has_connection(removed(v, id), id),
{
    let w = removed(v, id);
    if has_connection(v, id) {
        let k = connection_index(v, id);
        assert forall|a: int, b: int|
            0 <= a < w.len() && 0 <= b < w.len() && a != b implies #[trigger] w[a].connection_id
            != #[trigger] w[b].connection_id by {
            let a1 = if a < k {
                a
            } else {
                a + 1
            };
            let b1 = if b < k {
                b
            } else {
                b + 1
            };
            assert(w[a] == v[a1]);
            assert(w[b] == v[b1]);
        }
        if has_connection(w, id) {
            let q = choose|q: int| 0 <= q < w.len() && #[trigger] w[q].connection_id == id;
            let q1 = if q < k {
                q
            } else {
                q + 1
            };
            assert(w[q] == v[q1]);
            assert(v[k].connection_id == id);
        }
    }
}

/// Every entry outside the classroom comes from the roster.
pub proof fn lemma_outside_classroom_members(v: Seq<SessionView>, classroom_id: i64)
    ensures
        forall|i: int|
            0 <= i < outside_classroom(v, classroom_id).len() ==> exists|j: int|
                0 <= j < v.len() && v[j] == #[trigger] outside_classroom(v, classroom_id)[i],
        forall|i: int|
            0 <= i < outside_classroom(v, classroom_id).len() ==> (#[trigger] outside_classroom(
                v,
                classroom_id,
            )[i]).classroom_id != classroom_id,
        forall|j: int|
            0 <= j < v.len() && (#[trigger] v[j]).classroom_id != classroom_id ==> exists|i: int|
                0 <= i < outside_classroom(v, classroom_id).len() && outside_classroom(
                    v,
                    classroom_id,
                )[i] == v[j],
    decreases v.len(),
{
    if v.len() > 0 {
        let d = v.drop_last();
        lemma_outside_classroom_members(d, classroom_id);
        let rest = outside_classroom(d, classroom_id);
        let w = outside_classroom(v, classroom_id);
        assert forall|i: int| 0 <= i < w.len() implies exists|j: int|
            0 <= j < v.len() && v[j] == #[trigger] w[i] by {
            if i < rest.len() {
                assert(w[i] == rest[i]);
                let j = choose|j: int| 0 <= j < d.len() && d[j] == rest[i];
                assert(v[j] == d[j]);
            } else {
                assert(w[i] == v.last());
            }
        }
        assert forall|i: int| 0 <= i < w.len() implies (#[trigger] w[i]).classroom_id
            != classroom_id by {
            if i < rest.len() {
                assert(w[i] == rest[i]);
            }
        }
        assert forall|j: int|
            0 <= j < v.len() && (#[trigger] v[j]).classroom_id != classroom_id implies exists|i: int|
                0 <= i < w.len() && w[i] == v[j] by {
            if j < d.len() {
                assert(d[j] == v[j]);
                let i = choose|i: int| 0 <= i < rest.len() && rest[i] == d[j];
                assert(w[i] == rest[i]);
            } else {
                assert(w[rest.len() as int] == v[j]);
            }
        }
    }
}

/// Every entry outside the classroom is an entry of the roster.
pub proof fn lemma_outside_classroom_origin(v: Seq<SessionView>, classroom_id: i64)
    ensures
        forall|i: int|
            0 <= i < outside_classroom(v, classroom_id).len() ==> exists|j: int|
                0 <= j < v.len() && v[j] == #[trigger] outside_classroom(v, classroom_id)[i],
    decreases v.len(),
{
    if v.len() > 0 {
        let d = v.drop_last();
        lemma_outside_classroom_origin(d, classroom_id);
        let rest = outside_classroom(d, classroom_id);
        let w = outside_classroom(v, classroom_id);
        assert forall|i: int| 0 <= i < w.len() implies exists|j: int|
            0 <= j < v.len() && v[j] == #[trigger] w[i] by {
            if i < rest.len() {
                assert(w[i] == rest[i]);
                let j = choose|j: int| 0 <= j < d.len() && d[j] == rest[i];
                assert(v[j] == d[j]);
            } else {
                assert(w[i] == v.last());
            }
        }
    }
}

/// Dropping a classroom keeps connection ids unique.
pub proof fn lemma_outside_classroom_unique(v: Seq<SessionView>, classroom_id: i64)
    requires
        unique_connections(v),
    ensures
        unique_connections(outside_classroom(v, classroom_id)),
    decreases v.len(),
{
    if v.len() > 0 {
        let d = v.drop_last();
        assert(unique_connections(d)) by {
            assert forall|a: int, b: int|
                0 <= a < d.len() && 0 <= b < d.len() && a != b implies #[trigger] d[a].connection_id
                != #[trigger] d[b].connection_id by {
                assert(d[a] == v[a]);
                assert(d[b] == v[b]);
            }
        }
        lemma_outside_classroom_unique(d, classroom_id);
        lemma_outside_classroom_origin(d, classroom_id);
        let rest = outside_classroom(d, classroom_id);
        let w = outside_classroom(v, classroom_id);
        if v.last().classroom_id != classroom_id {
            assert forall|a: int, b: int|
                0 <= a < w.len() && 0 <= b < w.len() && a != b implies #[trigger] w[a].connection_id
                != #[trigger] w[b].connection_id by {
                if a < rest.len() && b < rest.len() {
                    assert(w[a] == rest[a]);
                    assert(w[b] == rest[b]);
                } else if a < rest.len() {
                    assert(w[a] == rest[a]);
                    let j = choose|j: int| 0 <= j < d.len() && d[j] == rest[a];
                    assert(v[j] == d[j]);
                    assert(w[b] == v[v.len() - 1]);
                } else {
                    assert(w[b] == rest[b]);
                    let j = choose|j: int| 0 <= j < d.len() && d[j] == rest[b];
                    assert(v[j] == d[j]);
                    assert(w[a] == v[v.len() - 1]);
                }
            }
        }
    }
}

/// Every entry left after a roster save refreshes an entry of the roster,
/// at a position that does not go backwards.
pub proof fn lemma_after_roster_save_origin(v: Seq<SessionView>, classroom_id: i64, active: Seq<ActiveStudent>)
    ensures
        forall|i: int|
            0 <= i < after_roster_save(v, classroom_id, active).len() ==> exists|j: int|
                0 <= j < v.len() && #[trigger] after_roster_save(v, classroom_id, active)[i]
                    == refreshed(v[j], classroom_id, active),
    decreases v.len(),
{
    if v.len() > 0 {
        let d = v.drop_last();
        lemma_after_roster_save_origin(d, classroom_id, active);
        let rest = after_roster_save(d, classroom_id, active);
        let w = after_roster_save(v, classroom_id, active);
        assert forall|i: int| 0 <= i < w.len() implies exists|j: int|
            0 <= j < v.len() && #[trigger] w[i] == refreshed(v[j], classroom_id, active) by {
            if i < rest.len() {
                assert(w[i] == rest[i]);
                let j = choose|j: int|
                    0 <= j < d.len() && #[trigger] rest[i] == refreshed(d[j], classroom_id, active);
                assert(v[j] == d[j]);
            } else {
                assert(w[i] == refreshed(v[v.len() - 1], classroom_id, active));
            }
        }
    }
}

/// A roster refresh keeps connection ids unique.
pub proof fn lemma_after_roster_save_unique(v: Seq<SessionView>, classroom_id: i64, active: Seq<ActiveStudent>)
    requires
        unique_connections(v),
    ensures
        unique_connections(after_roster_save(v, classroom_id, active)),
    decreases v.len(),
{
    if v.len() > 0 {
        let d = v.drop_last();
        assert(unique_connections(d)) by {
            assert forall|a: int, b: int|
                0 <= a < d.len() && 0 <= b < d.len() && a != b implies #[trigger] d[a].connection_id
                != #[trigger] d[b].connection_id by {
                assert(d[a] == v[a]);
                assert(d[b] == v[b]);
            }
        }
        lemma_after_roster_save_unique(d, classroom_id, active);
        lemma_after_roster_save_origin(d, classroom_id, active);
        let rest = after_roster_save(d, classroom_id, active);
        let w = after_roster_save(v, classroom_id, active);
        if !is_stale(v.last(), classroom_id, active) {
            assert forall|a: int, b: int|
                0 <= a < w.len() && 0 <= b < w.len() && a != b implies #[trigger] w[a].connection_id
                != #[trigger] w[b].connection_id by {
                if a < rest.len() && b < rest.len() {
                    assert(w[a] == rest[a]);
                    assert(w[b] == rest[b]);
                } else if a < rest.len() {
                    assert(w[a] == rest[a]);
                    let j = choose|j: int|
                        0 <= j < d.len() && #[trigger] rest[a] == refreshed(d[j], classroom_id, active);
                    assert(v[j] == d[j]);
                    assert(w[b] == refreshed(v[v.len() - 1], classroom_id, active));
                } else {
                    assert(w[b] == rest[b]);
                    let j = choose|j: int|
                        0 <= j < d.len() && #[trigger] rest[b] == refreshed(d[j], classroom_id, active);
                    assert(v[j] == d[j]);
                    assert(w[a] == refreshed(v[v.len() - 1], classroom_id, active));
                }
            }
        }
    }
}

/// A student who joins on a connection is then connected under that id,
/// holds the seat it joined on, and connection ids stay unique.
pub proof fn law_join_registers_connection(v: Seq<SessionView>, s: SessionView)
    requires
        unique_connections(v),
    ensures
        unique_connections(joined(v, s)),
        has_connection(joined(v, s), s.connection_id),
        seat_taken(joined(v, s), s.classroom_id, s.seat_no_text),
{
    lemma_joined_unique(v, s);
    let w = joined(v, s);
    if has_connection(v, s.connection_id) {
        let k = connection_index(v, s.connection_id);
        assert(w[k] == s);
    } else {
        assert(w[v.len() as int] == s);
    }
}

/// Joining on a new connection and then leaving gives back the roster as
/// it was.
pub proof fn law_join_then_leave_restores(v: Seq<SessionView>, s: SessionView)
    requires
        unique_connections(v),
        !has_connection(v, s.connection_id),
    ensures
        removed(joined(v, s), s.connection_id) == v,
{
    let w = joined(v, s);
    assert(w == v.push(s));
    lemma_joined_unique(v, s);
    lemma_index_is_connection_index(w, v.len() as int);
    assert(w.remove(v.len() as int) =~= v);
}

/// After a connection leaves, no entry has its id and ids stay unique.
pub proof fn law_leave_forgets_connection(v: Seq<SessionView>, id: Seq<char>)
    requires
        unique_connections(v),
    ensures
        !has_connection(removed(v, id), id),
        unique_connections(removed(v, id)),
{
    lemma_removed_unique(v, id);
}

/// Forcing out a classroom leaves none of its students connected and keeps
/// every student of the other classrooms.
pub proof fn law_force_logout_clears_classroom(v: Seq<SessionView>, classroom_id: i64)
    ensures
        forall|i: int|
            0 <= i < outside_classroom(v, classroom_id).len() ==> (#[trigger] outside_classroom(
                v,
                classroom_id,
            )[i]).classroom_id != classroom_id,
        forall|j: int|
            0 <= j < v.len() && (#[trigger] v[j]).classroom_id != classroom_id ==> exists|i: int|
                0 <= i < outside_classroom(v, classroom_id).len() && outside_classroom(
                    v,
                    classroom_id,
                )[i] == v[j],
{
    lemma_outside_classroom_members(v, classroom_id);
}

/// Admission on a free seat keeps each seat of a classroom held by at most
/// one connection.
pub proof fn law_admission_keeps_seats_unique(
    v: Seq<SessionView>,
    connection_id: Seq<char>,
    student_id: i64,
    classroom_id: i64,
    seat: Seq<char>,
    nickname: Seq<char>,
)
    requires
        unique_connections(v),
        unique_seats(v),
        !seat_taken(v, classroom_id, seat),
    ensures
        unique_seats(joined(v, admitted_session(connection_id, student_id, classroom_id, seat, nickname))),
{
    let s = admitted_session(connection_id, student_id, classroom_id, seat, nickname);
    let w = joined(v, s);
    if has_connection(v, connection_id) {
        let k = connection_index(v, connection_id);
        assert forall|a: int, b: int|
            0 <= a < w.len() && 0 <= b < w.len() && a != b && (#[trigger] w[a]).classroom_id == (
            #[trigger] w[b]).classroom_id implies w[a].seat_no_text != w[b].seat_no_text by {
            if a != k && b != k {
                assert(w[a] == v[a]);
                assert(w[b] == v[b]);
            } else if a == k {
                assert(w[b] == v[b]);
                assert(w[a] == s);
            } else {
                assert(w[a] == v[a]);
                assert(w[b] == s);
            }
        }
    } else {
        assert forall|a: int, b: int|
            0 <= a < w.len() && 0 <= b < w.len() && a != b && (#[trigger] w[a]).classroom_id == (
            #[trigger] w[b]).classroom_id implies w[a].seat_no_text != w[b].seat_no_text by {
            if a < v.len() && b < v.len() {
                assert(w[a] == v[a]);
                assert(w[b] == v[b]);
            } else if a < v.len() {
                assert(w[a] == v[a]);
                assert(w[b] == s);
            } else {
                assert(w[b] == v[b]);
                assert(w[a] == s);
            }
        }
    }
}

/// A connection that joins again replaces its own entry: the roster keeps
/// its size, the entry under that id is the new one and every other entry
/// stays as it was, so the list never shows the connection twice.
pub proof fn law_rejoin_replaces_entry(v: Seq<SessionView>, s: SessionView)
    requires
        unique_connections(v),
        has_connection(v, s.connection_id),
    ensures
        joined(v, s).len() == v.len(),
        joined(v, s)[connection_index(v, s.connection_id)] == s,
        forall|i: int|
            0 <= i < v.len() && v[i].connection_id != s.connection_id ==> #[trigger] joined(v, s)[i]
                == v[i],
        unique_connections(joined(v, s)),
{
    lemma_joined_unique(v, s);
    let k = connection_index(v, s.connection_id);
    assert(v[k].connection_id == s.connection_id);
}

/// After a roster save of a classroom, every student still connected to it
/// is on the saved roster and shows the seat and display name saved for it.
pub proof fn law_roster_save_keeps_listed_students(
    v: Seq<SessionView>,
    classroom_id: i64,
    active: Seq<ActiveStudent>,
)
    ensures
        forall|i: int|
            0 <= i < after_roster_save(v, classroom_id, active).len() && (
            #[trigger] after_roster_save(v, classroom_id, active)[i]).classroom_id == classroom_id
                ==> {
                let s = after_roster_save(v, classroom_id, active)[i];
                &&& active_index(active, s.student_id) is Some
                &&& s.seat_no_text == active[active_index(active, s.student_id)->0].seat_no_text@
                &&& s.nickname == display_name(
                    active[active_index(active, s.student_id)->0].seat_no_text@,
                    active[active_index(active, s.student_id)->0].nickname@,
                )
            },
    decreases v.len(),
{
    if v.len() > 0 {
        let d = v.drop_last();
        law_roster_save_keeps_listed_students(d, classroom_id, active);
        let rest = after_roster_save(d, classroom_id, active);
        let w = after_roster_save(v, classroom_id, active);
        assert forall|i: int|
            0 <= i < w.len() && (#[trigger] w[i]).classroom_id == classroom_id implies {
            &&& active_index(active, w[i].student_id) is Some
            &&& w[i].seat_no_text == active[active_index(active, w[i].student_id)->0].seat_no_text@
            &&& w[i].nickname == display_name(
                active[active_index(active, w[i].student_id)->0].seat_no_text@,
                active[active_index(active, w[i].student_id)->0].nickname@,
            )
        } by {
            if i < rest.len() {
                assert(w[i] == rest[i]);
            }
        }
    }
}

/// Some row of the roster `active` is the student `student_id`.
pub open spec fn on_roster(active: Seq<ActiveStudent>, student_id: i64) -> bool {
    exists|k: int| 0 <= k < active.len() && active[k].id == student_id
}

/// A student's roster position is found exactly when the roster lists it.
proof fn lemma_active_index_found(active: Seq<ActiveStudent>, id: i64)
    ensures
        active_index(active, id) is Some <==> on_roster(active, id),
    decreases active.len(),
{
    if active.len() > 0 {
        let d = active.drop_last();
        lemma_active_index_found(d, id);
        if on_roster(active, id) && active.last().id != id {
            let k = choose|k: int| 0 <= k < active.len() && active[k].id == id;
            assert(k < d.len() && d[k].id == id);
        }
        if on_roster(d, id) {
            let k = choose|k: int| 0 <= k < d.len() && d[k].id == id;
            assert(active[k].id == id);
        }
        if active.last().id == id {
            assert(active[active.len() - 1].id == id);
        }
    }
}

/// The refresh after a roster save reports exactly the connections of the
/// classroom whose student is no longer on the saved roster, in roster
/// order, one per session it drops: the sessions it keeps and the
/// connections it reports add up to the sessions it started from.
pub proof fn law_refresh_reports_every_dropped_session(
    v: Seq<SessionView>,
    classroom_id: i64,
    active: Seq<ActiveStudent>,
)
    ensures
        stale_connections(v, classroom_id, active) == v.filter(
            |s: SessionView| s.classroom_id == classroom_id && !on_roster(active, s.student_id),
        ).map_values(|s: SessionView| s.connection_id),
        after_roster_save(v, classroom_id, active).len() + stale_connections(v, classroom_id, active).len()
            == v.len(),
    decreases v.len(),
{
    reveal(Seq::filter);
    if v.len() > 0 {
        let d = v.drop_last();
        law_refresh_reports_every_dropped_session(d, classroom_id, active);
        lemma_active_index_found(active, v.last().student_id);
        let pred = |s: SessionView| s.classroom_id == classroom_id && !on_roster(active, s.student_id);
        let fd = d.filter(pred);
        if pred(v.last()) {
            assert(v.filter(pred) == fd.push(v.last()));
            assert(fd.push(v.last()).map_values(|s: SessionView| s.connection_id) =~= fd.map_values(
                |s: SessionView| s.connection_id,
            ).push(v.last().connection_id));
        } else {
            assert(v.filter(pred) == fd);
        }
    }
}

/// What happens to the connected students: a join request that the server
/// admits unless the seat is held, a connection that leaves, or a forced
/// logout of a classroom.
pub enum RosterEvent {
    Admit {
        connection_id: Seq<char>,
        student_id: i64,
        classroom_id: i64,
        seat: Seq<char>,
        nickname: Seq<char>,
    },
    Leave { connection_id: Seq<char> },
    ForceLogout { classroom_id: i64 },
}

/// The entries after `e`, as `admit_student`, `remove` and
/// `remove_classroom` change them.
pub open spec fn after_event(v: Seq<SessionView>, e: RosterEvent) -> Seq<SessionView> {
    match e {
        RosterEvent::Admit { connection_id, student_id, classroom_id, seat, nickname } => if seat_taken(
            v,
            classroom_id,
            seat,
        ) {
            v
        } else {
            joined(v, admitted_session(connection_id, student_id, classroom_id, seat, nickname))
        },
        RosterEvent::Leave { connection_id } => removed(v, connection_id),
        RosterEvent::ForceLogout { classroom_id } => outside_classroom(v, classroom_id),
    }
}

/// The entries after the events `events`, in order, from an empty roster.
pub open spec fn after_events(events: Seq<RosterEvent>) -> Seq<SessionView>
    decreases events.len(),
{
    if events.len() == 0 {
        Seq::empty()
    } else {
        after_event(after_events(events.drop_last()), events.last())
    }
}

/// Removing a connection keeps seats unique.
proof fn lemma_removed_seats(v: Seq<SessionView>, id: Seq<char>)
    requires
        unique_seats(v),
    ensures
        unique_seats(removed(v, id)),
{
    if has_connection(v, id) {
        let k = connection_index(v, id);
        let w = removed(v, id);
        assert(w == v.remove(k));
        assert forall|a: int, b: int|
            0 <= a < w.len() && 0 <= b < w.len() && a != b && (#[trigger] w[a]).classroom_id == (
            #[trigger] w[b]).classroom_id implies w[a].seat_no_text != w[b].seat_no_text by {
            let ia = if a < k {
                a
            } else {
                a + 1
            };
            let ib = if b < k {
                b
            } else {
                b + 1
            };
            assert(w[a] == v[ia]);
            assert(w[b] == v[ib]);
        }
    }
}

/// Dropping a classroom keeps seats unique.
proof fn lemma_outside_seats(v: Seq<SessionView>, classroom_id: i64)
    requires
        unique_seats(v),
    ensures
        unique_seats(outside_classroom(v, classroom_id)),
    decreases v.len(),
{
    if v.len() > 0 {
        let d = v.drop_last();
        let n = v.len() - 1;
        assert forall|a: int, b: int|
            0 <= a < d.len() && 0 <= b < d.len() && a != b && (#[trigger] d[a]).classroom_id == (
            #[trigger] d[b]).classroom_id implies d[a].seat_no_text != d[b].seat_no_text by {
            assert(d[a] == v[a] && d[b] == v[b]);
        }
        lemma_outside_seats(d, classroom_id);
        lemma_outside_classroom_origin(d, classroom_id);
        let rest = outside_classroom(d, classroom_id);
        let w = outside_classroom(v, classroom_id);
        if v.last().classroom_id != classroom_id {
            assert(w == rest.push(v.last()));
            assert forall|a: int, b: int|
                0 <= a < w.len() && 0 <= b < w.len() && a != b && (#[trigger] w[a]).classroom_id == (
                #[trigger] w[b]).classroom_id implies w[a].seat_no_text != w[b].seat_no_text by {
                if a < rest.len() && b < rest.len() {
                    assert(w[a] == rest[a] && w[b] == rest[b]);
                } else if a < rest.len() {
                    assert(w[a] == rest[a]);
                    let j = choose|j: int| 0 <= j < d.len() && d[j] == #[trigger] rest[a];
                    assert(v[j] == d[j]);
                    assert(w[b] == v[n]);
                } else {
                    assert(w[b] == rest[b]);
                    let j = choose|j: int| 0 <= j < d.len() && d[j] == #[trigger] rest[b];
                    assert(v[j] == d[j]);
                    assert(w[a] == v[n]);
                }
            }
        }
    }
}

/// Whatever joins, leaves and forced logouts happen, in whatever order,
/// no two connections share an id and no two students of a classroom are
/// connected on the same seat.
pub proof fn law_seats_stay_unique(events: Seq<RosterEvent>)
    ensures
        unique_connections(after_events(events)),
        unique_seats(after_events(events)),
    decreases events.len(),
{
    if events.len() > 0 {
        let before = after_events(events.drop_last());
        law_seats_stay_unique(events.drop_last());
        match events.last() {
            RosterEvent::Admit { connection_id, student_id, classroom_id, seat, nickname } => {
                if !seat_taken(before, classroom_id, seat) {
                    let s = admitted_session(connection_id, student_id, classroom_id, seat, nickname);
                    lemma_joined_unique(before, s);
                    law_admission_keeps_seats_unique(
                        before,
                        connection_id,
                        student_id,
                        classroom_id,
                        seat,
                        nickname,
                    );
                }
            },
            RosterEvent::Leave { connection_id } => {
                lemma_removed_unique(before, connection_id);
                lemma_removed_seats(before, connection_id);
            },
            RosterEvent::ForceLogout { classroom_id } => {
                lemma_outside_classroom_unique(before, classroom_id);
                lemma_outside_seats(before, classroom_id);
            },
        }
    }
}

} // verus!
