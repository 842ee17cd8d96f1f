use std::collections::BTreeMap;

use song_class::api::ApiStatus;
use song_class::roster::NormalizedMember;
use song_class::roster_save::{plan_roster_save, RosterWrite, StudentRow};

fn row(id: i64, seat: &str, nickname: &str) -> StudentRow {
    StudentRow { id, seat_no_text: seat.to_string(), nickname: nickname.to_string() }
}

fn member(id: Option<i64>, seat: &str, nickname: &str) -> NormalizedMember {
    NormalizedMember { id, seat_no_text: seat.to_string(), nickname: nickname.to_string() }
}

/// Applies the writes as a table with unique seats would; `None` when a
/// write would give two students one seat.
fn apply(existing: &[StudentRow], writes: &[RosterWrite]) -> Option<(BTreeMap<i64, (String, String)>, Vec<(String, String)>)> {
    let mut rows: BTreeMap<i64, (String, String)> =
        existing.iter().map(|r| (r.id, (r.seat_no_text.clone(), r.nickname.clone()))).collect();
    let mut added: Vec<(String, String)> = Vec::new();
    for w in writes {
        match w {
            RosterWrite::Delete { id } => {
                rows.remove(id);
            }
            RosterWrite::Update { id, seat_no_text, nickname } => {
                if rows.contains_key(id) {
                    rows.insert(*id, (seat_no_text.clone(), nickname.clone()));
                }
            }
            RosterWrite::Insert { seat_no_text, nickname } => added.push((seat_no_text.clone(), nickname.clone())),
        }
        let mut seats: Vec<&String> = rows.values().map(|v| &v.0).chain(added.iter().map(|v| &v.0)).collect();
        let n = seats.len();
        seats.sort();
        seats.dedup();
        if seats.len() != n {
            return None;
        }
    }
    Some((rows, added))
}

#[test]
fn roster_save_lets_two_students_swap_seats() {
    let existing = vec![row(1, "01", "甲"), row(2, "02", "乙"), row(3, "03", "丙")];
    let members = vec![member(Some(1), "02", "甲"), member(Some(2), "01", "乙乙"), member(None, "04", "丁")];
    let writes = plan_roster_save(&existing, &members).unwrap();
    let (rows, added) = apply(&existing, &writes).expect("no write repeats a seat");
    let expected: BTreeMap<i64, (String, String)> = [
        (1, ("02".to_string(), "甲".to_string())),
        (2, ("01".to_string(), "乙乙".to_string())),
    ]
    .into_iter()
    .collect();
    assert_eq!(rows, expected);
    assert_eq!(added, vec![("04".to_string(), "丁".to_string())]);
}

#[test]
fn roster_save_keeps_seats_apart_from_untrimmed_old_seats() {
    let existing = vec![row(1, "  ", "a"), row(2, "   ", "b"), row(3, "x", "c")];
    let members = vec![member(Some(2), "x", "b"), member(Some(1), "y", "a")];
    let writes = plan_roster_save(&existing, &members).unwrap();
    let (rows, added) = apply(&existing, &writes).expect("no write repeats a seat");
    assert_eq!(rows.len(), 2);
    assert_eq!(rows[&2], ("x".to_string(), "b".to_string()));
    assert_eq!(rows[&1], ("y".to_string(), "a".to_string()));
    assert!(added.is_empty());
}

#[test]
fn roster_save_refuses_unknown_students() {
    let existing = vec![row(1, "01", "")];
    let members = vec![member(Some(9), "01", "")];
    let e = plan_roster_save(&existing, &members).unwrap_err();
    assert_eq!(e.status, ApiStatus::NotFound);
    assert_eq!(e.message, "指定學生不存在");
}

#[test]
fn roster_save_of_nothing_deletes_everyone() {
    let existing = vec![row(1, "01", ""), row(2, "02", "")];
    let writes = plan_roster_save(&existing, &Vec::new()).unwrap();
    let (rows, added) = apply(&existing, &writes).unwrap();
    assert!(rows.is_empty() && added.is_empty());
}

#[test]
fn roster_save_of_a_student_named_twice_ends_as_the_last_row_asks() {
    let existing = vec![row(1, "01", "甲"), row(2, "02", "乙")];
    let members = vec![member(Some(1), "03", "甲一"), member(Some(2), "02", "乙"), member(Some(1), "05", "甲二")];
    let writes = plan_roster_save(&existing, &members).unwrap();
    let (rows, added) = apply(&existing, &writes).expect("no write repeats a seat");
    let expected: BTreeMap<i64, (String, String)> = [
        (1, ("05".to_string(), "甲二".to_string())),
        (2, ("02".to_string(), "乙".to_string())),
    ]
    .into_iter()
    .collect();
    assert_eq!(rows, expected);
    assert!(added.is_empty());
}
