use backend::booking::{approve, date_filter, delete, filter_between, get, list, patch, post, AuthPolicy, BookingError, Database};
use backend::models::{NewReservation, Reservation, Role, UpdateReservation, User, NORTH, NO_ROOM, SOUTH, WHOLE};
use backend::time::{parse_timestamp, Timestamp};

const DAY: i64 = 1576108800; // 2019-12-12T00:00:00Z

fn at(h: i64, m: i64) -> Timestamp {
    Timestamp::new(DAY + h * 3600 + m * 60, 0)
}

fn user(email: &str, role: Role) -> User {
    User { name: "someone".to_string(), email: email.to_string(), role }
}

fn proposal(name: &str, rooms: u8, begin: Timestamp, end: Timestamp) -> NewReservation {
    NewReservation {
        name: name.to_string(),
        description: format!("{} stuff", name),
        rooms,
        begin_time: begin,
        end_time: end,
        layout: 0,
        people: 30,
    }
}

fn no_change() -> UpdateReservation {
    UpdateReservation { name: None, description: None, rooms: None, begin_time: None, end_time: None, layout: None, people: None }
}

#[test]
pub fn test_booking() {
    let mut db = Database::new(AuthPolicy::OwnerOrApprover);
    let usr = user("hozdic", Role::Noob);
    assert!(list(&db).is_empty());
    let id = post(proposal("test", WHOLE, at(12, 30), at(13, 25)), &mut db, &usr).unwrap();
    assert_eq!(id, 1);
    assert!(get(1, &db).is_some());
    assert_eq!(delete(1, &mut db, &usr), Ok(()));
    assert!(list(&db).is_empty());
}

#[test]
fn create_then_get_returns_input_with_author_and_no_approval() {
    let mut db = Database::new(AuthPolicy::OwnerOrApprover);
    let usr = user("a@example.org", Role::Noob);
    let p = proposal("talk", NORTH, at(10, 0), at(11, 0));
    let id = post(p.clone(), &mut db, &usr).unwrap();
    let r = get(id, &db).unwrap();
    assert_eq!(
        r,
        Reservation {
            name: p.name,
            description: p.description,
            author: "a@example.org".to_string(),
            rooms: NORTH,
            begin_time: at(10, 0),
            end_time: at(11, 0),
            layout: 0,
            approved: false,
            people: 30,
        }
    );
}

#[test]
fn ids_are_fresh_and_ascending() {
    let mut db = Database::new(AuthPolicy::OwnerOrApprover);
    let usr = user("a", Role::Noob);
    let a = post(proposal("a", NORTH, at(8, 0), at(9, 0)), &mut db, &usr).unwrap();
    let b = post(proposal("b", NORTH, at(8, 0), at(9, 0)), &mut db, &usr).unwrap();
    assert_eq!((a, b), (1, 2));
    delete(b, &mut db, &usr).unwrap();
    let c = post(proposal("c", NORTH, at(8, 0), at(9, 0)), &mut db, &usr).unwrap();
    assert_eq!(c, 3);
    let ids: Vec<u64> = list(&db).iter().map(|x| x.0).collect();
    assert_eq!(ids, vec![1, 3]);
}

fn scenario() -> (Database, u64, u64, u64) {
    let mut db = Database::new(AuthPolicy::OwnerOrApprover);
    let usr = user("u", Role::Noob);
    let boss = user("boss", Role::Approver);
    let a = post(proposal("A", NORTH, at(10, 0), at(11, 0)), &mut db, &usr).unwrap();
    let b = post(proposal("B", NORTH, at(10, 30), at(11, 30)), &mut db, &usr).unwrap();
    assert_eq!(approve(a, &mut db, &boss), Ok(true));
    assert!(get(a, &db).unwrap().approved);
    assert_eq!(approve(b, &mut db, &boss), Ok(false));
    assert!(!get(b, &db).unwrap().approved);
    let c = post(proposal("C", SOUTH, at(10, 0), at(11, 0)), &mut db, &usr).unwrap();
    assert_eq!(approve(c, &mut db, &boss), Ok(true));
    assert!(get(c, &db).unwrap().approved);
    (db, a, b, c)
}

#[test]
fn overlapping_approval_is_declined() {
    let (db, _a, b, _c) = scenario();
    assert!(!get(b, &db).unwrap().approved);
}

#[test]
fn other_room_approval_succeeds() {
    let (db, a, _b, c) = scenario();
    assert!(get(a, &db).unwrap().approved);
    assert!(get(c, &db).unwrap().approved);
}

#[test]
fn filter_matches_room_mask_exactly() {
    let (db, a, _b, _c) = scenario();
    let r = filter_between(NORTH, at(9, 0), at(12, 0), &db);
    let ids: Vec<u64> = r.iter().map(|x| x.0).collect();
    // B begins within the window too; the filter does not look at approval
    assert_eq!(ids, vec![a, 2]);
    let r = filter_between(NORTH, at(9, 0), at(10, 15), &db);
    let ids: Vec<u64> = r.iter().map(|x| x.0).collect();
    assert_eq!(ids, vec![a]);
    assert!(filter_between(WHOLE, at(9, 0), at(12, 0), &db).is_empty());
}

#[test]
fn filter_bounds_are_inclusive() {
    let (db, a, _b, _c) = scenario();
    let r = filter_between(NORTH, at(10, 0), at(10, 0), &db);
    assert_eq!(r.len(), 1);
    assert_eq!(r[0].0, a);
}

#[test]
fn date_filter_reads_rfc3339() {
    let (db, a, _b, c) = scenario();
    let r = date_filter(NORTH, "2019-12-12T09:00:00Z", "2019-12-12T10:15:00Z", &db).unwrap();
    assert_eq!(r.iter().map(|x| x.0).collect::<Vec<u64>>(), vec![a]);
    // an offset of one hour: 11:15+01:00 is 10:15 UTC
    let r = date_filter(SOUTH, "2019-12-12T10:00:00+01:00", "2019-12-12T11:15:00+01:00", &db).unwrap();
    assert_eq!(r.iter().map(|x| x.0).collect::<Vec<u64>>(), vec![c]);
}

#[test]
fn date_filter_rejects_bad_time() {
    let (db, _a, _b, _c) = scenario();
    assert_eq!(date_filter(NORTH, "yesterday", "2019-12-12T10:15:00Z", &db), Err(BookingError::Validation));
    assert_eq!(date_filter(NORTH, "2019-12-12T09:00:00Z", "2019-12-12", &db), Err(BookingError::Validation));
}

#[test]
fn parse_timestamp_gives_utc_instant() {
    assert_eq!(parse_timestamp("2019-12-12T12:30:00Z"), Some(Timestamp::new(1576153800, 0)));
    assert_eq!(parse_timestamp("2019-12-12T12:30:00+01:00"), Some(Timestamp::new(1576150200, 0)));
    assert_eq!(parse_timestamp("2019-12-12T12:30:00.25Z"), Some(Timestamp::new(1576153800, 250_000_000)));
    assert_eq!(parse_timestamp("12:30"), None);
}

#[test]
fn touching_windows_conflict() {
    let mut db = Database::new(AuthPolicy::OwnerOrApprover);
    let usr = user("u", Role::Noob);
    let boss = user("boss", Role::Approver);
    let a = post(proposal("A", NORTH, at(10, 0), at(11, 0)), &mut db, &usr).unwrap();
    approve(a, &mut db, &boss).unwrap();
    assert_eq!(post(proposal("B", NORTH, at(11, 0), at(12, 0)), &mut db, &usr), Err(BookingError::Conflict));
    assert_eq!(post(proposal("B", WHOLE, at(9, 0), at(10, 0)), &mut db, &usr), Err(BookingError::Conflict));
    assert!(post(proposal("B", NORTH, at(11, 1), at(12, 0)), &mut db, &usr).is_ok());
    assert!(post(proposal("B", SOUTH, at(10, 0), at(11, 0)), &mut db, &usr).is_ok());
    assert!(post(proposal("B", NO_ROOM, at(10, 0), at(11, 0)), &mut db, &usr).is_ok());
    assert_eq!(list(&db).len(), 4);
}

#[test]
fn unapproved_bookings_never_block() {
    let mut db = Database::new(AuthPolicy::OwnerOrApprover);
    let usr = user("u", Role::Noob);
    post(proposal("A", WHOLE, at(10, 0), at(11, 0)), &mut db, &usr).unwrap();
    assert!(post(proposal("B", WHOLE, at(10, 0), at(11, 0)), &mut db, &usr).is_ok());
}

#[test]
fn edit_withdraws_approval_and_applies_present_fields() {
    let mut db = Database::new(AuthPolicy::OwnerOrApprover);
    let usr = user("u", Role::Noob);
    let boss = user("boss", Role::Approver);
    let a = post(proposal("A", NORTH, at(10, 0), at(11, 0)), &mut db, &usr).unwrap();
    approve(a, &mut db, &boss).unwrap();
    let mut u = no_change();
    u.name = Some("renamed".to_string());
    u.people = Some(7);
    assert_eq!(patch(a, u, &mut db, &usr), Ok(()));
    let r = get(a, &db).unwrap();
    assert!(!r.approved);
    assert_eq!(r.name, "renamed");
    assert_eq!(r.people, 7);
    assert_eq!(r.description, "A stuff");
    assert_eq!(r.author, "u");
    assert_eq!(r.rooms, NORTH);
    // an empty edit still withdraws approval
    approve(a, &mut db, &boss).unwrap();
    assert!(get(a, &db).unwrap().approved);
    assert_eq!(patch(a, no_change(), &mut db, &boss), Ok(()));
    assert!(!get(a, &db).unwrap().approved);
}

#[test]
fn edit_and_delete_errors() {
    let mut db = Database::new(AuthPolicy::OwnerOrApprover);
    let usr = user("u", Role::Noob);
    let other = user("v", Role::Noob);
    let boss = user("boss", Role::Approver);
    let a = post(proposal("A", NORTH, at(10, 0), at(11, 0)), &mut db, &usr).unwrap();
    assert_eq!(patch(9, no_change(), &mut db, &usr), Err(BookingError::NotFound));
    assert_eq!(delete(9, &mut db, &usr), Err(BookingError::NotFound));
    assert_eq!(patch(a, no_change(), &mut db, &other), Err(BookingError::Forbidden));
    assert_eq!(delete(a, &mut db, &other), Err(BookingError::Forbidden));
    assert_eq!(delete(a, &mut db, &boss), Ok(()));
    assert_eq!(get(a, &db), None);
}

#[test]
fn owner_and_approver_policy() {
    let mut db = Database::new(AuthPolicy::OwnerAndApprover);
    let usr = user("u", Role::Noob);
    let boss = user("boss", Role::Approver);
    let owner_boss = user("u", Role::Approver);
    let a = post(proposal("A", NORTH, at(10, 0), at(11, 0)), &mut db, &usr).unwrap();
    assert_eq!(patch(a, no_change(), &mut db, &usr), Err(BookingError::Forbidden));
    assert_eq!(delete(a, &mut db, &boss), Err(BookingError::Forbidden));
    assert_eq!(patch(a, no_change(), &mut db, &owner_boss), Ok(()));
    assert_eq!(delete(a, &mut db, &owner_boss), Ok(()));
}

#[test]
fn approve_errors() {
    let mut db = Database::new(AuthPolicy::OwnerOrApprover);
    let usr = user("u", Role::Noob);
    let boss = user("boss", Role::Approver);
    let a = post(proposal("A", NORTH, at(10, 0), at(11, 0)), &mut db, &usr).unwrap();
    assert_eq!(approve(a, &mut db, &usr), Err(BookingError::Forbidden));
    assert_eq!(approve(a + 1, &mut db, &boss), Err(BookingError::NotFound));
    assert!(!get(a, &db).unwrap().approved);
    // approving twice keeps it approved: a record never blocks itself
    assert_eq!(approve(a, &mut db, &boss), Ok(true));
    assert_eq!(approve(a, &mut db, &boss), Ok(true));
}

#[test]
fn delete_removes_from_get_list_and_filter() {
    let (mut db, a, _b, _c) = scenario();
    let boss = user("boss", Role::Approver);
    assert_eq!(delete(a, &mut db, &boss), Ok(()));
    assert_eq!(get(a, &db), None);
    assert!(list(&db).iter().all(|x| x.0 != a));
    assert!(filter_between(NORTH, at(9, 0), at(12, 0), &db).iter().all(|x| x.0 != a));
    // with A gone, B can now be approved
    assert_eq!(approve(2, &mut db, &boss), Ok(true));
}

#[test]
fn restore_accepts_saved_store() {
    let (db, a, b, c) = scenario();
    let rows = list(&db);
    let again = Database::restore(rows.clone(), db.upcoming_id(), AuthPolicy::OwnerOrApprover).unwrap();
    assert_eq!(list(&again), rows);
    assert_eq!(again.upcoming_id(), 4);
    assert!(get(a, &again).unwrap().approved);
    assert!(!get(b, &again).unwrap().approved);
    assert!(get(c, &again).unwrap().approved);
}

#[test]
fn restore_rejects_broken_rows() {
    let (db, _a, _b, _c) = scenario();
    let rows = list(&db);
    assert!(Database::restore(rows.clone(), 0, AuthPolicy::OwnerOrApprover).is_none());
    assert!(Database::restore(rows.clone(), 3, AuthPolicy::OwnerOrApprover).is_none());
    let mut swapped = rows.clone();
    swapped.swap(0, 1);
    assert!(Database::restore(swapped, 4, AuthPolicy::OwnerOrApprover).is_none());
    let mut clashing = rows.clone();
    clashing[1].1.approved = true;
    assert!(Database::restore(clashing, 4, AuthPolicy::OwnerOrApprover).is_none());
    let mut apart = rows;
    apart[1].1.begin_time = at(11, 0);
    apart[1].1.end_time = at(12, 0);
    apart[1].1.approved = true;
    assert!(Database::restore(apart.clone(), 4, AuthPolicy::OwnerOrApprover).is_none());
    apart[1].1.begin_time = at(11, 1);
    assert!(Database::restore(apart, 4, AuthPolicy::OwnerOrApprover).is_some());
}

#[test]
fn exhausted_ids_refuse_bookings() {
    let db = Database::restore(Vec::new(), u64::MAX, AuthPolicy::OwnerOrApprover).unwrap();
    let mut db = db;
    let usr = user("u", Role::Noob);
    assert_eq!(post(proposal("A", NORTH, at(10, 0), at(11, 0)), &mut db, &usr), Err(BookingError::StoreUnavailable));
    assert!(list(&db).is_empty());
}
