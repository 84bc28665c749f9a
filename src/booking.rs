//! The reservation store and the workflow on it: booking, editing, deleting,
//! approving and filtering.
use vstd::prelude::*;
use crate::conflict::{blocks, clash, conflict_in, has_conflict, lemma_clash_symmetric};
use crate::models::{apply_update, from_new, NewReservation, Reservation, Role, UpdateReservation, User};
use crate::time::{parse_timestamp, rfc3339_instant, timestamp_of, Timestamp};

verus! {

/// Who may edit or delete a reservation.
#[derive(Clone, Copy, Debug, PartialEq, Eq, Structural)]
pub enum AuthPolicy {
    /// Its author, or any approver.
    OwnerOrApprover,
    /// Only its author, and only while holding the approver role.
    OwnerAndApprover,
}

/// Why an operation was refused.
#[derive(Clone, Copy, Debug, PartialEq, Eq, Structural)]
pub enum BookingError {
    /// No reservation has the id.
    NotFound,
    /// The caller may not do this.
    Forbidden,
    /// An approved reservation shares a room and an instant with the booking.
    Conflict,
    /// An input could not be read, such as a malformed timestamp.
    Validation,
    /// The store cannot take the change: its identifiers are used up.
    StoreUnavailable,
}

/// The caller may edit or delete `r` under the policy.
pub open spec fn may_modify(policy: AuthPolicy, r: Reservation, usr: User) -> bool {
    let owner = r.author@ == usr.email@;
    let approver = usr.role == Role::Approver;
    match policy {
        AuthPolicy::OwnerOrApprover => owner || approver,
        AuthPolicy::OwnerAndApprover => owner && approver,
    }
}

/// `r`, approved.
pub open spec fn with_approval(r: Reservation) -> Reservation {
    Reservation { approved: true, ..r }
}

/// Identifiers strictly ascend along the rows, so each occurs once.
pub open spec fn ids_ascending(s: Seq<(u64, Reservation)>) -> bool {
    forall|a: int, b: int| 0 <= a < b < s.len() ==> #[trigger] s[a].0 < #[trigger] s[b].0
}

/// No two distinct approved rows share a room and an instant.
pub open spec fn approved_apart(s: Seq<(u64, Reservation)>) -> bool {
    forall|a: int, b: int|
        0 <= a < s.len() && 0 <= b < s.len() && a != b && #[trigger] s[a].1.approved
            && #[trigger] s[b].1.approved ==> !clash(s[a].1, s[b].1)
}

/// The rows as a map from identifier to reservation.
pub open spec fn map_of(s: Seq<(u64, Reservation)>) -> Map<u64, Reservation> {
    Map::new(
        |k: u64| exists|i: int| 0 <= i < s.len() && #[trigger] s[i].0 == k,
        |k: u64| s[choose|i: int| 0 <= i < s.len() && #[trigger] s[i].0 == k].1,
    )
}

/// The rows that match `rooms` exactly and begin within `[begin, end]`.
pub open spec fn matches_filter(r: Reservation, rooms: u8, begin: Timestamp, end: Timestamp) -> bool {
    r.rooms == rooms && begin.le(r.begin_time) && r.begin_time.le(end)
}

/// The rows, in order, that pass the filter.
pub open spec fn select(s: Seq<(u64, Reservation)>, rooms: u8, begin: Timestamp, end: Timestamp) -> Seq<
    (u64, Reservation),
>
    decreases s.len(),
{
    if s.len() == 0 {
        Seq::empty()
    } else {
        let rest = select(s.drop_last(), rooms, begin, end);
        if matches_filter(s.last().1, rooms, begin, end) {
            rest.push(s.last())
        } else {
            rest
        }
    }
}

/// The reservation store: rows keyed by identifiers that it hands out itself.
pub struct Database {
    entries: Vec<(u64, Reservation)>,
    next_id: u64,
    policy: AuthPolicy,
}

impl Database {
    /// The rows, in ascending order of identifier.
    pub closed spec fn rows(self) -> Seq<(u64, Reservation)> {
        self.entries@
    }

    /// The identifier that the next booking will get.
    pub closed spec fn next_id(self) -> u64 {
        self.next_id
    }

    /// The policy that governs edits and deletions.
    pub closed spec fn policy(self) -> AuthPolicy {
        self.policy
    }

    /// The store's contents: identifier to reservation.
    pub open spec fn view(self) -> Map<u64, Reservation> {
        map_of(self.rows())
    }

    /// The invariant: unique ascending identifiers below the next one, and no
    /// two approved reservations that share a room and an instant.
    pub closed spec fn wf(self) -> bool {
        &&& ids_ascending(self.entries@)
        &&& forall|i: int| 0 <= i < self.entries@.len() ==> #[trigger] self.entries@[i].0 < self.next_id
        &&& approved_apart(self.entries@)
        &&& self.next_id >= 1
    }

    /// An approved reservation other than `exclude` shares a room with a
    /// booking of `rooms` over `[begin, end]`.
    pub open spec fn conflicts(self, rooms: u8, begin: Timestamp, end: Timestamp, exclude: Option<u64>) -> bool {
        exists|k: u64| self@.contains_key(k) && #[trigger] blocks(k, self@[k], rooms, begin, end, exclude)
    }

    /// An empty store whose first booking gets identifier 1.
    pub fn new(policy: AuthPolicy) -> (r: Database)
        ensures
            r.wf(),
            r@ == Map::<u64, Reservation>::empty(),
            r.rows().len() == 0,
            r.policy() == policy,
            r.next_id() == 1,
    {
        let r = Database { entries: Vec::new(), next_id: 1, policy };
        assert(r@ =~= Map::<u64, Reservation>::empty());
        r
    }

    /// The identifier that the next booking will get.
    pub fn upcoming_id(&self) -> (r: u64)
        ensures
            r == self.next_id(),
    {
        self.next_id
    }

    /// The index of the row with `id`, if there is one.
    fn position(&self, id: u64) -> (r: Option<usize>)
        requires
            self.wf(),
        ensures
            match r {
                Some(i) => i < self.rows().len() && self.rows()[i as int].0 == id && self@.contains_key(id)
                    && self@[id] == self.rows()[i as int].1,
                None => !self@.contains_key(id),
            },
    {
        let mut i: usize = 0;
        while i < self.entries.len()
            invariant
                self.wf(),
                0 <= i <= self.entries@.len(),
                forall|j: int| 0 <= j < i ==> #[trigger] self.entries@[j].0 != id,
            decreases self.entries@.len() - i,
        {
            if self.entries[i].0 == id {
                proof {
                    lemma_map_of_at(self.entries@, i as int);
                }
                return Some(i);
            }
            i = i + 1;
        }
        None
    }
}

/// Each row stands in the map under its identifier.
proof fn lemma_map_of_at(s: Seq<(u64, Reservation)>, i: int)
    requires
        ids_ascending(s),
        0 <= i < s.len(),
    ensures
        map_of(s).contains_key(s[i].0),
        map_of(s)[s[i].0] == s[i].1,
{
    let k = s[i].0;
    assert(exists|j: int| 0 <= j < s.len() && #[trigger] s[j].0 == k);
    let j = choose|j: int| 0 <= j < s.len() && #[trigger] s[j].0 == k;
    if j < i {
        assert(s[j].0 < s[i].0);
    } else if i < j {
        assert(s[i].0 < s[j].0);
    }
}

/// A row blocks a booking exactly when an entry of the map does.
proof fn lemma_conflict_in_map(
    s: Seq<(u64, Reservation)>,
    rooms: u8,
    begin: Timestamp,
    end: Timestamp,
    exclude: Option<u64>,
)
    requires
        ids_ascending(s),
    ensures
        conflict_in(s, rooms, begin, end, exclude) == exists|k: u64|
            map_of(s).contains_key(k) && #[trigger] blocks(k, map_of(s)[k], rooms, begin, end, exclude),
{
    if conflict_in(s, rooms, begin, end, exclude) {
        let i = choose|i: int| 0 <= i < s.len() && #[trigger] blocks(s[i].0, s[i].1, rooms, begin, end, exclude);
        lemma_map_of_at(s, i);
        assert(blocks(s[i].0, map_of(s)[s[i].0], rooms, begin, end, exclude));
    }
    if exists|k: u64| map_of(s).contains_key(k) && #[trigger] blocks(k, map_of(s)[k], rooms, begin, end, exclude) {
        let k = choose|k: u64| map_of(s).contains_key(k) && #[trigger] blocks(k, map_of(s)[k], rooms, begin, end, exclude);
        let i = lemma_map_of_key(s, k);
        assert(blocks(s[i].0, s[i].1, rooms, begin, end, exclude));
    }
}

/// The store's conflicts are those of its rows.
proof fn lemma_conflicts_rows(db: Database, rooms: u8, begin: Timestamp, end: Timestamp, exclude: Option<u64>)
    requires
        db.wf(),
    ensures
        db.conflicts(rooms, begin, end, exclude) == conflict_in(db.entries@, rooms, begin, end, exclude),
{
    let s = db.entries@;
    lemma_conflict_in_map(s, rooms, begin, end, exclude);
    assert(db@ == map_of(s));
    if db.conflicts(rooms, begin, end, exclude) {
        let k = choose|k: u64| db@.contains_key(k) && #[trigger] blocks(k, db@[k], rooms, begin, end, exclude);
        assert(map_of(s).contains_key(k) && blocks(k, map_of(s)[k], rooms, begin, end, exclude));
    }
    if conflict_in(s, rooms, begin, end, exclude) {
        let k = choose|k: u64| map_of(s).contains_key(k) && #[trigger] blocks(k, map_of(s)[k], rooms, begin, end, exclude);
        assert(db@.contains_key(k) && blocks(k, db@[k], rooms, begin, end, exclude));
    }
}

/// Each key of the map is the identifier of some row.
proof fn lemma_map_of_key(s: Seq<(u64, Reservation)>, k: u64) -> (i: int)
    requires
        ids_ascending(s),
        map_of(s).contains_key(k),
    ensures
        0 <= i < s.len(),
        s[i].0 == k,
        map_of(s)[k] == s[i].1,
{
    let i = choose|i: int| 0 <= i < s.len() && #[trigger] s[i].0 == k;
    lemma_map_of_at(s, i);
    i
}

/// The reservation with `id`, if the store holds one.
pub fn get(id: u64, db: &Database) -> (r: Option<Reservation>)
    requires
        db.wf(),
    ensures
        r == (if db@.contains_key(id) { Some(db@[id]) } else { None::<Reservation> }),
{
    match db.position(id) {
        Some(i) => Some(db.entries[i].1.duplicate()),
        None => None,
    }
}

/// All reservations with their identifiers, in ascending order of identifier.
pub fn list(db: &Database) -> (r: Vec<(u64, Reservation)>)
    requires
        db.wf(),
    ensures
        r@ == db.rows(),
        ids_ascending(r@),
        map_of(r@) == db@,
{
    let mut out: Vec<(u64, Reservation)> = Vec::new();
    let mut i: usize = 0;
    while i < db.entries.len()
        invariant
            0 <= i <= db.entries@.len(),
            out@ == db.entries@.subrange(0, i as int),
        decreases db.entries@.len() - i,
    {
        let row = (db.entries[i].0, db.entries[i].1.duplicate());
        out.push(row);
        i = i + 1;
        assert(out@ =~= db.entries@.subrange(0, i as int));
    }
    assert(out@ =~= db.entries@);
    out
}


/// Appending a row under a new, larger identifier adds it to the map.
proof fn lemma_map_of_push(s: Seq<(u64, Reservation)>, x: (u64, Reservation))
    requires
        ids_ascending(s.push(x)),
    ensures
        map_of(s.push(x)) == map_of(s).insert(x.0, x.1),
        !map_of(s).contains_key(x.0),
{
    let t = s.push(x);
    assert(ids_ascending(s)) by {
        assert forall|a: int, b: int| 0 <= a < b < s.len() implies #[trigger] s[a].0 < #[trigger] s[b].0 by {
            assert(t[a] == s[a] && t[b] == s[b]);
        }
    }
    if map_of(s).contains_key(x.0) {
        let i = lemma_map_of_key(s, x.0);
        assert(t[i].0 < t[s.len() as int].0);
    }
    assert forall|k: u64| #[trigger] map_of(t).contains_key(k) == map_of(s).insert(x.0, x.1).contains_key(k) by {
        if map_of(t).contains_key(k) {
            let i = lemma_map_of_key(t, k);
            if i < s.len() {
                assert(s[i].0 == k);
            }
        }
        if map_of(s).contains_key(k) {
            let i = lemma_map_of_key(s, k);
            assert(t[i].0 == k);
        }
        if k == x.0 {
            assert(t[s.len() as int].0 == k);
        }
    }
    assert forall|k: u64| #[trigger] map_of(t).contains_key(k) implies map_of(t)[k] == map_of(s).insert(x.0, x.1)[k] by {
        let i = lemma_map_of_key(t, k);
        if i < s.len() {
            assert(t[i] == s[i]);
            lemma_map_of_at(s, i);
        }
    }
    assert(map_of(t) =~= map_of(s).insert(x.0, x.1));
}

/// Replacing the reservation of a row, under the same identifier, replaces it
/// in the map.
proof fn lemma_map_of_update(s: Seq<(u64, Reservation)>, i: int, v: Reservation)
    requires
        ids_ascending(s),
        0 <= i < s.len(),
    ensures
        ids_ascending(s.update(i, (s[i].0, v))),
        map_of(s.update(i, (s[i].0, v))) == map_of(s).insert(s[i].0, v),
{
    let t = s.update(i, (s[i].0, v));
    assert(ids_ascending(t)) by {
        assert forall|a: int, b: int| 0 <= a < b < t.len() implies #[trigger] t[a].0 < #[trigger] t[b].0 by {
            assert(s[a].0 < s[b].0);
        }
    }
    assert forall|k: u64| #[trigger] map_of(t).contains_key(k) == map_of(s).insert(s[i].0, v).contains_key(k) by {
        if map_of(t).contains_key(k) {
            let j = lemma_map_of_key(t, k);
            assert(s[j].0 == k);
        }
        if map_of(s).contains_key(k) {
            let j = lemma_map_of_key(s, k);
            assert(t[j].0 == k);
        }
        if k == s[i].0 {
            assert(t[i].0 == k);
        }
    }
    assert forall|k: u64| #[trigger] map_of(t).contains_key(k) implies map_of(t)[k] == map_of(s).insert(s[i].0, v)[k] by {
        let j = lemma_map_of_key(t, k);
        if j != i {
            assert(t[j] == s[j]);
            lemma_map_of_at(s, j);
        }
    }
    assert(map_of(t) =~= map_of(s).insert(s[i].0, v));
}

/// Removing a row removes its identifier from the map.
proof fn lemma_map_of_remove(s: Seq<(u64, Reservation)>, i: int)
    requires
        ids_ascending(s),
        0 <= i < s.len(),
    ensures
        ids_ascending(s.remove(i)),
        map_of(s.remove(i)) == map_of(s).remove(s[i].0),
{
    let t = s.remove(i);
    assert forall|j: int| 0 <= j < t.len() implies #[trigger] t[j] == (if j < i { s[j] } else { s[j + 1] }) by {}
    assert(ids_ascending(t)) by {
        assert forall|a: int, b: int| 0 <= a < b < t.len() implies #[trigger] t[a].0 < #[trigger] t[b].0 by {
            let a2 = if a < i { a } else { a + 1 };
            let b2 = if b < i { b } else { b + 1 };
            assert(t[a] == s[a2]);
            assert(t[b] == s[b2]);
            assert(s[a2].0 < s[b2].0);
        }
    }
    assert forall|k: u64| #[trigger] map_of(t).contains_key(k) == map_of(s).remove(s[i].0).contains_key(k) by {
        if map_of(t).contains_key(k) {
            let j = lemma_map_of_key(t, k);
            let j2 = if j < i { j } else { j + 1 };
            assert(t[j] == s[j2]);
            assert(s[j2].0 == k);
            if j2 < i {
                assert(s[j2].0 < s[i].0);
            } else {
                assert(s[i].0 < s[j2].0);
            }
        }
        if map_of(s).contains_key(k) && k != s[i].0 {
            let j = lemma_map_of_key(s, k);
            assert(j != i);
            if j < i {
                assert(t[j] == s[j]);
                assert(t[j].0 == k);
            } else {
                assert(t[j - 1] == s[j]);
                assert(t[j - 1].0 == k);
            }
        }
    }
    assert forall|k: u64| #[trigger] map_of(t).contains_key(k) implies map_of(t)[k] == map_of(s).remove(s[i].0)[k] by {
        let j = lemma_map_of_key(t, k);
        let j2 = if j < i { j } else { j + 1 };
        assert(t[j] == s[j2]);
        lemma_map_of_at(s, j2);
    }
    assert(map_of(t) =~= map_of(s).remove(s[i].0));
}

/// Books `input` for the caller as an unapproved reservation, unless an
/// approved one shares a room and an instant with it.
pub fn post(input: NewReservation, db: &mut Database, usr: &User) -> (r: Result<u64, BookingError>)
    requires
        old(db).wf(),
    ensures
        final(db).wf(),
        final(db).policy() == old(db).policy(),
        old(db).conflicts(input.rooms, input.begin_time, input.end_time, None) <==> r == Err::<u64, BookingError>(BookingError::Conflict),
        r == Err::<u64, BookingError>(BookingError::StoreUnavailable) <==> (!old(db).conflicts(input.rooms, input.begin_time, input.end_time, None)
            && old(db).next_id() == u64::MAX),
        r is Ok <==> (!old(db).conflicts(input.rooms, input.begin_time, input.end_time, None)
            && old(db).next_id() < u64::MAX),
        r is Err ==> *final(db) == *old(db),
        match r {
            Ok(id) => {
                &&& id == old(db).next_id()
                &&& !old(db)@.contains_key(id)
                &&& final(db)@ == old(db)@.insert(id, from_new(input, usr.email))
                &&& final(db).next_id() == id + 1
            },
            Err(_) => true,
        },
{
    proof {
        lemma_conflicts_rows(*db, input.rooms, input.begin_time, input.end_time, None);
    }
    if has_conflict(&db.entries, input.rooms, input.begin_time, input.end_time, None) {
        return Err(BookingError::Conflict);
    }
    if db.next_id == u64::MAX {
        return Err(BookingError::StoreUnavailable);
    }
    let id = db.next_id;
    let res = Reservation::from_new(input, usr.email.clone());
    proof {
        let s = db.entries@;
        let t = s.push((id, res));
        assert(ids_ascending(t)) by {
            assert forall|a: int, b: int| 0 <= a < b < t.len() implies #[trigger] t[a].0 < #[trigger] t[b].0 by {
                if b < s.len() {
                    assert(s[a].0 < s[b].0);
                } else {
                    assert(s[a].0 < id);
                }
            }
        }
        lemma_map_of_push(s, (id, res));
        assert(approved_apart(s));
        assert(approved_apart(t)) by {
            assert forall|a: int, b: int|
                0 <= a < t.len() && 0 <= b < t.len() && a != b && #[trigger] t[a].1.approved
                    && #[trigger] t[b].1.approved implies !clash(t[a].1, t[b].1) by {
                assert(t[s.len() as int] == (id, res));
                assert(!res.approved);
                assert(a < s.len() && b < s.len());
                assert(t[a] == s[a] && t[b] == s[b]);
                assert(s[a].1.approved && s[b].1.approved);
                assert(!clash(s[a].1, s[b].1));
            }
        }
    }
    db.entries.push((id, res));
    db.next_id = id + 1;
    Ok(id)
}

/// Applies the fields present in `input` to the reservation with `id` and
/// withdraws its approval, where the policy lets the caller edit it.
pub fn patch(id: u64, input: UpdateReservation, db: &mut Database, usr: &User) -> (r: Result<(), BookingError>)
    requires
        old(db).wf(),
    ensures
        final(db).wf(),
        final(db).policy() == old(db).policy(),
        final(db).next_id() == old(db).next_id(),
        r == Err::<(), BookingError>(BookingError::NotFound) <==> !old(db)@.contains_key(id),
        r == Err::<(), BookingError>(BookingError::Forbidden) <==> (old(db)@.contains_key(id)
            && !may_modify(old(db).policy(), old(db)@[id], *usr)),
        r is Ok <==> (old(db)@.contains_key(id) && may_modify(old(db).policy(), old(db)@[id], *usr)),
        r is Err ==> *final(db) == *old(db),
        r is Ok ==> final(db)@ == old(db)@.insert(id, apply_update(old(db)@[id], input)),
        r is Ok ==> !final(db)@[id].approved,
{
    let i = match db.position(id) {
        Some(i) => i,
        None => return Err(BookingError::NotFound),
    };
    if !may_modify_exec(db.policy, &db.entries[i].1, usr) {
        return Err(BookingError::Forbidden);
    }
    let new_res = db.entries[i].1.duplicate().updated(&input);
    proof {
        let s = db.entries@;
        lemma_map_of_update(s, i as int, new_res);
        let t = s.update(i as int, (s[i as int].0, new_res));
        assert(approved_apart(s));
        assert(!t[i as int].1.approved);
        assert(approved_apart(t)) by {
            assert forall|a: int, b: int|
                0 <= a < t.len() && 0 <= b < t.len() && a != b && #[trigger] t[a].1.approved
                    && #[trigger] t[b].1.approved implies !clash(t[a].1, t[b].1) by {
                assert(a != i && b != i);
                assert(t[a] == s[a] && t[b] == s[b]);
                assert(s[a].1.approved && s[b].1.approved);
            }
        }
        assert forall|j: int| 0 <= j < t.len() implies #[trigger] t[j].0 < db.next_id by {
            assert(t[j].0 == s[j].0);
        }
    }
    db.entries[i] = (id, new_res);
    Ok(())
}

/// Removes the reservation with `id`, where the policy lets the caller do so.
pub fn delete(id: u64, db: &mut Database, usr: &User) -> (r: Result<(), BookingError>)
    requires
        old(db).wf(),
    ensures
        final(db).wf(),
        final(db).policy() == old(db).policy(),
        final(db).next_id() == old(db).next_id(),
        r == Err::<(), BookingError>(BookingError::NotFound) <==> !old(db)@.contains_key(id),
        r == Err::<(), BookingError>(BookingError::Forbidden) <==> (old(db)@.contains_key(id)
            && !may_modify(old(db).policy(), old(db)@[id], *usr)),
        r is Ok <==> (old(db)@.contains_key(id) && may_modify(old(db).policy(), old(db)@[id], *usr)),
        r is Err ==> *final(db) == *old(db),
        r is Ok ==> final(db)@ == old(db)@.remove(id),
{
    let i = match db.position(id) {
        Some(i) => i,
        None => return Err(BookingError::NotFound),
    };
    if !may_modify_exec(db.policy, &db.entries[i].1, usr) {
        return Err(BookingError::Forbidden);
    }
    proof {
        let s = db.entries@;
        lemma_map_of_remove(s, i as int);
        let t = s.remove(i as int);
        assert forall|j: int| 0 <= j < t.len() implies #[trigger] t[j] == (if j < i { s[j] } else { s[j + 1] }) by {}
        assert(approved_apart(t)) by {
            assert forall|a: int, b: int|
                0 <= a < t.len() && 0 <= b < t.len() && a != b && #[trigger] t[a].1.approved
                    && #[trigger] t[b].1.approved implies !clash(t[a].1, t[b].1) by {
                let a2 = if a < i { a } else { a + 1 };
                let b2 = if b < i { b } else { b + 1 };
                assert(t[a] == s[a2] && t[b] == s[b2]);
                assert(s[a2].1.approved && s[b2].1.approved && a2 != b2);
            }
        }
        assert forall|j: int| 0 <= j < t.len() implies #[trigger] t[j].0 < db.next_id by {
            let j2 = if j < i { j } else { j + 1 };
            assert(t[j] == s[j2]);
        }
    }
    db.entries.remove(i);
    Ok(())
}

fn may_modify_exec(policy: AuthPolicy, r: &Reservation, usr: &User) -> (b: bool)
    ensures
        b == may_modify(policy, *r, *usr),
{
    let owner = r.author == usr.email;
    let approver = match usr.role {
        Role::Approver => true,
        Role::Noob => false,
    };
    match policy {
        AuthPolicy::OwnerOrApprover => owner || approver,
        AuthPolicy::OwnerAndApprover => owner && approver,
    }
}


/// Approves the reservation with `id` for a caller with the approver role.
/// Where an approved reservation other than this one shares a room and an
/// instant with it, nothing changes and the answer is `Ok(false)`: the
/// approval is declined without an error. `Ok(true)` means it is approved.
pub fn approve(id: u64, db: &mut Database, usr: &User) -> (r: Result<bool, BookingError>)
    requires
        old(db).wf(),
    ensures
        final(db).wf(),
        final(db).policy() == old(db).policy(),
        final(db).next_id() == old(db).next_id(),
        r == Err::<bool, BookingError>(BookingError::Forbidden) <==> usr.role != Role::Approver,
        r == Err::<bool, BookingError>(BookingError::NotFound) <==> (usr.role == Role::Approver
            && !old(db)@.contains_key(id)),
        (usr.role == Role::Approver && old(db)@.contains_key(id)) ==> r == Ok::<bool, BookingError>(
            !old(db).conflicts(old(db)@[id].rooms, old(db)@[id].begin_time, old(db)@[id].end_time, Some(id)),
        ),
        r != Ok::<bool, BookingError>(true) ==> *final(db) == *old(db),
        r == Ok::<bool, BookingError>(true) ==> final(db)@ == old(db)@.insert(id, with_approval(old(db)@[id])),
        r == Ok::<bool, BookingError>(false) ==> final(db)@[id].approved == old(db)@[id].approved,
{
    match usr.role {
        Role::Approver => {},
        Role::Noob => return Err(BookingError::Forbidden),
    }
    let i = match db.position(id) {
        Some(i) => i,
        None => return Err(BookingError::NotFound),
    };
    let rec = &db.entries[i].1;
    proof {
        lemma_conflicts_rows(*db, rec.rooms, rec.begin_time, rec.end_time, Some(id));
    }
    if has_conflict(&db.entries, rec.rooms, rec.begin_time, rec.end_time, Some(id)) {
        return Ok(false);
    }
    let mut new_res = db.entries[i].1.duplicate();
    new_res.approved = true;
    proof {
        let s = db.entries@;
        let ii = i as int;
        lemma_map_of_update(s, ii, new_res);
        let t = s.update(ii, (s[ii].0, new_res));
        assert(new_res == with_approval(s[ii].1));
        assert(t[ii].1 == with_approval(s[ii].1));
        assert(approved_apart(t)) by {
            assert forall|a: int, b: int|
                0 <= a < t.len() && 0 <= b < t.len() && a != b && #[trigger] t[a].1.approved
                    && #[trigger] t[b].1.approved implies !clash(t[a].1, t[b].1) by {
                if a == ii {
                    assert(t[b] == s[b]);
                    if b < ii { assert(s[b].0 < s[ii].0); } else { assert(s[ii].0 < s[b].0); }
                    assert(!blocks(s[b].0, s[b].1, s[ii].1.rooms, s[ii].1.begin_time, s[ii].1.end_time, Some(id)));
                    lemma_clash_symmetric(s[b].1, s[ii].1);
                    assert(clash(t[a].1, t[b].1) == clash(s[ii].1, s[b].1));
                } else if b == ii {
                    assert(t[a] == s[a]);
                    if a < ii { assert(s[a].0 < s[ii].0); } else { assert(s[ii].0 < s[a].0); }
                    assert(!blocks(s[a].0, s[a].1, s[ii].1.rooms, s[ii].1.begin_time, s[ii].1.end_time, Some(id)));
                    assert(clash(t[a].1, t[b].1) == clash(s[a].1, s[ii].1));
                } else {
                    assert(t[a] == s[a] && t[b] == s[b]);
                }
            }
        }
        assert forall|j: int| 0 <= j < t.len() implies #[trigger] t[j].0 < db.next_id by {
            assert(t[j].0 == s[j].0);
        }
        assert(new_res == with_approval(s[ii].1));
    }
    db.entries[i] = (id, new_res);
    Ok(true)
}

/// The reservations, in ascending order of identifier, whose room set is
/// exactly `rooms` and whose begin time lies within `[begin, end]`.
pub fn filter_between(rooms: u8, begin: Timestamp, end: Timestamp, db: &Database) -> (r: Vec<(u64, Reservation)>)
    ensures
        r@ == select(db.rows(), rooms, begin, end),
{
    let mut out: Vec<(u64, Reservation)> = Vec::new();
    let mut i: usize = 0;
    while i < db.entries.len()
        invariant
            0 <= i <= db.entries@.len(),
            out@ == select(db.entries@.subrange(0, i as int), rooms, begin, end),
        decreases db.entries@.len() - i,
    {
        let ghost sub = db.entries@.subrange(0, i as int + 1);
        proof {
            assert(sub.drop_last() =~= db.entries@.subrange(0, i as int));
            assert(sub.last() == db.entries@[i as int]);
        }
        let rec = &db.entries[i].1;
        if rec.rooms == rooms && begin.at_or_before(&rec.begin_time) && rec.begin_time.at_or_before(&end) {
            out.push((db.entries[i].0, rec.duplicate()));
        }
        i = i + 1;
    }
    assert(db.entries@.subrange(0, db.entries@.len() as int) =~= db.entries@);
    out
}

/// Filters as `filter_between` does, with the bounds given as RFC 3339 text;
/// a bound that does not parse is a `Validation` error.
pub fn date_filter(rooms: u8, begin_time: &str, end_time: &str, db: &Database) -> (r: Result<
    Vec<(u64, Reservation)>,
    BookingError,
>)
    ensures
        match r {
            Ok(v) => {
                &&& timestamp_of(rfc3339_instant(begin_time@)) is Some
                &&& timestamp_of(rfc3339_instant(end_time@)) is Some
                &&& v@ == select(
                    db.rows(),
                    rooms,
                    timestamp_of(rfc3339_instant(begin_time@))->Some_0,
                    timestamp_of(rfc3339_instant(end_time@))->Some_0,
                )
            },
            Err(e) => {
                &&& e == BookingError::Validation
                &&& (timestamp_of(rfc3339_instant(begin_time@)) is None || timestamp_of(
                    rfc3339_instant(end_time@),
                ) is None)
            },
        },
{
    let begin = match parse_timestamp(begin_time) {
        Some(t) => t,
        None => return Err(BookingError::Validation),
    };
    let end = match parse_timestamp(end_time) {
        Some(t) => t,
        None => return Err(BookingError::Validation),
    };
    Ok(filter_between(rooms, begin, end, db))
}

/// No two distinct approved reservations of a well-formed store share a room
/// and an instant; every operation keeps the store well formed.
pub proof fn lemma_approved_never_clash(db: Database, k1: u64, k2: u64)
    requires
        db.wf(),
        db@.contains_key(k1),
        db@.contains_key(k2),
        k1 != k2,
        db@[k1].approved,
        db@[k2].approved,
    ensures
        !clash(db@[k1], db@[k2]),
{
    let i = lemma_map_of_key(db.rows(), k1);
    let j = lemma_map_of_key(db.rows(), k2);
    assert(db.entries@[i].1.approved && db.entries@[j].1.approved);
}

/// A booking read back after it was made holds what was proposed, under the
/// given author, unapproved.
pub proof fn lemma_booking_reads_back(
    before: Database,
    after: Database,
    input: NewReservation,
    author: String,
    id: u64,
)
    requires
        after@ == before@.insert(id, from_new(input, author)),
    ensures
        after@.contains_key(id),
        after@[id].name == input.name,
        after@[id].description == input.description,
        after@[id].rooms == input.rooms,
        after@[id].begin_time == input.begin_time,
        after@[id].end_time == input.end_time,
        after@[id].layout == input.layout,
        after@[id].people == input.people,
        after@[id].author == author,
        !after@[id].approved,
{
}

/// After a deletion, the identifier is absent from the store, from every row
/// that `list` returns and from every filter's result.
pub proof fn lemma_deleted_is_gone(before: Database, after: Database, id: u64)
    requires
        after.wf(),
        after@ == before@.remove(id),
    ensures
        !after@.contains_key(id),
        forall|i: int| 0 <= i < after.rows().len() ==> #[trigger] after.rows()[i].0 != id,
        forall|rooms: u8, begin: Timestamp, end: Timestamp, j: int|
            0 <= j < select(after.rows(), rooms, begin, end).len() ==> #[trigger] select(
                after.rows(),
                rooms,
                begin,
                end,
            )[j].0 != id,
{
    assert(!after@.contains_key(id));
    assert forall|i: int| 0 <= i < after.rows().len() implies #[trigger] after.rows()[i].0 != id by {
        if after.rows()[i].0 == id {
            lemma_map_of_at(after.rows(), i);
        }
    }
    assert forall|rooms: u8, begin: Timestamp, end: Timestamp, j: int|
        0 <= j < select(after.rows(), rooms, begin, end).len() implies #[trigger] select(
            after.rows(),
            rooms,
            begin,
            end,
        )[j].0 != id by {
        lemma_select_avoids(after.rows(), id, rooms, begin, end);
    }
}

proof fn lemma_select_avoids(s: Seq<(u64, Reservation)>, id: u64, rooms: u8, begin: Timestamp, end: Timestamp)
    requires
        forall|i: int| 0 <= i < s.len() ==> #[trigger] s[i].0 != id,
    ensures
        forall|j: int| 0 <= j < select(s, rooms, begin, end).len() ==> #[trigger] select(s, rooms, begin, end)[j].0 != id,
    decreases s.len(),
{
    if s.len() > 0 {
        let p = s.drop_last();
        assert forall|i: int| 0 <= i < p.len() implies #[trigger] p[i].0 != id by {
            assert(p[i] == s[i]);
        }
        lemma_select_avoids(p, id, rooms, begin, end);
        assert(s.last() == s[s.len() - 1]);
        let q = select(p, rooms, begin, end);
        if matches_filter(s.last().1, rooms, begin, end) {
            assert(select(s, rooms, begin, end) == q.push(s.last()));
            assert forall|j: int| 0 <= j < q.len() + 1 implies #[trigger] q.push(s.last())[j].0 != id by {
                if j < q.len() {
                    assert(q.push(s.last())[j] == q[j]);
                }
            }
        } else {
            assert(select(s, rooms, begin, end) == q);
        }
    }
}


/// Saved rows and a next identifier from which a store may be rebuilt: they
/// meet the store's invariant.
pub open spec fn valid_saved(s: Seq<(u64, Reservation)>, next_id: u64) -> bool {
    &&& ids_ascending(s)
    &&& forall|i: int| 0 <= i < s.len() ==> #[trigger] s[i].0 < next_id
    &&& approved_apart(s)
    &&& next_id >= 1
}

impl Database {
    /// Rebuilds a store from saved rows and the identifier that the next
    /// booking is to get; `None` where they do not meet the invariant.
    pub fn restore(rows: Vec<(u64, Reservation)>, next_id: u64, policy: AuthPolicy) -> (r: Option<Database>)
        ensures
            r is Some <==> valid_saved(rows@, next_id),
            match r {
                Some(db) => {
                    &&& db.wf()
                    &&& db.rows() == rows@
                    &&& db.next_id() == next_id
                    &&& db.policy() == policy
                },
                None => true,
            },
    {
        if next_id == 0 {
            return None;
        }
        let ghost s = rows@;
        let mut i: usize = 0;
        while i < rows.len()
            invariant
                s == rows@,
                0 <= i <= s.len(),
                forall|a: int, b: int| 0 <= a < b < i ==> #[trigger] s[a].0 < #[trigger] s[b].0,
                forall|a: int| 0 <= a < i ==> #[trigger] s[a].0 < next_id,
            decreases s.len() - i,
        {
            if rows[i].0 >= next_id {
                return None;
            }
            if i > 0 && rows[i - 1].0 >= rows[i].0 {
                assert(!ids_ascending(s)) by {
                    assert(!(s[i - 1].0 < s[i as int].0));
                }
                return None;
            }
            proof {
                assert forall|a: int, b: int| 0 <= a < b < i + 1 implies #[trigger] s[a].0 < #[trigger] s[b].0 by {
                    if b == i && a < i - 1 {
                        assert(s[a].0 < s[i - 1].0);
                    }
                }
            }
            i = i + 1;
        }
        assert(ids_ascending(s));
        let mut i: usize = 0;
        while i < rows.len()
            invariant
                s == rows@,
                0 <= i <= s.len(),
                ids_ascending(s),
                forall|a: int, b: int|
                    0 <= a < i && 0 <= b < s.len() && a != b && #[trigger] s[a].1.approved
                        && #[trigger] s[b].1.approved ==> !clash(s[a].1, s[b].1),
            decreases s.len() - i,
        {
            let rec = &rows[i].1;
            if rec.approved && has_conflict(&rows, rec.rooms, rec.begin_time, rec.end_time, Some(rows[i].0)) {
                proof {
                    let ii = i as int;
                    let b = choose|b: int|
                        0 <= b < s.len() && #[trigger] blocks(
                            s[b].0,
                            s[b].1,
                            s[ii].1.rooms,
                            s[ii].1.begin_time,
                            s[ii].1.end_time,
                            Some(s[ii].0),
                        );
                    assert(b != ii);
                    assert(clash(s[b].1, s[ii].1));
                    assert(s[b].1.approved && s[ii].1.approved);
                }
                return None;
            }
            proof {
                let ii = i as int;
                assert forall|a: int, b: int|
                    0 <= a < ii + 1 && 0 <= b < s.len() && a != b && #[trigger] s[a].1.approved
                        && #[trigger] s[b].1.approved implies !clash(s[a].1, s[b].1) by {
                    if a == ii {
                        if b < ii { assert(s[b].0 < s[ii].0); } else { assert(s[ii].0 < s[b].0); }
                        assert(!blocks(s[b].0, s[b].1, s[ii].1.rooms, s[ii].1.begin_time, s[ii].1.end_time, Some(s[ii].0)));
                        lemma_clash_symmetric(s[b].1, s[ii].1);
                    }
                }
            }
            i = i + 1;
        }
        Some(Database { entries: rows, next_id, policy })
    }
}

} // verus!
