//! Deciding whether a proposed booking collides with an approved one.
use vstd::prelude::*;
use crate::models::Reservation;
use crate::time::Timestamp;

verus! {

/// Two room sets share at least one room.
pub open spec fn rooms_meet(a: u8, b: u8) -> bool {
    a & b != 0
}

/// Two time windows overlap, a shared boundary instant included.
pub open spec fn windows_overlap(b1: Timestamp, e1: Timestamp, b2: Timestamp, e2: Timestamp) -> bool {
    b1.le(e2) && b2.le(e1)
}

/// The record `(id, r)` blocks a booking of `rooms` from `begin` to `end`:
/// it is approved, it is not the excluded record, and it shares a room and
/// an instant with the booking.
pub open spec fn blocks(
    id: u64,
    r: Reservation,
    rooms: u8,
    begin: Timestamp,
    end: Timestamp,
    exclude: Option<u64>,
) -> bool {
    &&& r.approved
    &&& exclude != Some(id)
    &&& rooms_meet(r.rooms, rooms)
    &&& windows_overlap(r.begin_time, r.end_time, begin, end)
}

/// Some record of the snapshot blocks the booking.
pub open spec fn conflict_in(
    s: Seq<(u64, Reservation)>,
    rooms: u8,
    begin: Timestamp,
    end: Timestamp,
    exclude: Option<u64>,
) -> bool {
    exists|i: int| 0 <= i < s.len() && #[trigger] blocks(s[i].0, s[i].1, rooms, begin, end, exclude)
}

/// Two reservations share a room and an instant.
pub open spec fn clash(a: Reservation, b: Reservation) -> bool {
    rooms_meet(a.rooms, b.rooms) && windows_overlap(a.begin_time, a.end_time, b.begin_time, b.end_time)
}

/// Sharing a room and an instant does not depend on the order of the two.
pub proof fn lemma_clash_symmetric(a: Reservation, b: Reservation)
    ensures
        clash(a, b) == clash(b, a),
{
    let x = a.rooms;
    let y = b.rooms;
    assert(x & y == y & x) by (bit_vector);
}

/// Whether an approved record other than `exclude` shares a room with the
/// booking of `rooms` and overlaps its window `[begin, end]`, bounds included.
pub fn has_conflict(
    snapshot: &Vec<(u64, Reservation)>,
    rooms: u8,
    begin: Timestamp,
    end: Timestamp,
    exclude: Option<u64>,
) -> (r: bool)
    ensures
        r == conflict_in(snapshot@, rooms, begin, end, exclude),
{
    let mut i: usize = 0;
    while i < snapshot.len()
        invariant
            0 <= i <= snapshot@.len(),
            forall|j: int| 0 <= j < i ==> !#[trigger] blocks(snapshot@[j].0, snapshot@[j].1, rooms, begin, end, exclude),
        decreases snapshot@.len() - i,
    {
        let id = snapshot[i].0;
        let rec = &snapshot[i].1;
        let excluded = match exclude {
            Some(x) => x == id,
            None => false,
        };
        if rec.approved && !excluded && rec.rooms & rooms != 0 && rec.begin_time.at_or_before(&end)
            && begin.at_or_before(&rec.end_time) {
            assert(blocks(snapshot@[i as int].0, snapshot@[i as int].1, rooms, begin, end, exclude));
            return true;
        }
        i = i + 1;
    }
    false
}

} // verus!
