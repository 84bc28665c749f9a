//! The records kept by the store and the values that create or edit them.
use vstd::prelude::*;
use crate::time::Timestamp;

verus! {

/// No room.
pub const NO_ROOM: u8 = 0;
/// The north half of the auditorium.
pub const NORTH: u8 = 1;
/// The south half of the auditorium.
pub const SOUTH: u8 = 2;
/// The whole auditorium.
pub const WHOLE: u8 = 3;

/// What a caller may do.
#[derive(Clone, Copy, Debug, PartialEq, Eq, Structural)]
pub enum Role {
    /// An ordinary user: books, and edits or deletes bookings as the policy allows.
    Noob,
    /// May also approve bookings.
    Approver,
}

/// The caller, as the authentication layer vouches for it.
#[derive(Clone, Debug)]
pub struct User {
    /// user name
    pub name: String,
    /// user email, the identity recorded as a booking's author
    pub email: String,
    /// user role
    pub role: Role,
}

/// A reservation as the store keeps it.
#[derive(Clone, Debug, PartialEq, Eq)]
pub struct Reservation {
    /// event name
    pub name: String,
    /// event description
    pub description: String,
    /// identity of the user who made the booking
    pub author: String,
    /// rooms as bit flags: 0b01 north, 0b10 south, 0b11 both, 0 none
    pub rooms: u8,
    /// begin time of the reservation
    pub begin_time: Timestamp,
    /// end time of the reservation
    pub end_time: Timestamp,
    /// furniture layout
    pub layout: u8,
    /// whether the reservation is approved
    pub approved: bool,
    /// amount of people
    pub people: u16,
}

/// A reservation as a caller proposes it: no author and no approval.
#[derive(Clone, Debug, PartialEq, Eq)]
pub struct NewReservation {
    /// event name
    pub name: String,
    /// event description
    pub description: String,
    /// rooms as bit flags
    pub rooms: u8,
    /// begin time
    pub begin_time: Timestamp,
    /// end time
    pub end_time: Timestamp,
    /// furniture layout
    pub layout: u8,
    /// amount of people
    pub people: u16,
}

/// An edit: each field that is present replaces the stored one.
#[derive(Clone, Debug, PartialEq, Eq)]
pub struct UpdateReservation {
    /// event name
    pub name: Option<String>,
    /// event description
    pub description: Option<String>,
    /// rooms as bit flags
    pub rooms: Option<u8>,
    /// begin time
    pub begin_time: Option<Timestamp>,
    /// end time
    pub end_time: Option<Timestamp>,
    /// furniture layout
    pub layout: Option<u8>,
    /// amount of people
    pub people: Option<u16>,
}

/// The reservation that a proposal becomes under the given author: unapproved.
pub open spec fn from_new(n: NewReservation, author: String) -> Reservation {
    Reservation {
        name: n.name,
        description: n.description,
        author,
        rooms: n.rooms,
        begin_time: n.begin_time,
        end_time: n.end_time,
        layout: n.layout,
        approved: false,
        people: n.people,
    }
}

pub open spec fn pick<T>(o: Option<T>, old_value: T) -> T {
    match o {
        Some(v) => v,
        None => old_value,
    }
}

/// The reservation after an edit: present fields replaced, approval withdrawn.
pub open spec fn apply_update(r: Reservation, u: UpdateReservation) -> Reservation {
    Reservation {
        name: pick(u.name, r.name),
        description: pick(u.description, r.description),
        author: r.author,
        rooms: pick(u.rooms, r.rooms),
        begin_time: pick(u.begin_time, r.begin_time),
        end_time: pick(u.end_time, r.end_time),
        layout: pick(u.layout, r.layout),
        approved: false,
        people: pick(u.people, r.people),
    }
}

fn pick_string(o: &Option<String>, old_value: String) -> (r: String)
    ensures
        r == pick(*o, old_value),
{
    match o {
        Some(v) => v.clone(),
        None => old_value,
    }
}

fn pick_copy<T: Copy>(o: Option<T>, old_value: T) -> (r: T)
    ensures
        r == pick(o, old_value),
{
    match o {
        Some(v) => v,
        None => old_value,
    }
}

impl Reservation {
    /// A field-for-field copy.
    pub fn duplicate(&self) -> (r: Reservation)
        ensures
            r == *self,
    {
        Reservation {
            name: self.name.clone(),
            description: self.description.clone(),
            author: self.author.clone(),
            rooms: self.rooms,
            begin_time: self.begin_time,
            end_time: self.end_time,
            layout: self.layout,
            approved: self.approved,
            people: self.people,
        }
    }

    /// The unapproved reservation that `src` becomes under `author`.
    pub fn from_new(src: NewReservation, author: String) -> (r: Reservation)
        ensures
            r == from_new(src, author),
    {
        Reservation {
            name: src.name,
            description: src.description,
            author,
            rooms: src.rooms,
            begin_time: src.begin_time,
            end_time: src.end_time,
            layout: src.layout,
            approved: false,
            people: src.people,
        }
    }

    /// This reservation with the edit applied and its approval withdrawn.
    pub fn updated(self, u: &UpdateReservation) -> (r: Reservation)
        ensures
            r == apply_update(self, *u),
    {
        Reservation {
            name: pick_string(&u.name, self.name),
            description: pick_string(&u.description, self.description),
            author: self.author,
            rooms: pick_copy(u.rooms, self.rooms),
            begin_time: pick_copy(u.begin_time, self.begin_time),
            end_time: pick_copy(u.end_time, self.end_time),
            layout: pick_copy(u.layout, self.layout),
            approved: false,
            people: pick_copy(u.people, self.people),
        }
    }
}

} // verus!
