//! Room reservations: a store of bookings, conflict detection between
//! approved bookings, the approval workflow, and change notification.
pub mod time;
pub mod models;
pub mod conflict;
pub mod booking;
pub mod notify;
pub mod response;
