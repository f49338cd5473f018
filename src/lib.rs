//! Availability resolution for appointment booking: recurring weekly
//! templates kept free of overlaps, busy intervals gathered from bookings and
//! an external calendar, bookable slots walked out over a horizon in the
//! owner's time zone, booking checks, and slots grouped by local day.

pub mod interval;
pub mod template;
pub mod store;
pub mod zone;
pub mod busy;
pub mod slots;
pub mod availability;
pub mod booking;
pub mod days;
pub mod views;
