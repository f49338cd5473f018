use crate::availability::{available_slots, availabilities_in, AppointmentType, AvailabilityError};
use crate::busy::{busy_intervals, collect_busy, BookedAppointment, ExternalProviderError};
use crate::interval::AvailabilityWindow;
use crate::template::WeeklyAvailability;
use vstd::prelude::*;

verus! {

/// Why a booking request was refused.
#[derive(Clone, Copy, Debug, PartialEq, Eq)]
pub enum BookingError {
    /// The requested window is not exactly as long as the appointment type.
    DurationMismatch,
    /// The first open slot from the requested start is not the requested window.
    NoOpenWindow,
    /// No slots could be computed for the requested window.
    Availability(AvailabilityError),
}

/// Whether the request `[from, to)` (seconds) may be booked: it lasts the
/// appointment type's duration, and the first slot of the walk over the
/// horizon from `from` to `to` is exactly that window. The horizon's offsets
/// `from - now` and `to - now` from "now" land on `from` and `to`, so the
/// horizon itself does not depend on "now".
pub open spec fn booking_decision(
    ts: Seq<WeeklyAvailability>,
    busy: Seq<AvailabilityWindow>,
    duration_in_minutes: int,
    from: int,
    to: int,
    zone: Seq<char>,
) -> Result<(), BookingError> {
    if to - from != duration_in_minutes * 60 {
        Err(BookingError::DurationMismatch)
    } else {
        match availabilities_in(ts, busy, duration_in_minutes, from, to, zone) {
            Err(e) => Err(BookingError::Availability(e)),
            Ok(slots) => if slots.len() > 0 && slots[0] == (from, to) {
                Ok(())
            } else {
                Err(BookingError::NoOpenWindow)
            },
        }
    }
}

/// Checks a requested window against the slot walk, given the busy
/// intervals of the owner.
pub fn check_booking(
    templates: &Vec<WeeklyAvailability>,
    busy: &Vec<AvailabilityWindow>,
    duration_in_minutes: i32,
    requested_from: i64,
    requested_to: i64,
    timezone: &str,
) -> (r: Result<(), BookingError>)
    ensures
        r == booking_decision(
            templates@,
            busy@,
            duration_in_minutes as int,
            requested_from as int,
            requested_to as int,
            timezone@,
        ),
{
    let length = requested_to as i128 - requested_from as i128;
    if length != duration_in_minutes as i128 * 60 {
        return Err(BookingError::DurationMismatch);
    }
    let slots = match available_slots(templates, busy, duration_in_minutes, requested_from, requested_to, timezone) {
        Ok(slots) => slots,
        Err(e) => {
            return Err(BookingError::Availability(e));
        },
    };
    if slots.len() > 0 && slots[0].start == requested_from && slots[0].end == requested_to {
        Ok(())
    } else {
        Err(BookingError::NoOpenWindow)
    }
}

/// Checks a booking request of the owner of `appointment_type` for
/// `[requested_from, requested_to)`, with the busy intervals gathered as for
/// the availability query at `now`. Nothing is written.
pub fn validate_appointment(
    templates: &Vec<WeeklyAvailability>,
    appointments: &Vec<BookedAppointment>,
    external: &Result<Vec<AvailabilityWindow>, ExternalProviderError>,
    appointment_type: &AppointmentType,
    requested_from: i64,
    requested_to: i64,
    now: i64,
    timezone: &str,
) -> (r: Result<(), BookingError>)
    ensures
        r == booking_decision(
            templates@,
            busy_intervals(appointments@, *external, appointment_type.user_id, now as int),
            appointment_type.duration_in_minutes as int,
            requested_from as int,
            requested_to as int,
            timezone@,
        ),
{
    let busy = collect_busy(appointments, external, appointment_type.user_id, now);
    check_booking(
        templates,
        &busy,
        appointment_type.duration_in_minutes,
        requested_from,
        requested_to,
        timezone,
    )
}

} // verus!
