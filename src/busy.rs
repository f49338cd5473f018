use crate::interval::{GenericWindowComparison, AvailabilityWindow};
use vstd::prelude::*;

verus! {

/// State of a booked appointment; only `Booked` ones occupy time.
#[derive(Clone, Copy, Debug, PartialEq, Eq)]
pub enum AppointmentStatus {
    Booked,
    Cancelled,
}

/// An appointment as read from the appointment store (instants in seconds
/// since the Unix epoch).
#[derive(Clone, Copy, Debug, PartialEq, Eq)]
pub struct BookedAppointment {
    pub user_id: i64,
    pub start_time: i64,
    pub end_time: i64,
    pub status: AppointmentStatus,
}

impl GenericWindowComparison for BookedAppointment {
    open spec fn window(&self) -> (int, int) {
        (self.start_time as int, self.end_time as int)
    }

    fn start_time(&self) -> (r: i64) {
        self.start_time
    }

    fn end_time(&self) -> (r: i64) {
        self.end_time
    }
}

/// A failure reaching or reading the external calendar provider.
#[derive(Debug, PartialEq, Eq)]
pub struct ExternalProviderError {
    pub message: String,
}

/// Whether an appointment is an upcoming booking of `owner` at `now`.
pub open spec fn is_upcoming_booking(a: BookedAppointment, owner: i64, now: int) -> bool {
    a.user_id == owner && a.status == AppointmentStatus::Booked && a.start_time > now
}

/// The windows of the upcoming bookings of `owner`, in the order given.
pub open spec fn upcoming_busy(appointments: Seq<BookedAppointment>, owner: i64, now: int) -> Seq<AvailabilityWindow>
    decreases appointments.len(),
{
    if appointments.len() == 0 {
        seq![]
    } else {
        let rest = upcoming_busy(appointments.drop_last(), owner, now);
        let a = appointments.last();
        if is_upcoming_booking(a, owner, now) {
            rest.push(AvailabilityWindow { start: a.start_time, end: a.end_time })
        } else {
            rest
        }
    }
}

/// What the external provider reported: its windows, or none when it failed.
pub open spec fn external_busy(external: Result<Vec<AvailabilityWindow>, ExternalProviderError>) -> Seq<AvailabilityWindow> {
    match external {
        Ok(v) => v@,
        Err(_) => seq![],
    }
}

/// All busy windows of one call: the external ones, then the owner's upcoming
/// bookings.
pub open spec fn busy_intervals(
    appointments: Seq<BookedAppointment>,
    external: Result<Vec<AvailabilityWindow>, ExternalProviderError>,
    owner: i64,
    now: int,
) -> Seq<AvailabilityWindow> {
    external_busy(external) + upcoming_busy(appointments, owner, now)
}

/// Collects the busy windows of `owner`: what the external calendar reported,
/// or nothing if that call failed, followed by the owner's booked
/// appointments that start after `now`.
pub fn collect_busy(
    appointments: &Vec<BookedAppointment>,
    external: &Result<Vec<AvailabilityWindow>, ExternalProviderError>,
    owner: i64,
    now: i64,
) -> (r: Vec<AvailabilityWindow>)
    ensures
        r@ == busy_intervals(appointments@, *external, owner, now as int),
{
    let mut r: Vec<AvailabilityWindow> = Vec::new();
    if let Ok(windows) = external {
        let mut i: usize = 0;
        while i < windows.len()
            invariant
                0 <= i <= windows@.len(),
                r@ == windows@.subrange(0, i as int),
            decreases windows@.len() - i,
        {
            r.push(windows[i]);
            assert(r@ =~= windows@.subrange(0, i + 1));
            i += 1;
        }
        assert(windows@.subrange(0, windows@.len() as int) =~= windows@);
    }
    let ghost ext = r@;
    assert(ext == external_busy(*external));
    let mut i: usize = 0;
    while i < appointments.len()
        invariant
            0 <= i <= appointments@.len(),
            ext == external_busy(*external),
            r@ == ext + upcoming_busy(appointments@.subrange(0, i as int), owner, now as int),
        decreases appointments@.len() - i,
    {
        let a = appointments[i];
        assert(appointments@.subrange(0, i + 1).drop_last() =~= appointments@.subrange(0, i as int));
        let booked = match a.status {
            AppointmentStatus::Booked => true,
            AppointmentStatus::Cancelled => false,
        };
        if a.user_id == owner && booked && a.start_time > now {
            r.push(AvailabilityWindow { start: a.start_time, end: a.end_time });
            assert(r@ =~= ext + upcoming_busy(appointments@.subrange(0, i + 1), owner, now as int));
        }
        i += 1;
    }
    assert(appointments@.subrange(0, appointments@.len() as int) =~= appointments@);
    r
}

} // verus!
