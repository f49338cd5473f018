use crate::busy::{busy_intervals, collect_busy, BookedAppointment, ExternalProviderError};
use crate::interval::{clashes, GenericWindowComparison, AvailabilityWindow};
use crate::slots::{
    generate_slots, lemma_slots_ascending, lemma_slots_avoid_busy, lemma_slots_have_duration,
    lemma_slots_within_templates, slots_between, windows_of, within_template,
};
use crate::template::WeeklyAvailability;
use crate::zone::{
    in_instant_range, round_to_local_minute, round_to_minute, zone_known, zone_offset, Zone,
    MAX_INSTANT, MIN_INSTANT,
};
use vstd::prelude::*;

verus! {

/// A kind of appointment an owner offers; its duration is the slot length.
#[derive(Clone, Copy, Debug, PartialEq, Eq)]
pub struct AppointmentType {
    pub id: i64,
    pub user_id: i64,
    pub duration_in_minutes: i32,
}

/// Why no slots could be computed.
#[derive(Clone, Copy, Debug, PartialEq, Eq)]
pub enum AvailabilityError {
    /// The horizon does not start before it ends.
    EmptyHorizon,
    /// The slot length is not positive.
    InvalidDuration,
    /// The owner's time zone is not a known IANA name.
    UnknownTimezone,
    /// The horizon reaches outside the instants handled.
    OutOfRange,
}

/// The slots between the instants `start` and `end`, or why there are none:
/// both ends are rounded to the nearest whole minute of local time and the
/// walk runs between them.
pub open spec fn availabilities_in(
    ts: Seq<WeeklyAvailability>,
    busy: Seq<AvailabilityWindow>,
    duration_in_minutes: int,
    start: int,
    end: int,
    zone: Seq<char>,
) -> Result<Seq<(int, int)>, AvailabilityError> {
    if start >= end {
        Err(AvailabilityError::EmptyHorizon)
    } else if duration_in_minutes <= 0 {
        Err(AvailabilityError::InvalidDuration)
    } else if !zone_known(zone) {
        Err(AvailabilityError::UnknownTimezone)
    } else if !in_instant_range(start) || !in_instant_range(end) {
        Err(AvailabilityError::OutOfRange)
    } else {
        let cursor = round_to_local_minute(zone, start);
        let limit = round_to_local_minute(zone, end);
        if !in_instant_range(cursor) || !in_instant_range(limit) {
            Err(AvailabilityError::OutOfRange)
        } else {
            Ok(slots_between(ts, busy, duration_in_minutes * 60, zone, cursor, limit))
        }
    }
}

/// The slots over the horizon `[now + start_offset, now + end_offset]`.
pub open spec fn availabilities(
    ts: Seq<WeeklyAvailability>,
    busy: Seq<AvailabilityWindow>,
    duration_in_minutes: int,
    start_offset: int,
    end_offset: int,
    now: int,
    zone: Seq<char>,
) -> Result<Seq<(int, int)>, AvailabilityError> {
    availabilities_in(ts, busy, duration_in_minutes, now + start_offset, now + end_offset, zone)
}

/// The windows of a result, or its error.
pub open spec fn windows_result(r: Result<Vec<AvailabilityWindow>, AvailabilityError>) -> Result<
    Seq<(int, int)>,
    AvailabilityError,
> {
    match r {
        Ok(v) => Ok(windows_of(v@)),
        Err(e) => Err(e),
    }
}

fn slots_in_zone(
    templates: &Vec<WeeklyAvailability>,
    busy: &Vec<AvailabilityWindow>,
    duration_in_minutes: i32,
    start: i64,
    end: i64,
    zone: &Zone,
) -> (r: Result<Vec<AvailabilityWindow>, AvailabilityError>)
    requires
        start < end,
        duration_in_minutes > 0,
        zone_known(zone@),
    ensures
        windows_result(r) == availabilities_in(
            templates@,
            busy@,
            duration_in_minutes as int,
            start as int,
            end as int,
            zone@,
        ),
{
    if start < MIN_INSTANT || start > MAX_INSTANT || end < MIN_INSTANT || end > MAX_INSTANT {
        return Err(AvailabilityError::OutOfRange);
    }
    let cursor = round_to_minute(zone, start);
    let limit = round_to_minute(zone, end);
    if cursor < MIN_INSTANT || cursor > MAX_INSTANT || limit < MIN_INSTANT || limit > MAX_INSTANT {
        return Err(AvailabilityError::OutOfRange);
    }
    let duration = duration_in_minutes as i64 * 60;
    Ok(generate_slots(templates, busy, duration, zone, cursor, limit))
}

/// The slots of `duration_in_minutes` between the instants `start` and `end`
/// (seconds since the Unix epoch) that the templates offer in the time zone
/// named `timezone` and that clash with no busy interval.
pub fn available_slots(
    templates: &Vec<WeeklyAvailability>,
    busy: &Vec<AvailabilityWindow>,
    duration_in_minutes: i32,
    start: i64,
    end: i64,
    timezone: &str,
) -> (r: Result<Vec<AvailabilityWindow>, AvailabilityError>)
    ensures
        windows_result(r) == availabilities_in(
            templates@,
            busy@,
            duration_in_minutes as int,
            start as int,
            end as int,
            timezone@,
        ),
{
    if start >= end {
        return Err(AvailabilityError::EmptyHorizon);
    }
    if duration_in_minutes <= 0 {
        return Err(AvailabilityError::InvalidDuration);
    }
    match Zone::parse(timezone) {
        Some(zone) => slots_in_zone(templates, busy, duration_in_minutes, start, end, &zone),
        None => Err(AvailabilityError::UnknownTimezone),
    }
}

/// The bookable slots of an appointment type over the horizon from
/// `now + start_how_far_from_now` to `now + end_how_far_from_now` (seconds),
/// in the owner's time zone. The busy intervals are what the external
/// calendar reported (nothing, if that call failed) and the owner's booked
/// appointments that start after `now`.
pub fn current_availabilities(
    templates: &Vec<WeeklyAvailability>,
    appointments: &Vec<BookedAppointment>,
    external: &Result<Vec<AvailabilityWindow>, ExternalProviderError>,
    appointment_type: &AppointmentType,
    start_how_far_from_now: i64,
    end_how_far_from_now: i64,
    now: i64,
    timezone: &str,
) -> (r: Result<Vec<AvailabilityWindow>, AvailabilityError>)
    ensures
        windows_result(r) == availabilities(
            templates@,
            busy_intervals(appointments@, *external, appointment_type.user_id, now as int),
            appointment_type.duration_in_minutes as int,
            start_how_far_from_now as int,
            end_how_far_from_now as int,
            now as int,
            timezone@,
        ),
{
    let busy = collect_busy(appointments, external, appointment_type.user_id, now);
    let duration_in_minutes = appointment_type.duration_in_minutes;
    if start_how_far_from_now >= end_how_far_from_now {
        return Err(AvailabilityError::EmptyHorizon);
    }
    if duration_in_minutes <= 0 {
        return Err(AvailabilityError::InvalidDuration);
    }
    let zone = match Zone::parse(timezone) {
        Some(zone) => zone,
        None => {
            return Err(AvailabilityError::UnknownTimezone);
        },
    };
    let start = match now.checked_add(start_how_far_from_now) {
        Some(t) => t,
        None => {
            return Err(AvailabilityError::OutOfRange);
        },
    };
    let end = match now.checked_add(end_how_far_from_now) {
        Some(t) => t,
        None => {
            return Err(AvailabilityError::OutOfRange);
        },
    };
    slots_in_zone(templates, &busy, duration_in_minutes, start, end, &zone)
}

/// Two calls with the same "now", the same stored templates and bookings,
/// and the same answer of the external calendar give the same slots.
pub proof fn lemma_generation_is_repeatable(
    templates: Seq<WeeklyAvailability>,
    appointments: Seq<BookedAppointment>,
    external: Result<Vec<AvailabilityWindow>, ExternalProviderError>,
    appointment_type: AppointmentType,
    start_how_far_from_now: int,
    end_how_far_from_now: int,
    now: int,
    timezone: Seq<char>,
    first: Result<Vec<AvailabilityWindow>, AvailabilityError>,
    second: Result<Vec<AvailabilityWindow>, AvailabilityError>,
)
    requires
        windows_result(first) == availabilities(
            templates,
            busy_intervals(appointments, external, appointment_type.user_id, now),
            appointment_type.duration_in_minutes as int,
            start_how_far_from_now,
            end_how_far_from_now,
            now,
            timezone,
        ),
        windows_result(second) == availabilities(
            templates,
            busy_intervals(appointments, external, appointment_type.user_id, now),
            appointment_type.duration_in_minutes as int,
            start_how_far_from_now,
            end_how_far_from_now,
            now,
            timezone,
        ),
    ensures
        windows_result(first) == windows_result(second),
{
}

/// Every window the availability query returns lasts the appointment
/// type's duration, lies within one of the owner's templates in minutes since
/// local Monday 00:00, clashes with none of the busy intervals of the call,
/// and ends no later than the next window begins.
pub proof fn lemma_query_windows(
    ts: Seq<WeeklyAvailability>,
    busy: Seq<AvailabilityWindow>,
    duration_in_minutes: int,
    start_offset: int,
    end_offset: int,
    now: int,
    zone: Seq<char>,
)
    requires
        availabilities(ts, busy, duration_in_minutes, start_offset, end_offset, now, zone) is Ok,
    ensures
        ({
            let s = availabilities(ts, busy, duration_in_minutes, start_offset, end_offset, now, zone)->Ok_0;
            &&& forall|i: int| 0 <= i < s.len() ==> (#[trigger] s[i]).1 - s[i].0 == duration_in_minutes * 60
            &&& forall|i: int|
                0 <= i < s.len() ==> within_template(ts, duration_in_minutes * 60, zone, (#[trigger] s[i]).0)
            &&& forall|i: int, b: int|
                0 <= i < s.len() && 0 <= b < busy.len() ==> !clashes(#[trigger] s[i], #[trigger] busy[b].window())
            &&& forall|i: int, j: int| 0 <= i < j < s.len() ==> (#[trigger] s[i]).1 <= (#[trigger] s[j]).0
        }),
{
    let d = duration_in_minutes * 60;
    let cursor = round_to_local_minute(zone, now + start_offset);
    let limit = round_to_local_minute(zone, now + end_offset);
    lemma_slots_have_duration(ts, busy, d, zone, cursor, limit);
    lemma_slots_within_templates(ts, busy, d, zone, cursor, limit);
    lemma_slots_avoid_busy(ts, busy, d, zone, cursor, limit);
    lemma_slots_ascending(ts, busy, d, zone, cursor, limit);
}

/// Rounding to the local minute moves an instant by at most half a minute.
pub proof fn lemma_rounding_stays_near(zone: Seq<char>, at: int)
    ensures
        at - 30 <= round_to_local_minute(zone, at) <= at + 30,
{
    vstd::arithmetic::div_mod::lemma_mod_bound(at + zone_offset(zone, at), 60);
}

/// A failed call to the external calendar counts as a calendar with no busy
/// time: the query answers exactly as it would for an empty report, and it
/// succeeds whenever the horizon is non-empty, the duration positive, the
/// zone known and the horizon half a minute inside the instants handled.
pub proof fn lemma_provider_failure_fails_open(
    ts: Seq<WeeklyAvailability>,
    appointments: Seq<BookedAppointment>,
    failure: ExternalProviderError,
    empty_report: Vec<AvailabilityWindow>,
    appointment_type: AppointmentType,
    start_offset: int,
    end_offset: int,
    now: int,
    zone: Seq<char>,
)
    requires
        empty_report@.len() == 0,
    ensures
        ({
            let failed = busy_intervals(appointments, Err(failure), appointment_type.user_id, now);
            let empty = busy_intervals(appointments, Ok(empty_report), appointment_type.user_id, now);
            let d = appointment_type.duration_in_minutes as int;
            &&& failed == empty
            &&& availabilities(ts, failed, d, start_offset, end_offset, now, zone) == availabilities(
                ts,
                empty,
                d,
                start_offset,
                end_offset,
                now,
                zone,
            )
            &&& (start_offset < end_offset && d > 0 && zone_known(zone) && MIN_INSTANT + 30 <= now
                + start_offset && now + end_offset <= MAX_INSTANT - 30) ==> availabilities(
                ts,
                failed,
                d,
                start_offset,
                end_offset,
                now,
                zone,
            ) is Ok
        }),
{
    let failed = busy_intervals(appointments, Err(failure), appointment_type.user_id, now);
    let empty = busy_intervals(appointments, Ok(empty_report), appointment_type.user_id, now);
    assert(failed =~= empty);
    lemma_rounding_stays_near(zone, now + start_offset);
    lemma_rounding_stays_near(zone, now + end_offset);
}

} // verus!
