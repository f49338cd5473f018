use slotwise::availability::{available_slots, current_availabilities, AppointmentType, AvailabilityError};
use slotwise::booking::{check_booking, validate_appointment, BookingError};
use slotwise::busy::{collect_busy, AppointmentStatus, BookedAppointment, ExternalProviderError};
use slotwise::interval::AvailabilityWindow;
use slotwise::template::WeeklyAvailability;
use slotwise::zone::{is_valid_timezone, round_to_minute, week_second_at, Zone};

/// 2024-01-01 00:00 UTC, a Monday.
const MONDAY: i64 = 1_704_067_200;
/// 2023-12-31 12:00 UTC, the Sunday before.
const SUNDAY_NOON: i64 = 1_703_937_600 + 86_400;
const HOUR: i64 = 3600;
const DAY: i64 = 86_400;

fn owner_templates() -> Vec<WeeklyAvailability> {
    vec![WeeklyAvailability { id: 1, user_id: 7, from: 480, to: 600 }]
}

fn hour_long() -> AppointmentType {
    AppointmentType { id: 3, user_id: 7, duration_in_minutes: 60 }
}

fn no_external() -> Result<Vec<AvailabilityWindow>, ExternalProviderError> {
    Ok(vec![])
}

fn booked(user_id: i64, start: i64, end: i64) -> BookedAppointment {
    BookedAppointment { user_id, start_time: start, end_time: end, status: AppointmentStatus::Booked }
}

#[test]
fn two_hour_template_gives_two_hour_slots() {
    let r = current_availabilities(
        &owner_templates(),
        &vec![],
        &no_external(),
        &hour_long(),
        0,
        7 * DAY,
        SUNDAY_NOON,
        "UTC",
    )
    .unwrap();
    assert_eq!(
        r,
        vec![
            AvailabilityWindow { start: MONDAY + 8 * HOUR, end: MONDAY + 9 * HOUR },
            AvailabilityWindow { start: MONDAY + 9 * HOUR, end: MONDAY + 10 * HOUR },
        ]
    );
}

#[test]
fn booked_appointment_removes_its_slot() {
    let appointments = vec![booked(7, MONDAY + 8 * HOUR, MONDAY + 9 * HOUR)];
    let r = current_availabilities(
        &owner_templates(),
        &appointments,
        &no_external(),
        &hour_long(),
        0,
        7 * DAY,
        SUNDAY_NOON,
        "UTC",
    )
    .unwrap();
    assert_eq!(r, vec![AvailabilityWindow { start: MONDAY + 9 * HOUR, end: MONDAY + 10 * HOUR }]);
}

#[test]
fn provider_failure_leaves_template_and_booking_slots() {
    let appointments = vec![booked(7, MONDAY + 8 * HOUR, MONDAY + 9 * HOUR)];
    let failed: Result<Vec<AvailabilityWindow>, ExternalProviderError> =
        Err(ExternalProviderError { message: "token refresh failed".to_string() });
    let r = current_availabilities(
        &owner_templates(),
        &appointments,
        &failed,
        &hour_long(),
        0,
        7 * DAY,
        SUNDAY_NOON,
        "UTC",
    )
    .unwrap();
    assert_eq!(r, vec![AvailabilityWindow { start: MONDAY + 9 * HOUR, end: MONDAY + 10 * HOUR }]);
    let r = current_availabilities(
        &owner_templates(),
        &vec![],
        &failed,
        &hour_long(),
        0,
        7 * DAY,
        SUNDAY_NOON,
        "UTC",
    )
    .unwrap();
    assert_eq!(r.len(), 2);
}

#[test]
fn external_busy_window_removes_the_slot_it_touches() {
    let external = Ok(vec![AvailabilityWindow { start: MONDAY + 9 * HOUR + 1800, end: MONDAY + 9 * HOUR + 2700 }]);
    let r = current_availabilities(
        &owner_templates(),
        &vec![],
        &external,
        &hour_long(),
        0,
        7 * DAY,
        SUNDAY_NOON,
        "UTC",
    )
    .unwrap();
    assert_eq!(r, vec![AvailabilityWindow { start: MONDAY + 8 * HOUR, end: MONDAY + 9 * HOUR }]);
}

#[test]
fn cancelled_past_and_foreign_appointments_do_not_count() {
    let appointments = vec![
        BookedAppointment {
            user_id: 7,
            start_time: MONDAY + 8 * HOUR,
            end_time: MONDAY + 9 * HOUR,
            status: AppointmentStatus::Cancelled,
        },
        booked(8, MONDAY + 9 * HOUR, MONDAY + 10 * HOUR),
        booked(7, SUNDAY_NOON - HOUR, MONDAY + 10 * HOUR),
    ];
    let r = current_availabilities(
        &owner_templates(),
        &appointments,
        &no_external(),
        &hour_long(),
        0,
        7 * DAY,
        SUNDAY_NOON,
        "UTC",
    )
    .unwrap();
    assert_eq!(r.len(), 2);
}

#[test]
fn collect_busy_puts_external_first_then_upcoming_bookings() {
    let appointments = vec![
        booked(7, 500, 600),
        booked(7, 50, 60),
        booked(8, 700, 800),
        BookedAppointment { user_id: 7, start_time: 900, end_time: 950, status: AppointmentStatus::Cancelled },
    ];
    let external = Ok(vec![AvailabilityWindow { start: 1, end: 2 }]);
    let r = collect_busy(&appointments, &external, 7, 100);
    assert_eq!(r, vec![AvailabilityWindow { start: 1, end: 2 }, AvailabilityWindow { start: 500, end: 600 }]);
    let failed = Err(ExternalProviderError { message: "down".to_string() });
    let r = collect_busy(&appointments, &failed, 7, 100);
    assert_eq!(r, vec![AvailabilityWindow { start: 500, end: 600 }]);
}

#[test]
fn local_time_of_the_owner_places_the_slots() {
    let r = current_availabilities(
        &owner_templates(),
        &vec![],
        &no_external(),
        &hour_long(),
        0,
        7 * DAY,
        SUNDAY_NOON,
        "Europe/Berlin",
    )
    .unwrap();
    assert_eq!(
        r,
        vec![
            AvailabilityWindow { start: MONDAY + 7 * HOUR, end: MONDAY + 8 * HOUR },
            AvailabilityWindow { start: MONDAY + 8 * HOUR, end: MONDAY + 9 * HOUR },
        ]
    );
}

#[test]
fn cursor_inside_a_template_aligns_to_the_next_boundary() {
    let now = MONDAY + 8 * HOUR + 20 * 60;
    let r = current_availabilities(&owner_templates(), &vec![], &no_external(), &hour_long(), 0, DAY, now, "UTC")
        .unwrap();
    assert_eq!(r, vec![AvailabilityWindow { start: MONDAY + 9 * HOUR, end: MONDAY + 10 * HOUR }]);
}

#[test]
fn slots_repeat_every_week_and_respect_the_limit() {
    let r = current_availabilities(
        &owner_templates(),
        &vec![],
        &no_external(),
        &hour_long(),
        0,
        14 * DAY,
        SUNDAY_NOON,
        "UTC",
    )
    .unwrap();
    assert_eq!(r.len(), 4);
    assert_eq!(r[2].start, MONDAY + 7 * DAY + 8 * HOUR);
    let r = current_availabilities(
        &owner_templates(),
        &vec![],
        &no_external(),
        &hour_long(),
        0,
        DAY / 2 + 8 * HOUR + 30 * 60,
        SUNDAY_NOON,
        "UTC",
    )
    .unwrap();
    assert_eq!(r, vec![AvailabilityWindow { start: MONDAY + 8 * HOUR, end: MONDAY + 9 * HOUR }]);
}

#[test]
fn every_slot_lasts_the_duration_and_sits_in_a_template() {
    let templates = vec![
        WeeklyAvailability { id: 1, user_id: 7, from: 100, to: 250 },
        WeeklyAvailability { id: 2, user_id: 7, from: 1500, to: 1700 },
        WeeklyAvailability { id: 3, user_id: 7, from: 9000, to: 10080 },
    ];
    let kind = AppointmentType { id: 3, user_id: 7, duration_in_minutes: 45 };
    let busy = vec![AvailabilityWindow { start: MONDAY + 1500 * 60, end: MONDAY + 1560 * 60 }];
    let r = available_slots(&templates, &busy, kind.duration_in_minutes, MONDAY - DAY, MONDAY + 8 * DAY, "UTC")
        .unwrap();
    assert!(!r.is_empty());
    for (i, w) in r.iter().enumerate() {
        assert_eq!(w.end - w.start, 45 * 60);
        let minute = ((w.start - MONDAY).rem_euclid(7 * DAY)) / 60;
        assert!(templates.iter().any(|t| t.from as i64 <= minute && minute + 45 <= t.to as i64));
        assert!(busy.iter().all(|b| w.end <= b.start || b.end <= w.start));
        if i > 0 {
            assert!(r[i - 1].end <= w.start);
        }
    }
}

#[test]
fn same_inputs_give_the_same_slots() {
    let appointments = vec![booked(7, MONDAY + 8 * HOUR, MONDAY + 9 * HOUR)];
    let run = || {
        current_availabilities(
            &owner_templates(),
            &appointments,
            &no_external(),
            &hour_long(),
            0,
            7 * DAY,
            SUNDAY_NOON,
            "Europe/Berlin",
        )
    };
    assert_eq!(run(), run());
}

#[test]
fn horizon_errors() {
    let t = owner_templates();
    let e = no_external();
    assert_eq!(
        current_availabilities(&t, &vec![], &e, &hour_long(), DAY, DAY, SUNDAY_NOON, "UTC"),
        Err(AvailabilityError::EmptyHorizon)
    );
    let zero = AppointmentType { id: 3, user_id: 7, duration_in_minutes: 0 };
    assert_eq!(
        current_availabilities(&t, &vec![], &e, &zero, 0, DAY, SUNDAY_NOON, "UTC"),
        Err(AvailabilityError::InvalidDuration)
    );
    assert_eq!(
        current_availabilities(&t, &vec![], &e, &hour_long(), 0, DAY, SUNDAY_NOON, "Mars/Olympus"),
        Err(AvailabilityError::UnknownTimezone)
    );
    assert_eq!(
        current_availabilities(&t, &vec![], &e, &hour_long(), 0, DAY, i64::MAX - 10, "UTC"),
        Err(AvailabilityError::OutOfRange)
    );
    assert_eq!(
        current_availabilities(&t, &vec![], &e, &hour_long(), 0, DAY, 7_999_999_000, "UTC"),
        Err(AvailabilityError::OutOfRange)
    );
}

#[test]
fn booking_of_an_open_slot_is_accepted() {
    let r = validate_appointment(
        &owner_templates(),
        &vec![],
        &no_external(),
        &hour_long(),
        MONDAY + 9 * HOUR,
        MONDAY + 10 * HOUR,
        SUNDAY_NOON,
        "UTC",
    );
    assert_eq!(r, Ok(()));
}

#[test]
fn booking_refusals() {
    let t = owner_templates();
    let e = no_external();
    assert_eq!(
        validate_appointment(&t, &vec![], &e, &hour_long(), MONDAY + 9 * HOUR, MONDAY + 9 * HOUR + 1800, SUNDAY_NOON, "UTC"),
        Err(BookingError::DurationMismatch)
    );
    assert_eq!(
        validate_appointment(&t, &vec![], &e, &hour_long(), MONDAY + 8 * HOUR + 1800, MONDAY + 9 * HOUR + 1800, SUNDAY_NOON, "UTC"),
        Err(BookingError::NoOpenWindow)
    );
    let appointments = vec![booked(7, MONDAY + 8 * HOUR, MONDAY + 9 * HOUR)];
    assert_eq!(
        validate_appointment(&t, &appointments, &e, &hour_long(), MONDAY + 8 * HOUR, MONDAY + 9 * HOUR, SUNDAY_NOON, "UTC"),
        Err(BookingError::NoOpenWindow)
    );
    assert_eq!(
        validate_appointment(&t, &vec![], &e, &hour_long(), MONDAY + 9 * HOUR, MONDAY + 10 * HOUR, SUNDAY_NOON, "Nowhere/City"),
        Err(BookingError::Availability(AvailabilityError::UnknownTimezone))
    );
    assert_eq!(
        check_booking(&t, &vec![], 60, MONDAY + 12 * HOUR, MONDAY + 13 * HOUR, "UTC"),
        Err(BookingError::NoOpenWindow)
    );
    assert_eq!(check_booking(&t, &vec![], 60, MONDAY + 8 * HOUR, MONDAY + 9 * HOUR, "UTC"), Ok(()));
}

#[test]
fn zone_offsets_follow_the_zone_table() {
    let berlin = Zone::parse("Europe/Berlin").unwrap();
    assert_eq!(berlin.offset_at(MONDAY), 3600);
    assert_eq!(berlin.offset_at(MONDAY + 182 * DAY), 7200);
    assert!(Zone::parse("Nowhere/City").is_none());
    assert!(is_valid_timezone("America/New_York"));
    assert!(!is_valid_timezone("america/new york"));
    let utc = Zone::parse("UTC").unwrap();
    assert_eq!(utc.offset_at(MONDAY), 0);
    assert_eq!(week_second_at(&utc, MONDAY), 0);
    assert_eq!(week_second_at(&utc, MONDAY - 1), 7 * DAY - 1);
    assert_eq!(week_second_at(&berlin, MONDAY - HOUR), 0);
    assert_eq!(week_second_at(&utc, MONDAY + DAY + 90), DAY + 90);
}

#[test]
fn rounding_goes_to_the_nearest_local_minute() {
    let utc = Zone::parse("UTC").unwrap();
    assert_eq!(round_to_minute(&utc, MONDAY + 29), MONDAY);
    assert_eq!(round_to_minute(&utc, MONDAY + 30), MONDAY + 60);
    assert_eq!(round_to_minute(&utc, MONDAY + 59), MONDAY + 60);
    assert_eq!(round_to_minute(&utc, MONDAY), MONDAY);
    assert_eq!(round_to_minute(&utc, -10), 0);
}

#[test]
fn clock_change_before_monday_keeps_the_monday_midnight_slot() {
    // Berlin moves its clocks forward on Sunday 2024-03-31 at 02:00.
    let templates = vec![WeeklyAvailability { id: 1, user_id: 7, from: 0, to: 60 }];
    let saturday_noon_utc = 1_711_756_800 + 11 * HOUR;
    let monday_midnight_berlin = 1_711_929_600 - 2 * HOUR;
    let r = current_availabilities(
        &templates,
        &vec![],
        &no_external(),
        &hour_long(),
        0,
        3 * DAY,
        saturday_noon_utc,
        "Europe/Berlin",
    )
    .unwrap();
    assert_eq!(
        r,
        vec![AvailabilityWindow { start: monday_midnight_berlin, end: monday_midnight_berlin + HOUR }]
    );
}
