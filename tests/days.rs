use slotwise::availability::{AppointmentType, AvailabilityError};
use slotwise::busy::ExternalProviderError;
use slotwise::days::{availabilities_by_day, day_start_at, group_by_local_day};
use slotwise::interval::AvailabilityWindow;
use slotwise::template::WeeklyAvailability;
use slotwise::zone::Zone;

const MONDAY: i64 = 1_704_067_200;
const SUNDAY_NOON: i64 = MONDAY - 12 * 3600;
const HOUR: i64 = 3600;
const DAY: i64 = 86_400;

fn templates() -> Vec<WeeklyAvailability> {
    vec![
        WeeklyAvailability { id: 1, user_id: 7, from: 480, to: 600 },
        WeeklyAvailability { id: 2, user_id: 7, from: 1920, to: 2040 },
    ]
}

#[test]
fn two_weeks_of_slots_grouped_by_day() {
    let kind = AppointmentType { id: 3, user_id: 7, duration_in_minutes: 60 };
    let external: Result<Vec<AvailabilityWindow>, ExternalProviderError> = Ok(vec![]);
    let days = availabilities_by_day(&templates(), &vec![], &external, &kind, SUNDAY_NOON, "UTC").unwrap();
    let starts: Vec<i64> = days.iter().map(|d| d.day).collect();
    assert_eq!(starts, vec![MONDAY, MONDAY + DAY, MONDAY + 7 * DAY, MONDAY + 8 * DAY]);
    for d in &days {
        assert_eq!(d.availabilities.len(), 2);
        assert_eq!(d.availabilities[0].start, d.day + 8 * HOUR);
    }
}

#[test]
fn days_follow_the_owners_zone() {
    let kind = AppointmentType { id: 3, user_id: 7, duration_in_minutes: 60 };
    let external: Result<Vec<AvailabilityWindow>, ExternalProviderError> = Ok(vec![]);
    let days = availabilities_by_day(&templates(), &vec![], &external, &kind, SUNDAY_NOON, "America/New_York").unwrap();
    assert_eq!(days[0].day, MONDAY + 5 * HOUR);
    assert_eq!(days[0].availabilities[0].start, MONDAY + 13 * HOUR);
    assert_eq!(days[0].availabilities.len(), 2);
    assert_eq!(
        availabilities_by_day(&templates(), &vec![], &external, &kind, SUNDAY_NOON, "Atlantis/Capital").unwrap_err(),
        AvailabilityError::UnknownTimezone
    );
}

#[test]
fn windows_out_of_order_still_get_one_bucket_per_day() {
    let utc = Zone::parse("UTC").unwrap();
    let windows = vec![
        AvailabilityWindow { start: MONDAY + DAY, end: MONDAY + DAY + HOUR },
        AvailabilityWindow { start: MONDAY + HOUR, end: MONDAY + 2 * HOUR },
        AvailabilityWindow { start: MONDAY + DAY + 2 * HOUR, end: MONDAY + DAY + 3 * HOUR },
    ];
    let days = group_by_local_day(&windows, &utc);
    assert_eq!(days.len(), 2);
    assert_eq!(days[0].day, MONDAY);
    assert_eq!(days[0].availabilities, vec![windows[1]]);
    assert_eq!(days[1].day, MONDAY + DAY);
    assert_eq!(days[1].availabilities, vec![windows[0], windows[2]]);
}

#[test]
fn runs_of_one_day_stay_together() {
    let utc = Zone::parse("UTC").unwrap();
    let windows = vec![
        AvailabilityWindow { start: MONDAY + HOUR, end: MONDAY + 2 * HOUR },
        AvailabilityWindow { start: MONDAY + 23 * HOUR, end: MONDAY + DAY },
        AvailabilityWindow { start: MONDAY + DAY, end: MONDAY + DAY + HOUR },
    ];
    let days = group_by_local_day(&windows, &utc);
    assert_eq!(days.len(), 2);
    assert_eq!(days[0].day, MONDAY);
    assert_eq!(days[0].availabilities, windows[0..2].to_vec());
    assert_eq!(days[1].day, MONDAY + DAY);
    assert_eq!(days[1].availabilities, windows[2..].to_vec());
    assert!(group_by_local_day(&vec![], &utc).is_empty());
}

#[test]
fn local_midnight_uses_the_zone() {
    let berlin = Zone::parse("Europe/Berlin").unwrap();
    assert_eq!(day_start_at(&berlin, MONDAY + 10 * HOUR), MONDAY - HOUR);
    assert_eq!(day_start_at(&berlin, MONDAY - 30 * 60), MONDAY - HOUR);
    let utc = Zone::parse("UTC").unwrap();
    assert_eq!(day_start_at(&utc, MONDAY - 1), MONDAY - DAY);
}
