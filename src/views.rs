use crate::busy::BookedAppointment;
use crate::template::{valid_bounds, NormalizedAvailabilityDay, WeeklyAvailability};
use vstd::prelude::*;

verus! {

/// Minutes in a day.
pub const MINUTES_IN_DAY: i32 = 1440;

/// A template together with its window within its day.
#[derive(Clone, Copy, Debug, PartialEq, Eq)]
pub struct AvailabilityDay {
    pub normalized: NormalizedAvailabilityDay,
    pub model: WeeklyAvailability,
}

/// Templates grouped by the weekday on which they start.
#[derive(Debug)]
pub struct WeeklyAvailabilityByWeekday {
    pub monday: Vec<AvailabilityDay>,
    pub tuesday: Vec<AvailabilityDay>,
    pub wednesday: Vec<AvailabilityDay>,
    pub thursday: Vec<AvailabilityDay>,
    pub friday: Vec<AvailabilityDay>,
    pub saturday: Vec<AvailabilityDay>,
    pub sunday: Vec<AvailabilityDay>,
}

/// The seven weekday lists, Monday first.
pub open spec fn weekday_lists(w: WeeklyAvailabilityByWeekday) -> Seq<Seq<AvailabilityDay>> {
    seq![w.monday@, w.tuesday@, w.wednesday@, w.thursday@, w.friday@, w.saturday@, w.sunday@]
}

/// The entry that files `item` under its weekday: the window shifted back by
/// whole days so that it counts from that day's midnight.
pub open spec fn day_entry(item: WeeklyAvailability) -> AvailabilityDay {
    let day = item.from / 1440;
    AvailabilityDay {
        normalized: NormalizedAvailabilityDay {
            from: (item.from - day * 1440) as i32,
            to: (item.to - day * 1440) as i32,
        },
        model: item,
    }
}

impl WeeklyAvailabilityByWeekday {
    pub fn new() -> (r: Self)
        ensures
            forall|d: int| 0 <= d < 7 ==> (#[trigger] weekday_lists(r)[d]).len() == 0,
    {
        WeeklyAvailabilityByWeekday {
            monday: Vec::new(),
            tuesday: Vec::new(),
            wednesday: Vec::new(),
            thursday: Vec::new(),
            friday: Vec::new(),
            saturday: Vec::new(),
            sunday: Vec::new(),
        }
    }

    /// Files `item` under the weekday on which it starts (0 = Monday), with
    /// its window counted from that day's midnight.
    pub fn add_availability_by_day_index(&mut self, item: WeeklyAvailability)
        requires
            valid_bounds(item.from as int, item.to as int),
        ensures
            forall|d: int|
                0 <= d < 7 ==> #[trigger] weekday_lists(*final(self))[d] == if d == item.from / 1440 {
                    weekday_lists(*old(self))[d].push(day_entry(item))
                } else {
                    weekday_lists(*old(self))[d]
                },
    {
        let day_index = item.from / MINUTES_IN_DAY;
        let normalized = NormalizedAvailabilityDay {
            from: item.from - day_index * MINUTES_IN_DAY,
            to: item.to - day_index * MINUTES_IN_DAY,
        };
        let entry = AvailabilityDay { normalized, model: item };
        if day_index == 0 {
            self.monday.push(entry);
        } else if day_index == 1 {
            self.tuesday.push(entry);
        } else if day_index == 2 {
            self.wednesday.push(entry);
        } else if day_index == 3 {
            self.thursday.push(entry);
        } else if day_index == 4 {
            self.friday.push(entry);
        } else if day_index == 5 {
            self.saturday.push(entry);
        } else {
            self.sunday.push(entry);
        }
    }
}

impl Default for WeeklyAvailabilityByWeekday {
    fn default() -> (r: Self)
        ensures
            forall|d: int| 0 <= d < 7 ==> (#[trigger] weekday_lists(r)[d]).len() == 0,
    {
        Self::new()
    }
}

/// A span given in days, hours and minutes.
#[derive(Clone, Copy, Debug, PartialEq, Eq)]
pub struct DaysHoursMinutes {
    pub days: i32,
    pub hours: i32,
    pub minutes: i32,
}

impl DaysHoursMinutes {
    pub open spec fn total_minutes(&self) -> int {
        self.days * 24 * 60 + self.hours * 60 + self.minutes
    }

    /// The span in minutes.
    pub fn as_minutes(&self) -> (r: i32)
        requires
            i32::MIN <= self.total_minutes() <= i32::MAX,
        ensures
            r as int == self.total_minutes(),
    {
        (self.days as i64 * 24 * 60 + self.hours as i64 * 60 + self.minutes as i64) as i32
    }
}

/// How far ahead of "now" the bookable horizon starts and ends.
#[derive(Clone, Copy, Debug, PartialEq, Eq)]
pub struct UserSettingsProps {
    pub start_how_far_from_now: DaysHoursMinutes,
    pub end_how_far_from_now: DaysHoursMinutes,
}

/// Page size of appointment listings when none is given.
pub fn default_limit() -> (r: u64)
    ensures
        r == 10,
{
    10
}

/// A page of an owner's appointments and how many there are in all.
#[derive(Debug)]
pub struct AppointmentsResponse {
    pub appointments: Vec<BookedAppointment>,
    pub count: u64,
}

/// Parameters of a new appointment type.
#[derive(Debug)]
pub struct CreateAppointmentTypeParams {
    pub duration_in_minutes: i32,
    pub display_name: String,
}

/// Parameters of a changed appointment type.
#[derive(Debug)]
pub struct UpdateAppointmentTypeParams {
    pub duration_in_minutes: i32,
    pub display_name: String,
}

/// What an account may do.
#[derive(Clone, Copy, Debug, PartialEq, Eq)]
pub enum Role {
    Admin,
    User,
}

/// The account fields a login answer reports.
#[derive(Debug)]
pub struct UserAccount {
    pub pid: String,
    pub name: String,
    pub email: String,
    /// Seconds since the Unix epoch at which the email was verified, if it was.
    pub email_verified_at: Option<i64>,
    pub role: Role,
}

/// The answer to a successful login.
#[derive(Debug)]
pub struct LoginResponse {
    pub token: String,
    pub pid: String,
    pub name: String,
    pub is_verified: bool,
    pub email: String,
    pub role: Role,
}

impl LoginResponse {
    pub fn new(user: &UserAccount, token: &str) -> (r: Self)
        ensures
            r.token@ == token@,
            r.pid@ == user.pid@,
            r.name@ == user.name@,
            r.is_verified == user.email_verified_at is Some,
            r.email@ == user.email@,
            r.role == user.role,
    {
        LoginResponse {
            token: token.to_owned(),
            pid: user.pid.clone(),
            name: user.name.clone(),
            is_verified: user.email_verified_at.is_some(),
            email: user.email.clone(),
            role: user.role,
        }
    }
}

/// Which use a connected calendar is put to.
#[derive(Clone, Copy, Debug, PartialEq, Eq)]
pub enum CalendarSettingType {
    CollisionCheck,
    EventHandling,
}

/// A calendar of the connected external account.
#[derive(Debug)]
pub struct CalendarEntry {
    pub access_role: String,
    pub background_color: String,
    pub foreground_color: String,
    pub id: String,
    pub primary: bool,
    pub selected: bool,
    pub summary: String,
    pub time_zone: String,
}

/// A request to add or remove a calendar for one use.
#[derive(Debug)]
pub struct CalendarSettingParams {
    pub calendar_id: String,
    pub setting_type: CalendarSettingType,
}

/// The calendars set for each use.
#[derive(Debug)]
pub struct CalendarSettingsResponse {
    pub calendars_for_collision_check: Vec<String>,
    pub calendars_for_event_handling: Vec<String>,
}

} // verus!
