use crate::interval::GenericWindowComparison;
use vstd::prelude::*;

verus! {

/// Minutes in a week: templates are offsets from Monday 00:00 in `[0, 10080]`.
pub const MINUTES_IN_WEEK: i32 = 10080;

/// A recurring weekly availability window owned by one provider, in minutes
/// since Monday 00:00 (half-open `[from, to)`).
#[derive(Clone, Copy, Debug, PartialEq, Eq)]
pub struct WeeklyAvailability {
    pub id: i64,
    pub user_id: i64,
    pub from: i32,
    pub to: i32,
}

impl GenericWindowComparison for WeeklyAvailability {
    open spec fn window(&self) -> (int, int) {
        (self.from as int, self.to as int)
    }

    fn start_time(&self) -> (r: i64) {
        self.from as i64
    }

    fn end_time(&self) -> (r: i64) {
        self.to as i64
    }
}

/// Bounds a template must keep: `0 <= from < to <= 10080`.
pub open spec fn valid_bounds(from: int, to: int) -> bool {
    0 <= from < to <= MINUTES_IN_WEEK
}

/// Why a template write was refused.
#[derive(Clone, Copy, Debug, PartialEq, Eq)]
pub enum TemplateError {
    /// `from` or `to` lies outside `[0, 10080]`.
    OutOfRange,
    /// `from` is not before `to`.
    EmptyRange,
    /// The window clashes with this stored template of the same owner.
    Overlap(WeeklyAvailability),
    /// No stored template has the given id.
    NotFound,
}

/// The error that bounds validation gives for `(from, to)`, if any.
pub open spec fn bounds_error(from: int, to: int) -> Option<TemplateError> {
    if !(0 <= from <= MINUTES_IN_WEEK && 0 <= to <= MINUTES_IN_WEEK) {
        Some(TemplateError::OutOfRange)
    } else if to <= from {
        Some(TemplateError::EmptyRange)
    } else {
        None
    }
}

/// Validates template bounds: both ends in `[0, 10080]` and `from < to`.
pub fn validate_range(from: i32, to: i32) -> (r: Result<(), TemplateError>)
    ensures
        r.is_ok() <==> valid_bounds(from as int, to as int),
        r.is_ok() <==> bounds_error(from as int, to as int) is None,
        r matches Err(e) ==> bounds_error(from as int, to as int) == Some(e),
{
    if from < 0 || from > MINUTES_IN_WEEK || to < 0 || to > MINUTES_IN_WEEK {
        return Err(TemplateError::OutOfRange);
    }
    if to <= from {
        return Err(TemplateError::EmptyRange);
    }
    Ok(())
}

/// Parameters of a template write given per weekday: a window within one day
/// and a zero-based weekday (0 = Monday).
#[derive(Clone, Copy, Debug, PartialEq, Eq)]
pub struct NormalizedAvailabilityDay {
    pub from: i32,
    pub to: i32,
}

#[derive(Clone, Copy, Debug, PartialEq, Eq)]
pub struct WeeklyAvailabilitiesCreateUpdateParams {
    pub normalized: NormalizedAvailabilityDay,
    /// Zero indexed weekday (0 = Monday, 1 = Tuesday, etc.)
    pub weekday: i32,
}

impl GenericWindowComparison for WeeklyAvailabilitiesCreateUpdateParams {
    open spec fn window(&self) -> (int, int) {
        (
            self.normalized.from + self.weekday * 1440,
            self.normalized.to + self.weekday * 1440,
        )
    }

    fn start_time(&self) -> (r: i64) {
        self.normalized.from as i64 + self.weekday as i64 * 1440
    }

    fn end_time(&self) -> (r: i64) {
        self.normalized.to as i64 + self.weekday as i64 * 1440
    }
}

} // verus!
