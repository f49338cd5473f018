use chrono::{Offset, TimeZone};
use vstd::prelude::*;

verus! {

/// Earliest instant handled, in seconds since the Unix epoch.
pub const MIN_INSTANT: i64 = -8_000_000_000;

/// Latest instant handled, in seconds since the Unix epoch.
pub const MAX_INSTANT: i64 = 8_000_000_000;

pub open spec fn in_instant_range(t: int) -> bool {
    MIN_INSTANT <= t <= MAX_INSTANT
}

/// Instants whose zone offset can be looked up: those handled, and a few
/// days either side.
pub const ZONE_LOOKUP_BOUND: i64 = 9_000_000_000;

pub open spec fn in_lookup_range(t: int) -> bool {
    -ZONE_LOOKUP_BOUND <= t <= ZONE_LOOKUP_BOUND
}

#[verifier::external_type_specification]
#[verifier::external_body]
pub struct ExTz(chrono_tz::Tz);

/// Whether the zone table knows this IANA name.
pub uninterp spec fn zone_known(name: Seq<char>) -> bool;

/// The offset from UTC, in seconds, that the named zone has in force at the
/// instant `at` (seconds since the Unix epoch).
pub uninterp spec fn zone_offset(name: Seq<char>, at: int) -> int;

/// Relies on chrono-tz's `FromStr for Tz`: a lookup of the name in its
/// compiled zone table.
#[verifier::external_body]
fn lookup_zone(name: &str) -> (r: Option<chrono_tz::Tz>)
    ensures
        r is Some <==> zone_known(name@),
{
    name.parse::<chrono_tz::Tz>().ok()
}

/// An IANA time zone, known by name.
pub struct Zone {
    name: String,
    tz: chrono_tz::Tz,
}

impl View for Zone {
    type V = Seq<char>;

    closed spec fn view(&self) -> Seq<char> {
        self.name@
    }
}

/// Relies on chrono-tz's `TimeZone::offset_from_utc_datetime` for the zone
/// that `Zone::parse` looked up under `zone@`, with chrono's
/// `DateTime::from_timestamp` to turn seconds into a date-time and
/// `FixedOffset::local_minus_utc` to read the offset in seconds, which chrono
/// keeps strictly within one day.
#[verifier::external_body]
fn utc_offset_at(zone: &Zone, at: i64) -> (r: i32)
    requires
        in_lookup_range(at as int),
    ensures
        r as int == zone_offset(zone@, at as int),
        -86400 < r < 86400,
{
    let utc = chrono::DateTime::from_timestamp(at, 0).unwrap().naive_utc();
    zone.tz.offset_from_utc_datetime(&utc).fix().local_minus_utc()
}

/// Whether `value` names a time zone of the zone table.
pub fn is_valid_timezone(value: &str) -> (r: bool)
    ensures
        r == zone_known(value@),
{
    lookup_zone(value).is_some()
}

impl Zone {
    /// The zone with this IANA name, if the zone table knows it.
    pub fn parse(name: &str) -> (r: Option<Zone>)
        ensures
            r is Some <==> zone_known(name@),
            r matches Some(z) ==> z@ == name@,
    {
        match lookup_zone(name) {
            Some(tz) => Some(Zone { name: name.to_owned(), tz }),
            None => None,
        }
    }

    /// The offset from UTC, in seconds, in force at `at`.
    pub fn offset_at(&self, at: i64) -> (r: i32)
        requires
            in_lookup_range(at as int),
        ensures
            r as int == zone_offset(self@, at as int),
            -86400 < r < 86400,
    {
        utc_offset_at(self, at)
    }
}

/// Seconds in a week.
pub const WEEK_SECONDS: i64 = 604800;

/// 1970-01-01 was a Thursday: the Monday before it began three days earlier.
pub const EPOCH_AFTER_MONDAY: i64 = 259200;

/// A multiple of a week, added to local instants to keep remainders over
/// non-negative numbers; it is a multiple of a minute too.
const WEEK_BIAS: i64 = 12_096_000_000;

/// Seconds since Monday 00:00 of the week that holds the local instant
/// `local` (local wall-clock seconds since 1970-01-01 00:00).
pub open spec fn week_second(local: int) -> int {
    (local + EPOCH_AFTER_MONDAY) % (WEEK_SECONDS as int)
}

/// `week_second` of the wall-clock time that `zone` shows at `at`.
pub open spec fn local_week_second(zone: Seq<char>, at: int) -> int {
    week_second(at + zone_offset(zone, at))
}

/// Seconds since local Monday 00:00 at the instant `at`.
pub fn week_second_at(zone: &Zone, at: i64) -> (r: i64)
    requires
        in_lookup_range(at as int),
    ensures
        r as int == local_week_second(zone@, at as int),
        0 <= r < WEEK_SECONDS,
{
    let off = zone.offset_at(at);
    let local = at + off as i64;
    let biased = local + WEEK_BIAS + EPOCH_AFTER_MONDAY;
    proof {
        vstd::arithmetic::div_mod::lemma_mod_multiples_vanish(
            20000,
            local + EPOCH_AFTER_MONDAY,
            WEEK_SECONDS as int,
        );
        assert(WEEK_BIAS == 604800 * 20000);
    }
    biased % WEEK_SECONDS
}

/// The instant `at` moved to the nearest whole minute of the wall clock that
/// the zone shows there, an exact half minute going up.
pub open spec fn round_to_local_minute(zone: Seq<char>, at: int) -> int {
    let rem = (at + zone_offset(zone, at)) % 60;
    if rem == 0 {
        at
    } else if 60 - rem <= rem {
        at + (60 - rem)
    } else {
        at - rem
    }
}

/// Rounds `at` to the nearest whole minute of local time.
pub fn round_to_minute(zone: &Zone, at: i64) -> (r: i64)
    requires
        in_lookup_range(at as int),
    ensures
        r as int == round_to_local_minute(zone@, at as int),
        at - 30 <= r <= at + 30,
{
    let off = zone.offset_at(at);
    let local = at + off as i64;
    proof {
        vstd::arithmetic::div_mod::lemma_mod_multiples_vanish(201_600_000, local as int, 60);
        assert(WEEK_BIAS == 60 * 201_600_000);
    }
    let rem = (local + WEEK_BIAS) % 60;
    if rem == 0 {
        at
    } else if 60 - rem <= rem {
        at + (60 - rem)
    } else {
        at - rem
    }
}

} // verus!
