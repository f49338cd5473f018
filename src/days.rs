use crate::availability::{
    availabilities, current_availabilities, AppointmentType, AvailabilityError,
};
use crate::busy::{busy_intervals, BookedAppointment, ExternalProviderError};
use crate::interval::AvailabilityWindow;
use crate::slots::{lemma_slots_ascending, windows_of};
use crate::template::WeeklyAvailability;
use crate::zone::{in_instant_range, round_to_local_minute, zone_offset, Zone};
use vstd::prelude::*;

verus! {

/// Seconds in a day.
pub const DAY_SECONDS: i64 = 86400;

/// A margin kept below any day boundary, to keep remainders over
/// non-negative numbers; a multiple of a day.
const DAY_BIAS: i64 = 9_999_936_000;

/// The instant at which the day that the zone's clock shows at `at` began:
/// local midnight of that day, turned back into an instant with the offset
/// in force just after that midnight.
pub open spec fn local_day_start(zone: Seq<char>, at: int) -> int {
    let local = at + zone_offset(zone, at);
    let midnight = local - local % (DAY_SECONDS as int);
    midnight - zone_offset(zone, midnight - zone_offset(zone, at))
}

/// The slots that start on one local day, with that day's midnight.
#[derive(Debug)]
pub struct BookDay {
    pub day: i64,
    pub availabilities: Vec<AvailabilityWindow>,
}

/// The local day on which a window starts, as the instant it began.
pub open spec fn window_day(zone: Seq<char>, w: (int, int)) -> int {
    local_day_start(zone, w.0)
}

/// The windows of `ws` that start on the local day `day`, in their order.
pub open spec fn windows_on_day(zone: Seq<char>, ws: Seq<(int, int)>, day: int) -> Seq<(int, int)>
    decreases ws.len(),
{
    if ws.len() == 0 {
        seq![]
    } else {
        let rest = windows_on_day(zone, ws.drop_last(), day);
        if window_day(zone, ws.last()) == day {
            rest.push(ws.last())
        } else {
            rest
        }
    }
}

/// `days` groups `ws` by local day: one entry for each day on which a
/// window starts and for no other, in strictly ascending order of days, each
/// holding exactly the windows of its day in their order.
pub open spec fn grouped_by_day(zone: Seq<char>, ws: Seq<(int, int)>, days: Seq<(int, Seq<(int, int)>)>) -> bool {
    &&& forall|i: int, j: int| 0 <= i < j < days.len() ==> (#[trigger] days[i]).0 < (#[trigger] days[j]).0
    &&& forall|k: int| 0 <= k < days.len() ==> (#[trigger] days[k]).1 == windows_on_day(zone, ws, days[k].0)
    &&& forall|k: int| 0 <= k < days.len() ==> day_occurs(zone, ws, (#[trigger] days[k]).0)
    &&& forall|i: int| 0 <= i < ws.len() ==> day_listed(days, window_day(zone, #[trigger] ws[i]))
}

/// Whether some window of `ws` starts on the local day `day`.
pub open spec fn day_occurs(zone: Seq<char>, ws: Seq<(int, int)>, day: int) -> bool {
    exists|i: int| 0 <= i < ws.len() && #[trigger] window_day(zone, ws[i]) == day
}

/// Whether `days` has an entry for `day`.
pub open spec fn day_listed(days: Seq<(int, Seq<(int, int)>)>, day: int) -> bool {
    exists|k: int| 0 <= k < days.len() && (#[trigger] days[k]).0 == day
}

/// The view of a list of days.
pub open spec fn days_view(days: Seq<BookDay>) -> Seq<(int, Seq<(int, int)>)> {
    days.map_values(|d: BookDay| (d.day as int, windows_of(d.availabilities@)))
}

/// Local midnight, as an instant, of the day on which `at` falls in `zone`.
pub fn day_start_at(zone: &Zone, at: i64) -> (r: i64)
    requires
        in_instant_range(at as int),
    ensures
        r as int == local_day_start(zone@, at as int),
{
    let off = zone.offset_at(at) as i64;
    let local = at + off;
    proof {
        vstd::arithmetic::div_mod::lemma_mod_multiples_vanish(115740, local as int, DAY_SECONDS as int);
        assert(DAY_BIAS == DAY_SECONDS * 115740);
        vstd::arithmetic::div_mod::lemma_mod_bound(local as int, DAY_SECONDS as int);
    }
    let midnight = local - (local + DAY_BIAS) % DAY_SECONDS;
    midnight - zone.offset_at(midnight - off) as i64
}

/// Inserts `day` into the strictly ascending `days` unless it is there.
fn insert_day(days: &mut Vec<i64>, day: i64)
    requires
        forall|i: int, j: int| 0 <= i < j < old(days)@.len() ==> old(days)@[i] < old(days)@[j],
    ensures
        forall|i: int, j: int| 0 <= i < j < final(days)@.len() ==> final(days)@[i] < final(days)@[j],
        forall|x: i64| #[trigger] final(days)@.contains(x) <==> (old(days)@.contains(x) || x == day),
{
    let ghost s = days@;
    let mut p: usize = 0;
    while p < days.len() && days[p] < day
        invariant
            days@ == s,
            0 <= p <= s.len(),
            forall|j: int| 0 <= j < p ==> #[trigger] s[j] < day,
        decreases s.len() - p,
    {
        p += 1;
    }
    if p < days.len() && days[p] == day {
        return;
    }
    days.insert(p, day);
    proof {
        let n = days@;
        assert(forall|j: int| 0 <= j < p ==> #[trigger] n[j] == s[j]);
        assert(forall|j: int| p < j < n.len() ==> #[trigger] n[j] == s[j - 1]);
        assert forall|j: int| p < j < n.len() implies day < #[trigger] n[j] by {
            assert(s[p as int] > day);
            assert(s[p as int] <= s[j - 1]);
        }
        assert forall|x: i64| #[trigger] n.contains(x) <==> (s.contains(x) || x == day) by {
            if n.contains(x) {
                let k = choose|k: int| 0 <= k < n.len() && n[k] == x;
                if k < p {
                    assert(s[k] == x);
                } else if k > p {
                    assert(s[k - 1] == x);
                }
            }
            if s.contains(x) {
                let k = choose|k: int| 0 <= k < s.len() && s[k] == x;
                if k < p {
                    assert(n[k] == x);
                } else {
                    assert(n[k + 1] == x);
                }
            }
            if x == day {
                assert(n[p as int] == x);
            }
        }
        assert forall|i: int, j: int| 0 <= i < j < n.len() implies n[i] < n[j] by {
            if j < p {
            } else if i > p {
                assert(s[i - 1] < s[j - 1]);
            } else if i == p {
            } else if j == p {
            } else {
                assert(s[i] < s[j - 1]);
            }
        }
    }
}

/// The windows among `windows` whose day, given in `keys`, is `day`.
fn windows_of_day(windows: &Vec<AvailabilityWindow>, keys: &Vec<i64>, day: i64, zone: Ghost<Seq<char>>) -> (r: Vec<
    AvailabilityWindow,
>)
    requires
        keys@.len() == windows@.len(),
        forall|i: int| 0 <= i < keys@.len() ==> #[trigger] keys@[i] == window_day(zone@, windows_of(windows@)[i]),
    ensures
        windows_of(r@) == windows_on_day(zone@, windows_of(windows@), day as int),
{
    let mut r: Vec<AvailabilityWindow> = Vec::new();
    let mut i: usize = 0;
    while i < windows.len()
        invariant
            0 <= i <= windows@.len(),
            keys@.len() == windows@.len(),
            forall|j: int| 0 <= j < keys@.len() ==> #[trigger] keys@[j] == window_day(zone@, windows_of(windows@)[j]),
            windows_of(r@) == windows_on_day(zone@, windows_of(windows@).subrange(0, i as int), day as int),
        decreases windows@.len() - i,
    {
        let ghost all = windows_of(windows@);
        let ghost prefix = all.subrange(0, i + 1);
        assert(prefix.drop_last() =~= all.subrange(0, i as int));
        assert(prefix.last() == all[i as int]);
        if keys[i] == day {
            let ghost before = r@;
            r.push(windows[i]);
            assert(windows_of(r@) =~= windows_of(before).push(all[i as int]));
        }
        i += 1;
    }
    assert(windows_of(windows@).subrange(0, windows@.len() as int) =~= windows_of(windows@));
    r
}

proof fn lemma_grouping(
    zone: Seq<char>,
    ws: Seq<(int, int)>,
    keys: Seq<i64>,
    days: Seq<i64>,
    v: Seq<(int, Seq<(int, int)>)>,
)
    requires
        keys.len() == ws.len(),
        forall|j: int| 0 <= j < keys.len() ==> #[trigger] keys[j] == window_day(zone, ws[j]),
        forall|a: int, b: int| 0 <= a < b < days.len() ==> days[a] < days[b],
        forall|j: int| 0 <= j < keys.len() ==> days.contains(#[trigger] keys[j]),
        forall|x: i64| #[trigger] days.contains(x) ==> exists|j: int| 0 <= j < keys.len() && keys[j] == x,
        v.len() == days.len(),
        forall|m: int| 0 <= m < v.len() ==> #[trigger] v[m] == (days[m] as int, windows_on_day(zone, ws, days[m] as int)),
    ensures
        grouped_by_day(zone, ws, v),
{
    assert forall|a: int, b: int| 0 <= a < b < v.len() implies (#[trigger] v[a]).0 < (#[trigger] v[b]).0 by {
        assert(v[a] == (days[a] as int, windows_on_day(zone, ws, days[a] as int)));
        assert(v[b] == (days[b] as int, windows_on_day(zone, ws, days[b] as int)));
    }
    assert forall|m: int| 0 <= m < v.len() implies day_occurs(zone, ws, (#[trigger] v[m]).0) by {
        assert(days.contains(days[m]));
        let j = choose|j: int| 0 <= j < keys.len() && keys[j] == days[m];
        assert(v[m] == (days[m] as int, windows_on_day(zone, ws, days[m] as int)));
        assert(keys[j] == window_day(zone, ws[j]));
        assert(window_day(zone, ws[j]) == v[m].0);
    }
    assert forall|i: int| 0 <= i < ws.len() implies day_listed(v, window_day(zone, #[trigger] ws[i])) by {
        assert(keys[i] == window_day(zone, ws[i]));
        assert(days.contains(keys[i]));
        let m = choose|m: int| 0 <= m < days.len() && days[m] == keys[i];
        assert(v[m] == (days[m] as int, windows_on_day(zone, ws, days[m] as int)));
        assert(v[m].0 == window_day(zone, ws[i]));
    }
    assert forall|k: int| 0 <= k < v.len() implies (#[trigger] v[k]).1 == windows_on_day(zone, ws, v[k].0) by {
        assert(v[k] == (days[k] as int, windows_on_day(zone, ws, days[k] as int)));
    }
}

/// Groups slots by the local day of `zone` on which they start: one entry
/// per day, days ascending, each with the slots of that day in their order.
pub fn group_by_local_day(windows: &Vec<AvailabilityWindow>, zone: &Zone) -> (r: Vec<BookDay>)
    requires
        forall|i: int| 0 <= i < windows@.len() ==> in_instant_range(#[trigger] windows@[i].start as int),
    ensures
        grouped_by_day(zone@, windows_of(windows@), days_view(r@)),
{
    let ghost ws = windows_of(windows@);
    let mut keys: Vec<i64> = Vec::new();
    let mut days: Vec<i64> = Vec::new();
    let mut i: usize = 0;
    while i < windows.len()
        invariant
            0 <= i <= windows@.len(),
            ws == windows_of(windows@),
            forall|j: int| 0 <= j < windows@.len() ==> in_instant_range(#[trigger] windows@[j].start as int),
            keys@.len() == i,
            forall|j: int| 0 <= j < i ==> #[trigger] keys@[j] == window_day(zone@, ws[j]),
            forall|a: int, b: int| 0 <= a < b < days@.len() ==> days@[a] < days@[b],
            forall|j: int| 0 <= j < i ==> days@.contains(#[trigger] keys@[j]),
            forall|x: i64| #[trigger] days@.contains(x) ==> exists|j: int| 0 <= j < i && keys@[j] == x,
        decreases windows@.len() - i,
    {
        let day = day_start_at(zone, windows[i].start);
        let ghost before = days@;
        let ghost keys_before = keys@;
        insert_day(&mut days, day);
        keys.push(day);
        proof {
            assert(keys@[i as int] == day);
            assert(forall|j: int| 0 <= j < i ==> keys@[j] == keys_before[j]);
            assert forall|x: i64| #[trigger] days@.contains(x) implies exists|j: int| 0 <= j < i + 1 && keys@[j] == x by {
                if before.contains(x) {
                    let j = choose|j: int| 0 <= j < i && keys_before[j] == x;
                    assert(keys@[j] == x);
                } else {
                    assert(keys@[i as int] == x);
                }
            }
        }
        i += 1;
    }
    let mut r: Vec<BookDay> = Vec::new();
    let mut k: usize = 0;
    while k < days.len()
        invariant
            0 <= k <= days@.len(),
            ws == windows_of(windows@),
            keys@.len() == windows@.len(),
            forall|j: int| 0 <= j < keys@.len() ==> #[trigger] keys@[j] == window_day(zone@, ws[j]),
            forall|a: int, b: int| 0 <= a < b < days@.len() ==> days@[a] < days@[b],
            forall|j: int| 0 <= j < keys@.len() ==> days@.contains(#[trigger] keys@[j]),
            forall|x: i64| #[trigger] days@.contains(x) ==> exists|j: int| 0 <= j < keys@.len() && keys@[j] == x,
            r@.len() == k,
            forall|m: int| 0 <= m < k ==> #[trigger] days_view(r@)[m] == (days@[m] as int, windows_on_day(zone@, ws, days@[m] as int)),
        decreases days@.len() - k,
    {
        let day = days[k];
        let bucket = windows_of_day(windows, &keys, day, Ghost(zone@));
        let ghost before = r@;
        r.push(BookDay { day, availabilities: bucket });
        proof {
            assert forall|m: int| 0 <= m < k + 1 implies #[trigger] days_view(r@)[m] == (days@[m] as int, windows_on_day(zone@, ws, days@[m] as int)) by {
                assert(days_view(r@)[m] == (r@[m].day as int, windows_of(r@[m].availabilities@)));
                if m < k {
                    assert(r@[m] == before[m]);
                    assert(days_view(before)[m] == (before[m].day as int, windows_of(before[m].availabilities@)));
                }
            }
        }
        k += 1;
    }
    proof {
        lemma_grouping(zone@, ws, keys@, days@, days_view(r@));
    }
    r
}

/// Horizon of the public availability query: two weeks from now.
pub const DEFAULT_HORIZON_SECONDS: i64 = 1_209_600;

/// The days of a result, or its error.
pub open spec fn days_result(r: Result<Vec<BookDay>, AvailabilityError>) -> Result<
    Seq<(int, Seq<(int, int)>)>,
    AvailabilityError,
> {
    match r {
        Ok(v) => Ok(days_view(v@)),
        Err(e) => Err(e),
    }
}

/// The public availability query: the slots of the next two weeks, grouped
/// by the owner-local day on which they start.
pub open spec fn availability_days_ok(
    ts: Seq<WeeklyAvailability>,
    busy: Seq<AvailabilityWindow>,
    duration_in_minutes: int,
    now: int,
    zone: Seq<char>,
    r: Result<Seq<(int, Seq<(int, int)>)>, AvailabilityError>,
) -> bool {
    match availabilities(ts, busy, duration_in_minutes, 0, DEFAULT_HORIZON_SECONDS as int, now, zone) {
        Err(e) => r == Err::<Seq<(int, Seq<(int, int)>)>, AvailabilityError>(e),
        Ok(slots) => r matches Ok(days) && grouped_by_day(zone, slots, days) && (days_never_go_back(zone, slots)
            ==> flatten_days(days) == slots),
    }
}

/// The bookable slots of an appointment type over the next two weeks,
/// grouped by the day, in the owner's time zone, on which they start.
pub fn availabilities_by_day(
    templates: &Vec<WeeklyAvailability>,
    appointments: &Vec<BookedAppointment>,
    external: &Result<Vec<AvailabilityWindow>, ExternalProviderError>,
    appointment_type: &AppointmentType,
    now: i64,
    timezone: &str,
) -> (r: Result<Vec<BookDay>, AvailabilityError>)
    ensures
        availability_days_ok(
            templates@,
            busy_intervals(appointments@, *external, appointment_type.user_id, now as int),
            appointment_type.duration_in_minutes as int,
            now as int,
            timezone@,
            days_result(r),
        ),
{
    let slots = match current_availabilities(
        templates,
        appointments,
        external,
        appointment_type,
        0,
        DEFAULT_HORIZON_SECONDS,
        now,
        timezone,
    ) {
        Ok(slots) => slots,
        Err(e) => {
            return Err(e);
        },
    };
    let zone = match Zone::parse(timezone) {
        Some(zone) => zone,
        None => {
            return Err(AvailabilityError::UnknownTimezone);
        },
    };
    proof {
        let busy = busy_intervals(appointments@, *external, appointment_type.user_id, now as int);
        let d = appointment_type.duration_in_minutes as int;
        let cursor = round_to_local_minute(timezone@, now as int);
        let limit = round_to_local_minute(timezone@, now + DEFAULT_HORIZON_SECONDS);
        lemma_slots_ascending(templates@, busy, d * 60, timezone@, cursor, limit);
        assert forall|i: int| 0 <= i < slots@.len() implies in_instant_range(#[trigger] slots@[i].start as int) by {
            assert(windows_of(slots@)[i].0 == slots@[i].start as int);
        }
    }
    let days = group_by_local_day(&slots, &zone);
    proof {
        if days_never_go_back(timezone@, windows_of(slots@)) {
            lemma_days_give_back_the_slots(timezone@, windows_of(slots@), days_view(days@));
        }
    }
    Ok(days)
}

/// The windows of all entries, one entry after the other.
pub open spec fn flatten_days(days: Seq<(int, Seq<(int, int)>)>) -> Seq<(int, int)>
    decreases days.len(),
{
    if days.len() == 0 {
        seq![]
    } else {
        flatten_days(days.drop_last()) + days.last().1
    }
}

/// Whether the local day of the windows never goes back along `ws`.
pub open spec fn days_never_go_back(zone: Seq<char>, ws: Seq<(int, int)>) -> bool {
    forall|i: int, j: int| 0 <= i <= j < ws.len() ==> window_day(zone, #[trigger] ws[i]) <= window_day(zone, #[trigger] ws[j])
}

proof fn lemma_on_day_concat(zone: Seq<char>, a: Seq<(int, int)>, b: Seq<(int, int)>, day: int)
    ensures
        windows_on_day(zone, a + b, day) == windows_on_day(zone, a, day) + windows_on_day(zone, b, day),
    decreases b.len(),
{
    if b.len() == 0 {
        assert(a + b =~= a);
        assert(windows_on_day(zone, a, day) + windows_on_day(zone, b, day) =~= windows_on_day(zone, a, day));
    } else {
        lemma_on_day_concat(zone, a, b.drop_last(), day);
        assert((a + b).drop_last() =~= a + b.drop_last());
        assert((a + b).last() == b.last());
        let x = windows_on_day(zone, a, day);
        let y = windows_on_day(zone, b.drop_last(), day);
        assert((x + y).push(b.last()) =~= x + y.push(b.last()));
    }
}

proof fn lemma_on_day_none(zone: Seq<char>, a: Seq<(int, int)>, day: int)
    requires
        forall|i: int| 0 <= i < a.len() ==> window_day(zone, #[trigger] a[i]) != day,
    ensures
        windows_on_day(zone, a, day) == Seq::<(int, int)>::empty(),
    decreases a.len(),
{
    if a.len() > 0 {
        assert(forall|i: int| 0 <= i < a.drop_last().len() ==> #[trigger] a.drop_last()[i] == a[i]);
        lemma_on_day_none(zone, a.drop_last(), day);
        assert(window_day(zone, a[a.len() - 1]) != day);
    }
}

proof fn lemma_on_day_all(zone: Seq<char>, a: Seq<(int, int)>, day: int)
    requires
        forall|i: int| 0 <= i < a.len() ==> window_day(zone, #[trigger] a[i]) == day,
    ensures
        windows_on_day(zone, a, day) == a,
    decreases a.len(),
{
    if a.len() > 0 {
        assert(forall|i: int| 0 <= i < a.drop_last().len() ==> #[trigger] a.drop_last()[i] == a[i]);
        lemma_on_day_all(zone, a.drop_last(), day);
        assert(window_day(zone, a[a.len() - 1]) == day);
        assert(a.drop_last().push(a.last()) =~= a);
    }
}

/// The first index from `i` on of a window whose day is not before `day`.
spec fn first_day_from(zone: Seq<char>, ws: Seq<(int, int)>, day: int, i: int) -> int
    decreases ws.len() - i,
{
    if i >= ws.len() {
        ws.len() as int
    } else if window_day(zone, ws[i]) >= day {
        i
    } else {
        first_day_from(zone, ws, day, i + 1)
    }
}

proof fn lemma_first_day_from(zone: Seq<char>, ws: Seq<(int, int)>, day: int, i: int)
    requires
        0 <= i <= ws.len(),
    ensures
        i <= first_day_from(zone, ws, day, i) <= ws.len(),
        forall|j: int| i <= j < first_day_from(zone, ws, day, i) ==> window_day(zone, #[trigger] ws[j]) < day,
        first_day_from(zone, ws, day, i) < ws.len() ==> window_day(zone, ws[first_day_from(zone, ws, day, i)]) >= day,
    decreases ws.len() - i,
{
    if i < ws.len() && window_day(zone, ws[i]) < day {
        lemma_first_day_from(zone, ws, day, i + 1);
    }
}

/// Where the local day of the slots never goes back (in every zone but one
/// that turns its clock back across midnight), the entries, taken in order,
/// give back the slots.
pub proof fn lemma_days_give_back_the_slots(
    zone: Seq<char>,
    ws: Seq<(int, int)>,
    days: Seq<(int, Seq<(int, int)>)>,
)
    requires
        grouped_by_day(zone, ws, days),
        days_never_go_back(zone, ws),
    ensures
        flatten_days(days) == ws,
    decreases days.len(),
{
    if days.len() == 0 {
        if ws.len() > 0 {
            assert(day_listed(days, window_day(zone, ws[0])));
        }
        assert(ws =~= Seq::<(int, int)>::empty());
    } else {
        let last = days.len() - 1;
        let d = days[last].0;
        assert forall|i: int| 0 <= i < ws.len() implies window_day(zone, #[trigger] ws[i]) <= d by {
            assert(day_listed(days, window_day(zone, ws[i])));
            let k = choose|k: int| 0 <= k < days.len() && (#[trigger] days[k]).0 == window_day(zone, ws[i]);
            if k < last {
                assert(days[k].0 < days[last].0);
            }
        }
        lemma_first_day_from(zone, ws, d, 0);
        let p = first_day_from(zone, ws, d, 0);
        let pre = ws.subrange(0, p);
        let post = ws.subrange(p, ws.len() as int);
        assert(ws =~= pre + post);
        assert forall|i: int| 0 <= i < post.len() implies window_day(zone, #[trigger] post[i]) == d by {
            assert(post[i] == ws[p + i]);
            assert(window_day(zone, ws[p]) <= window_day(zone, ws[p + i]));
        }
        assert forall|i: int| 0 <= i < pre.len() implies window_day(zone, #[trigger] pre[i]) < d by {
            assert(pre[i] == ws[i]);
        }
        let rest = days.drop_last();
        assert forall|k: int| 0 <= k < rest.len() implies (#[trigger] rest[k]).1 == windows_on_day(zone, pre, rest[k].0) by {
            assert(rest[k] == days[k]);
            assert(days[k].0 < d);
            lemma_on_day_concat(zone, pre, post, days[k].0);
            lemma_on_day_none(zone, post, days[k].0);
            assert(windows_on_day(zone, pre, days[k].0) + Seq::<(int, int)>::empty() =~= windows_on_day(zone, pre, days[k].0));
        }
        assert forall|k: int| 0 <= k < rest.len() implies day_occurs(zone, pre, (#[trigger] rest[k]).0) by {
            assert(rest[k] == days[k]);
            assert(days[k].0 < d);
            assert(day_occurs(zone, ws, days[k].0));
            let i = choose|i: int| 0 <= i < ws.len() && #[trigger] window_day(zone, ws[i]) == days[k].0;
            if i >= p {
                assert(post[i - p] == ws[i]);
            }
            assert(pre[i] == ws[i]);
        }
        assert forall|i: int| 0 <= i < pre.len() implies day_listed(rest, window_day(zone, #[trigger] pre[i])) by {
            assert(pre[i] == ws[i]);
            assert(day_listed(days, window_day(zone, ws[i])));
            let k = choose|k: int| 0 <= k < days.len() && (#[trigger] days[k]).0 == window_day(zone, ws[i]);
            assert(k != last);
            assert(rest[k] == days[k]);
        }
        assert forall|i: int, j: int| 0 <= i < j < rest.len() implies (#[trigger] rest[i]).0 < (#[trigger] rest[j]).0 by {
            assert(rest[i] == days[i]);
            assert(rest[j] == days[j]);
        }
        assert forall|i: int, j: int| 0 <= i <= j < pre.len() implies window_day(zone, #[trigger] pre[i]) <= window_day(zone, #[trigger] pre[j]) by {
            assert(pre[i] == ws[i]);
            assert(pre[j] == ws[j]);
        }
        lemma_days_give_back_the_slots(zone, pre, rest);
        lemma_on_day_concat(zone, pre, post, d);
        lemma_on_day_none(zone, pre, d);
        lemma_on_day_all(zone, post, d);
        assert(days[last].1 == windows_on_day(zone, ws, d));
        assert(Seq::<(int, int)>::empty() + post =~= post);
    }
}

} // verus!
