use crate::interval::{clash_check, clashes, GenericWindowComparison, AvailabilityWindow};
use crate::template::WeeklyAvailability;
use crate::zone::{
    in_instant_range, local_week_second, week_second_at, zone_offset, Zone, EPOCH_AFTER_MONDAY,
    MAX_INSTANT, WEEK_SECONDS,
};
use vstd::prelude::*;

verus! {

/// Longest slot handled, in seconds: as many minutes as an `i32` holds.
pub const MAX_SLOT_SECONDS: i64 = 128_849_018_820;

/// The first index from `i` on of a template that ends after week second
/// `w`, or `ts.len()` if there is none.
pub open spec fn first_ending_after(ts: Seq<WeeklyAvailability>, w: int, i: int) -> int
    decreases ts.len() - i,
{
    if i >= ts.len() {
        ts.len() as int
    } else if ts[i].to * 60 > w {
        i
    } else {
        first_ending_after(ts, w, i + 1)
    }
}

proof fn lemma_first_ending_after_range(ts: Seq<WeeklyAvailability>, w: int, i: int)
    requires
        0 <= i,
    ensures
        i <= first_ending_after(ts, w, i) <= ts.len() || (i > ts.len() && first_ending_after(ts, w, i) == ts.len()),
    decreases ts.len() - i,
{
    if i < ts.len() && !(ts[i].to * 60 > w) {
        lemma_first_ending_after_range(ts, w, i + 1);
    }
}

/// The template that a cursor at week second `w` looks at: the first, in
/// the given order, that ends after `w`.
pub open spec fn next_template(ts: Seq<WeeklyAvailability>, w: int) -> int {
    first_ending_after(ts, w, 0)
}

/// How far, in seconds, the walk moves on from a cursor at week second `w`
/// with slots of `d` seconds, by the local clock: to next Monday 00:00 when
/// no template is left this week, to the template's start when before it, to
/// the next `d`-boundary from the template's start when between two, and by
/// one slot otherwise.
pub open spec fn advance(ts: Seq<WeeklyAvailability>, d: int, w: int) -> int {
    let k = next_template(ts, w);
    if k >= ts.len() {
        WEEK_SECONDS - w
    } else if ts[k].from * 60 > w {
        ts[k].from * 60 - w
    } else if (w - ts[k].from * 60) % d != 0 {
        d - (w - ts[k].from * 60) % d
    } else {
        d
    }
}

/// Where the walk goes from `cursor`. Within the week it moves by
/// `advance`. To reach next Monday 00:00 of the local clock it moves by
/// `advance` and then by the change of the zone's offset on the way, so that
/// a clock change before Monday does not shift the landing; where that would
/// not move forward (a clock change at midnight itself), it keeps to
/// `advance`.
pub open spec fn next_cursor(ts: Seq<WeeklyAvailability>, d: int, zone: Seq<char>, cursor: int) -> int {
    let w = local_week_second(zone, cursor);
    let naive = cursor + advance(ts, d, w);
    if next_template(ts, w) >= ts.len() {
        let corrected = naive + zone_offset(zone, cursor) - zone_offset(zone, naive);
        if corrected > cursor {
            corrected
        } else {
            naive
        }
    } else {
        naive
    }
}

/// Whether the slot of `d` seconds at week second `w` lies on a boundary of
/// the template found for `w` and ends within it.
pub open spec fn slot_fits(ts: Seq<WeeklyAvailability>, d: int, w: int) -> bool {
    let k = next_template(ts, w);
    &&& k < ts.len()
    &&& ts[k].from * 60 <= w
    &&& (w - ts[k].from * 60) % d == 0
    &&& w + d <= ts[k].to * 60
}

/// Whether `window` clashes with a busy interval.
pub open spec fn busy_clash(window: (int, int), busy: Seq<AvailabilityWindow>) -> bool {
    exists|i: int| 0 <= i < busy.len() && #[trigger] clashes(window, busy[i].window())
}

/// The slots, as `(start, end)` instants, that the walk from `cursor` up to
/// `limit` offers: templates in minutes of the week, read in the zone's local
/// time; slots of `d` seconds; none that clashes with a busy interval.
pub open spec fn slots_between(
    ts: Seq<WeeklyAvailability>,
    busy: Seq<AvailabilityWindow>,
    d: int,
    zone: Seq<char>,
    cursor: int,
    limit: int,
) -> Seq<(int, int)>
    decreases if cursor < limit { limit - cursor } else { 0 },
{
    if d <= 0 || cursor >= limit {
        seq![]
    } else {
        let w = local_week_second(zone, cursor);
        proof {
            lemma_next_cursor_forward(ts, d, zone, cursor);
        }
        let rest = slots_between(ts, busy, d, zone, next_cursor(ts, d, zone, cursor), limit);
        if slot_fits(ts, d, w) && !busy_clash((cursor, cursor + d), busy) {
            seq![(cursor, cursor + d)] + rest
        } else {
            rest
        }
    }
}

pub proof fn lemma_week_second_bounds(zone: Seq<char>, at: int)
    ensures
        0 <= local_week_second(zone, at) < WEEK_SECONDS,
{
    vstd::arithmetic::div_mod::lemma_mod_bound(at + zone_offset(zone, at) + EPOCH_AFTER_MONDAY, WEEK_SECONDS as int);
}

/// The walk always moves forward.
pub proof fn lemma_next_cursor_forward(ts: Seq<WeeklyAvailability>, d: int, zone: Seq<char>, cursor: int)
    requires
        d > 0,
    ensures
        cursor < next_cursor(ts, d, zone, cursor),
{
    lemma_week_second_bounds(zone, cursor);
    lemma_advance_positive(ts, d, local_week_second(zone, cursor));
}

pub proof fn lemma_advance_positive(ts: Seq<WeeklyAvailability>, d: int, w: int)
    requires
        d > 0,
        0 <= w < WEEK_SECONDS,
    ensures
        0 < advance(ts, d, w),
{
    let k = next_template(ts, w);
    if k < ts.len() && ts[k].from * 60 <= w {
        vstd::arithmetic::div_mod::lemma_mod_bound(w - ts[k].from * 60, d);
    }
}

/// The windows of a sequence of intervals.
pub open spec fn windows_of(s: Seq<AvailabilityWindow>) -> Seq<(int, int)> {
    s.map_values(|x: AvailabilityWindow| (x.start as int, x.end as int))
}

/// Index of the template a cursor at week second `w` looks at.
fn next_template_index(ts: &Vec<WeeklyAvailability>, w: i64) -> (r: usize)
    ensures
        r as int == next_template(ts@, w as int),
{
    let mut i: usize = 0;
    while i < ts.len()
        invariant
            0 <= i <= ts@.len(),
            first_ending_after(ts@, w as int, 0) == first_ending_after(ts@, w as int, i as int),
        decreases ts@.len() - i,
    {
        if ts[i].to as i64 * 60 > w {
            return i;
        }
        i += 1;
    }
    i
}

/// Walks from `start` up to `limit` and returns the slots of `duration`
/// seconds that the templates offer in the zone's local time and that clash
/// with no busy interval, in ascending order.
pub fn generate_slots(
    templates: &Vec<WeeklyAvailability>,
    busy: &Vec<AvailabilityWindow>,
    duration: i64,
    zone: &Zone,
    start: i64,
    limit: i64,
) -> (r: Vec<AvailabilityWindow>)
    requires
        0 < duration <= MAX_SLOT_SECONDS,
        in_instant_range(start as int),
        in_instant_range(limit as int),
    ensures
        windows_of(r@) == slots_between(templates@, busy@, duration as int, zone@, start as int, limit as int),
{
    let mut out: Vec<AvailabilityWindow> = Vec::new();
    let mut cursor: i64 = start;
    while cursor < limit
        invariant
            0 < duration <= MAX_SLOT_SECONDS,
            in_instant_range(start as int),
            in_instant_range(limit as int),
            start <= cursor <= MAX_INSTANT + MAX_SLOT_SECONDS,
            windows_of(out@) + slots_between(templates@, busy@, duration as int, zone@, cursor as int, limit as int)
                == slots_between(templates@, busy@, duration as int, zone@, start as int, limit as int),
        decreases if cursor < limit { limit - cursor } else { 0 },
    {
        let w = week_second_at(zone, cursor);
        let ghost ts = templates@;
        let ghost rest = slots_between(templates@, busy@, duration as int, zone@, cursor as int, limit as int);
        let ghost out_before = windows_of(out@);
        let ghost emitted = slot_fits(ts, duration as int, w as int) && !busy_clash(
            (cursor as int, cursor + duration),
            busy@,
        );
        let k = next_template_index(templates, w);
        let step: i64;
        if k >= templates.len() {
            let naive = cursor + (WEEK_SECONDS - w);
            let corrected = naive + zone.offset_at(cursor) as i64 - zone.offset_at(naive) as i64;
            if corrected > cursor {
                step = corrected - cursor;
            } else {
                step = WEEK_SECONDS - w;
            }
        } else {
            let from = templates[k].from as i64 * 60;
            let to = templates[k].to as i64 * 60;
            if from > w {
                step = from - w;
            } else if (w - from) % duration != 0 {
                step = duration - (w - from) % duration;
            } else {
                if w + duration <= to {
                    let candidate = AvailabilityWindow { start: cursor, end: cursor + duration };
                    let clash = clash_check(&candidate, busy.as_slice());
                    assert(candidate.window() == (cursor as int, cursor + duration));
                    assert(clash == busy_clash((cursor as int, cursor + duration), busy@));
                    if !clash {
                        let ghost before = out@;
                        out.push(candidate);
                        assert(windows_of(out@) =~= windows_of(before).push((cursor as int, cursor + duration)));
                    }
                }
                step = duration;
            }
        }
        proof {
            lemma_advance_positive(ts, duration as int, w as int);
            assert(0 < step <= MAX_SLOT_SECONDS) by {
                if k < templates.len() && templates@[k as int].from * 60 <= w {
                    vstd::arithmetic::div_mod::lemma_mod_bound(w - templates@[k as int].from * 60, duration as int);
                }
            }
            assert(cursor + step == next_cursor(ts, duration as int, zone@, cursor as int));
        }
        let ghost old_cursor = cursor;
        cursor = cursor + step;
        proof {
            let next = slots_between(templates@, busy@, duration as int, zone@, cursor as int, limit as int);
            let win = (old_cursor as int, old_cursor + duration);
            if emitted {
                assert(rest == seq![win] + next);
                assert(windows_of(out@) == out_before.push(win));
                assert(out_before + rest =~= out_before.push(win) + next);
            } else {
                assert(rest == next);
                assert(windows_of(out@) == out_before);
            }
        }
    }
    out
}

} // verus!

verus! {

/// Whether a slot of `d` seconds starting at instant `start` lies, in the
/// zone's local week, within one of the templates.
pub open spec fn within_template(ts: Seq<WeeklyAvailability>, d: int, zone: Seq<char>, start: int) -> bool {
    exists|k: int|
        0 <= k < ts.len() && ts[k].from * 60 <= local_week_second(zone, start) && local_week_second(zone, start)
            + d <= #[trigger] ts[k].to * 60
}

/// What holds of each slot of a walk from `cursor` up to `limit`.
pub open spec fn slot_ok(
    ts: Seq<WeeklyAvailability>,
    busy: Seq<AvailabilityWindow>,
    d: int,
    zone: Seq<char>,
    cursor: int,
    limit: int,
    slot: (int, int),
) -> bool {
    &&& slot.1 - slot.0 == d
    &&& cursor <= slot.0 < limit
    &&& within_template(ts, d, zone, slot.0)
    &&& !busy_clash(slot, busy)
}

proof fn lemma_walk(
    ts: Seq<WeeklyAvailability>,
    busy: Seq<AvailabilityWindow>,
    d: int,
    zone: Seq<char>,
    cursor: int,
    limit: int,
)
    ensures
        forall|i: int|
            0 <= i < slots_between(ts, busy, d, zone, cursor, limit).len() ==> slot_ok(
                ts,
                busy,
                d,
                zone,
                cursor,
                limit,
                #[trigger] slots_between(ts, busy, d, zone, cursor, limit)[i],
            ),
        forall|i: int, j: int|
            0 <= i < j < slots_between(ts, busy, d, zone, cursor, limit).len() ==> (#[trigger] slots_between(
                ts,
                busy,
                d,
                zone,
                cursor,
                limit,
            )[i]).1 <= (#[trigger] slots_between(ts, busy, d, zone, cursor, limit)[j]).0,
    decreases if cursor < limit { limit - cursor } else { 0 },
{
    if !(d <= 0 || cursor >= limit) {
        let w = local_week_second(zone, cursor);
        lemma_week_second_bounds(zone, cursor);
        lemma_advance_positive(ts, d, w);
        lemma_next_cursor_forward(ts, d, zone, cursor);
        let next = next_cursor(ts, d, zone, cursor);
        lemma_walk(ts, busy, d, zone, next, limit);
        let rest = slots_between(ts, busy, d, zone, next, limit);
        let s = slots_between(ts, busy, d, zone, cursor, limit);
        if slot_fits(ts, d, w) && !busy_clash((cursor, cursor + d), busy) {
            let k = next_template(ts, w);
            lemma_first_ending_after_range(ts, w, 0);
            assert(advance(ts, d, w) == d);
            assert(s == seq![(cursor, cursor + d)] + rest);
            assert(within_template(ts, d, zone, cursor)) by {
                assert(ts[k].from * 60 <= w && w + d <= ts[k].to * 60);
            }
            assert forall|i: int| 0 <= i < s.len() implies slot_ok(ts, busy, d, zone, cursor, limit, #[trigger] s[i]) by {
                if i > 0 {
                    assert(s[i] == rest[i - 1]);
                }
            }
            assert forall|i: int, j: int| 0 <= i < j < s.len() implies (#[trigger] s[i]).1 <= (#[trigger] s[j]).0 by {
                assert(s[j] == rest[j - 1]);
                if i > 0 {
                    assert(s[i] == rest[i - 1]);
                } else {
                    assert(slot_ok(ts, busy, d, zone, next, limit, rest[j - 1]));
                }
            }
        } else {
            assert(s == rest);
            assert forall|i: int| 0 <= i < s.len() implies slot_ok(ts, busy, d, zone, cursor, limit, #[trigger] s[i]) by {
                assert(slot_ok(ts, busy, d, zone, next, limit, rest[i]));
            }
        }
    }
}

/// Every slot that the walk emits lasts exactly the slot length.
pub proof fn lemma_slots_have_duration(
    ts: Seq<WeeklyAvailability>,
    busy: Seq<AvailabilityWindow>,
    d: int,
    zone: Seq<char>,
    start: int,
    limit: int,
)
    ensures
        forall|i: int|
            0 <= i < slots_between(ts, busy, d, zone, start, limit).len() ==> (#[trigger] slots_between(
                ts,
                busy,
                d,
                zone,
                start,
                limit,
            )[i]).1 - slots_between(ts, busy, d, zone, start, limit)[i].0 == d,
{
    lemma_walk(ts, busy, d, zone, start, limit);
    assert forall|i: int| 0 <= i < slots_between(ts, busy, d, zone, start, limit).len() implies (
    #[trigger] slots_between(ts, busy, d, zone, start, limit)[i]).1 - slots_between(
        ts,
        busy,
        d,
        zone,
        start,
        limit,
    )[i].0 == d by {
        assert(slot_ok(ts, busy, d, zone, start, limit, slots_between(ts, busy, d, zone, start, limit)[i]));
    }
}

/// Every slot that the walk emits lies, in minutes since local Monday 00:00,
/// within one of the templates.
pub proof fn lemma_slots_within_templates(
    ts: Seq<WeeklyAvailability>,
    busy: Seq<AvailabilityWindow>,
    d: int,
    zone: Seq<char>,
    start: int,
    limit: int,
)
    ensures
        forall|i: int|
            0 <= i < slots_between(ts, busy, d, zone, start, limit).len() ==> within_template(
                ts,
                d,
                zone,
                (#[trigger] slots_between(ts, busy, d, zone, start, limit)[i]).0,
            ),
{
    lemma_walk(ts, busy, d, zone, start, limit);
    assert forall|i: int| 0 <= i < slots_between(ts, busy, d, zone, start, limit).len() implies within_template(
        ts,
        d,
        zone,
        (#[trigger] slots_between(ts, busy, d, zone, start, limit)[i]).0,
    ) by {
        assert(slot_ok(ts, busy, d, zone, start, limit, slots_between(ts, busy, d, zone, start, limit)[i]));
    }
}

/// No slot that the walk emits clashes with a busy interval of the call.
pub proof fn lemma_slots_avoid_busy(
    ts: Seq<WeeklyAvailability>,
    busy: Seq<AvailabilityWindow>,
    d: int,
    zone: Seq<char>,
    start: int,
    limit: int,
)
    ensures
        forall|i: int, b: int|
            0 <= i < slots_between(ts, busy, d, zone, start, limit).len() && 0 <= b < busy.len() ==> !clashes(
                #[trigger] slots_between(ts, busy, d, zone, start, limit)[i],
                #[trigger] busy[b].window(),
            ),
{
    lemma_walk(ts, busy, d, zone, start, limit);
    assert forall|i: int, b: int|
        0 <= i < slots_between(ts, busy, d, zone, start, limit).len() && 0 <= b < busy.len() implies !clashes(
        #[trigger] slots_between(ts, busy, d, zone, start, limit)[i],
        #[trigger] busy[b].window(),
    ) by {
        assert(slot_ok(ts, busy, d, zone, start, limit, slots_between(ts, busy, d, zone, start, limit)[i]));
    }
}

/// The walk emits slots in ascending order, each ending no later than the
/// next begins, all starting within `[start, limit)`.
pub proof fn lemma_slots_ascending(
    ts: Seq<WeeklyAvailability>,
    busy: Seq<AvailabilityWindow>,
    d: int,
    zone: Seq<char>,
    start: int,
    limit: int,
)
    ensures
        forall|i: int, j: int|
            0 <= i < j < slots_between(ts, busy, d, zone, start, limit).len() ==> (#[trigger] slots_between(
                ts,
                busy,
                d,
                zone,
                start,
                limit,
            )[i]).1 <= (#[trigger] slots_between(ts, busy, d, zone, start, limit)[j]).0,
        forall|i: int|
            0 <= i < slots_between(ts, busy, d, zone, start, limit).len() ==> start <= (
            #[trigger] slots_between(ts, busy, d, zone, start, limit)[i]).0 < limit,
{
    lemma_walk(ts, busy, d, zone, start, limit);
    assert forall|i: int| 0 <= i < slots_between(ts, busy, d, zone, start, limit).len() implies start <= (
    #[trigger] slots_between(ts, busy, d, zone, start, limit)[i]).0 < limit by {
        assert(slot_ok(ts, busy, d, zone, start, limit, slots_between(ts, busy, d, zone, start, limit)[i]));
    }
}

} // verus!
