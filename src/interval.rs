use vstd::prelude::*;

verus! {

/// The three clash rules on half-open windows `[start, end)` given as
/// `(start, end)` pairs in one coordinate space.
pub open spec fn clashes(subject: (int, int), other: (int, int)) -> bool {
    ||| (other.0 <= subject.0 && subject.0 < other.1)
    ||| (other.0 < subject.1 && subject.1 <= other.1)
    ||| (subject.0 <= other.0 && subject.1 >= other.1)
}

/// A value that occupies a window of time, in a coordinate space shared by
/// the values it is compared with (absolute seconds, or minutes of the week).
pub trait GenericWindowComparison {
    spec fn window(&self) -> (int, int);

    fn start_time(&self) -> (r: i64)
        ensures
            r == self.window().0,
    ;

    fn end_time(&self) -> (r: i64)
        ensures
            r == self.window().1,
    ;
}

/// Whether `subject` clashes with any window among `others`.
pub open spec fn clashes_any<S: GenericWindowComparison, O: GenericWindowComparison>(
    subject: &S,
    others: Seq<O>,
) -> bool {
    exists|i: int| 0 <= i < others.len() && #[trigger] clashes(subject.window(), others[i].window())
}

/// The position of the first window among `others` that `subject` clashes
/// with, if there is one.
pub fn first_clash<S: GenericWindowComparison, O: GenericWindowComparison>(
    subject: &S,
    others: &[O],
) -> (r: Option<usize>)
    ensures
        r is None <==> !clashes_any(subject, others@),
        r matches Some(k) ==> {
            &&& k < others@.len()
            &&& clashes(subject.window(), others@[k as int].window())
            &&& forall|j: int| 0 <= j < k ==> !clashes(subject.window(), #[trigger] others@[j].window())
        },
{
    let start = subject.start_time();
    let end = subject.end_time();
    let mut i: usize = 0;
    while i < others.len()
        invariant
            0 <= i <= others@.len(),
            start == subject.window().0,
            end == subject.window().1,
            forall|j: int| 0 <= j < i ==> !clashes(subject.window(), #[trigger] others@[j].window()),
        decreases others@.len() - i,
    {
        let other_start = others[i].start_time();
        let other_end = others[i].end_time();
        if (start >= other_start && start < other_end) || (end > other_start && end <= other_end) || (
        start <= other_start && end >= other_end) {
            assert(clashes(subject.window(), others@[i as int].window()));
            return Some(i);
        }
        i += 1;
    }
    None
}

/// Checks `subject` against every window of `others` by the three clash rules.
pub fn clash_check<S: GenericWindowComparison, O: GenericWindowComparison>(
    subject: &S,
    others: &[O],
) -> (r: bool)
    ensures
        r == clashes_any(subject, others@),
{
    first_clash(subject, others).is_some()
}

/// An absolute window `[start, end)` in seconds since the Unix epoch (UTC).
#[derive(Clone, Copy, Debug, PartialEq, Eq)]
pub struct AvailabilityWindow {
    pub start: i64,
    pub end: i64,
}

impl GenericWindowComparison for AvailabilityWindow {
    open spec fn window(&self) -> (int, int) {
        (self.start as int, self.end as int)
    }

    fn start_time(&self) -> (r: i64) {
        self.start
    }

    fn end_time(&self) -> (r: i64) {
        self.end
    }
}

/// On non-empty windows the three clash rules say exactly that the two
/// half-open windows share a point.
pub proof fn lemma_clash_is_intersection(a: (int, int), b: (int, int))
    requires
        a.0 < a.1,
        b.0 < b.1,
    ensures
        clashes(a, b) <==> (a.0 < b.1 && b.0 < a.1),
{
}

/// Windows that only touch at an end point do not clash.
pub proof fn lemma_touching_windows_do_not_clash(a: (int, int), b: (int, int))
    requires
        a.0 < a.1,
        a.1 == b.0,
        b.0 < b.1,
    ensures
        !clashes(a, b),
        !clashes(b, a),
{
}

} // verus!
