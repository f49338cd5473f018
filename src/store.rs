use crate::interval::{clashes, first_clash, lemma_clash_is_intersection, GenericWindowComparison};
use crate::template::{
    bounds_error, valid_bounds, validate_range, TemplateError, WeeklyAvailability,
};
use vstd::prelude::*;

verus! {

/// Templates in ascending order of `from`.
pub open spec fn sorted_by_from(ts: Seq<WeeklyAvailability>) -> bool {
    forall|i: int, j: int| 0 <= i < j < ts.len() ==> ts[i].from <= ts[j].from
}

/// No two templates of one owner clash.
pub open spec fn no_owner_overlap(ts: Seq<WeeklyAvailability>) -> bool {
    forall|i: int, j: int|
        0 <= i < ts.len() && 0 <= j < ts.len() && i != j && ts[i].user_id == ts[j].user_id
            ==> !clashes(#[trigger] ts[i].window(), #[trigger] ts[j].window())
}

/// Every template keeps its bounds.
pub open spec fn all_valid(ts: Seq<WeeklyAvailability>) -> bool {
    forall|i: int| 0 <= i < ts.len() ==> valid_bounds(#[trigger] ts[i].from as int, ts[i].to as int)
}

/// Ids identify templates.
pub open spec fn unique_ids(ts: Seq<WeeklyAvailability>) -> bool {
    forall|i: int, j: int| 0 <= i < ts.len() && 0 <= j < ts.len() && i != j ==> #[trigger] ts[i].id != #[trigger] ts[j].id
}

/// What a template store keeps true of its contents.
pub open spec fn store_invariant(ts: Seq<WeeklyAvailability>) -> bool {
    &&& sorted_by_from(ts)
    &&& no_owner_overlap(ts)
    &&& all_valid(ts)
    &&& unique_ids(ts)
}

/// The templates of `owner` whose id is not in `exclude`, in stored order.
pub open spec fn owned_templates(
    ts: Seq<WeeklyAvailability>,
    owner: i64,
    exclude: Seq<i64>,
) -> Seq<WeeklyAvailability>
    decreases ts.len(),
{
    if ts.len() == 0 {
        seq![]
    } else {
        let rest = owned_templates(ts.drop_last(), owner, exclude);
        let t = ts.last();
        if t.user_id == owner && !exclude.contains(t.id) {
            rest.push(t)
        } else {
            rest
        }
    }
}

/// Whether the window `(from, to)` clashes with a stored template of `owner`
/// other than those with an id in `exclude`.
pub open spec fn clashes_owned(
    ts: Seq<WeeklyAvailability>,
    owner: i64,
    exclude: Seq<i64>,
    from: int,
    to: int,
) -> bool {
    exists|k: int|
        0 <= k < ts.len() && ts[k].user_id == owner && !exclude.contains(ts[k].id)
            && #[trigger] clashes((from, to), ts[k].window())
}

/// The first template of `owned` (in its order) that `(from, to)` clashes with.
pub open spec fn is_first_clash(owned: Seq<WeeklyAvailability>, from: int, to: int, c: WeeklyAvailability) -> bool {
    exists|k: int|
        0 <= k < owned.len() && owned[k] == c && clashes((from, to), c.window())
            && forall|j: int| 0 <= j < k ==> !clashes((from, to), #[trigger] owned[j].window())
}

proof fn lemma_owned_members(ts: Seq<WeeklyAvailability>, owner: i64, exclude: Seq<i64>)
    ensures
        forall|t: WeeklyAvailability| #[trigger]
            owned_templates(ts, owner, exclude).contains(t) <==> (ts.contains(t) && t.user_id == owner
                && !exclude.contains(t.id)),
    decreases ts.len(),
{
    if ts.len() > 0 {
        let init = ts.drop_last();
        lemma_owned_members(init, owner, exclude);
        assert(ts =~= init.push(ts.last()));
        assert forall|t: WeeklyAvailability| #[trigger] ts.contains(t) <==> (init.contains(t) || t == ts.last()) by {
            if ts.contains(t) {
                let k = choose|k: int| 0 <= k < ts.len() && ts[k] == t;
                if k < ts.len() - 1 {
                    assert(init[k] == t);
                }
            }
            if init.contains(t) {
                let k = choose|k: int| 0 <= k < init.len() && init[k] == t;
                assert(ts[k] == t);
            }
            if t == ts.last() {
                assert(ts[ts.len() - 1] == t);
            }
        }
        let rest = owned_templates(init, owner, exclude);
        assert forall|t: WeeklyAvailability| #[trigger] rest.push(ts.last()).contains(t) <==> (rest.contains(t) || t == ts.last()) by {
            let s = rest.push(ts.last());
            if s.contains(t) {
                let k = choose|k: int| 0 <= k < s.len() && s[k] == t;
                if k < rest.len() {
                    assert(rest[k] == t);
                }
            }
            if rest.contains(t) {
                let k = choose|k: int| 0 <= k < rest.len() && rest[k] == t;
                assert(s[k] == t);
            }
            if t == ts.last() {
                assert(s[s.len() - 1] == t);
            }
        }
    }
}

proof fn lemma_insert_contains(s: Seq<WeeklyAvailability>, p: int, t: WeeklyAvailability)
    requires
        0 <= p <= s.len(),
    ensures
        s.insert(p, t).len() == s.len() + 1,
        forall|x: WeeklyAvailability| #[trigger] s.insert(p, t).contains(x) <==> (s.contains(x) || x == t),
{
    let n = s.insert(p, t);
    assert forall|x: WeeklyAvailability| #[trigger] n.contains(x) <==> (s.contains(x) || x == t) by {
        if n.contains(x) {
            let k = choose|k: int| 0 <= k < n.len() && n[k] == x;
            if k < p {
                assert(s[k] == x);
            } else if k > p {
                assert(s[k - 1] == x);
            }
        }
        if s.contains(x) {
            let k = choose|k: int| 0 <= k < s.len() && s[k] == x;
            if k < p {
                assert(n[k] == x);
            } else {
                assert(n[k + 1] == x);
            }
        }
        if x == t {
            assert(n[p] == x);
        }
    }
}

proof fn lemma_remove_contains(s: Seq<WeeklyAvailability>, p: int)
    requires
        0 <= p < s.len(),
        unique_ids(s),
    ensures
        s.remove(p).len() == s.len() - 1,
        forall|x: WeeklyAvailability| #[trigger] s.remove(p).contains(x) <==> (s.contains(x) && x.id != s[p].id),
{
    let n = s.remove(p);
    assert forall|x: WeeklyAvailability| #[trigger] n.contains(x) <==> (s.contains(x) && x.id != s[p].id) by {
        if n.contains(x) {
            let k = choose|k: int| 0 <= k < n.len() && n[k] == x;
            if k < p {
                assert(s[k] == x);
            } else {
                assert(s[k + 1] == x);
            }
        }
        if s.contains(x) && x.id != s[p].id {
            let k = choose|k: int| 0 <= k < s.len() && s[k] == x;
            if k < p {
                assert(n[k] == x);
            } else {
                assert(k != p);
                assert(n[k - 1] == x);
            }
        }
    }
}

proof fn lemma_remove_keeps_invariant(s: Seq<WeeklyAvailability>, p: int)
    requires
        0 <= p < s.len(),
        store_invariant(s),
    ensures
        store_invariant(s.remove(p)),
{
    let n = s.remove(p);
    assert(forall|j: int| 0 <= j < p ==> #[trigger] n[j] == s[j]);
    assert(forall|j: int| p <= j < n.len() ==> #[trigger] n[j] == s[j + 1]);
    assert forall|i: int, j: int|
        0 <= i < n.len() && 0 <= j < n.len() && i != j && n[i].user_id == n[j].user_id implies
        !clashes(#[trigger] n[i].window(), #[trigger] n[j].window()) by {
        let si = if i < p { i } else { i + 1 };
        let sj = if j < p { j } else { j + 1 };
        assert(n[i] == s[si]);
        assert(n[j] == s[sj]);
    }
    assert forall|i: int| 0 <= i < n.len() implies valid_bounds(#[trigger] n[i].from as int, n[i].to as int) by {
        let si = if i < p { i } else { i + 1 };
        assert(n[i] == s[si]);
    }
    assert forall|i: int, j: int| 0 <= i < n.len() && 0 <= j < n.len() && i != j implies #[trigger] n[i].id
        != #[trigger] n[j].id by {
        let si = if i < p { i } else { i + 1 };
        let sj = if j < p { j } else { j + 1 };
        assert(n[i] == s[si]);
        assert(n[j] == s[sj]);
    }
    assert forall|i: int, j: int| 0 <= i < j < n.len() implies n[i].from <= n[j].from by {
        let si = if i < p { i } else { i + 1 };
        let sj = if j < p { j } else { j + 1 };
        assert(n[i] == s[si]);
        assert(n[j] == s[sj]);
    }
}

/// Whether `owner` has a stored template with this id.
pub open spec fn has_template(ts: Seq<WeeklyAvailability>, owner: i64, id: i64) -> bool {
    exists|k: int| 0 <= k < ts.len() && #[trigger] ts[k].id == id && ts[k].user_id == owner
}

/// Whether `id` is among `ids`.
fn contains_id(ids: &[i64], id: i64) -> (r: bool)
    ensures
        r == ids@.contains(id),
{
    let mut i: usize = 0;
    while i < ids.len()
        invariant
            0 <= i <= ids@.len(),
            forall|j: int| 0 <= j < i ==> ids@[j] != id,
        decreases ids@.len() - i,
    {
        if ids[i] == id {
            assert(ids@[i as int] == id);
            return true;
        }
        i += 1;
    }
    false
}

/// Stores recurring weekly templates of many owners, keeping them ordered by
/// `from` and free of overlaps within each owner.
pub struct WeeklyTemplateStore {
    templates: Vec<WeeklyAvailability>,
    next_id: i64,
}

impl View for WeeklyTemplateStore {
    type V = Seq<WeeklyAvailability>;

    closed spec fn view(&self) -> Seq<WeeklyAvailability> {
        self.templates@
    }
}

/// What a successful update leads to.
#[derive(Clone, Copy, Debug, PartialEq, Eq)]
pub enum UpdateOutcome {
    /// The template now has the new bounds.
    Updated(WeeklyAvailability),
    /// The new bounds clash with another template of the owner; the stored
    /// template is left as it was and handed back.
    Clash(WeeklyAvailability),
}

impl WeeklyTemplateStore {
    pub closed spec fn wf(&self) -> bool {
        &&& store_invariant(self.templates@)
        &&& self.next_id >= 1
        &&& forall|i: int| 0 <= i < self.templates@.len() ==> #[trigger] self.templates@[i].id < self.next_id
    }

    /// The id the next created template receives.
    pub closed spec fn next_id(&self) -> int {
        self.next_id as int
    }

    pub fn new() -> (r: Self)
        ensures
            r.wf(),
            r@ == Seq::<WeeklyAvailability>::empty(),
            r.next_id() == 1,
    {
        WeeklyTemplateStore { templates: Vec::new(), next_id: 1 }
    }

    /// The templates of `owner` whose id is not in `exclude`, ascending by `from`.
    pub fn find_by_owner(&self, owner: i64, exclude: &[i64]) -> (r: Vec<WeeklyAvailability>)
        requires
            self.wf(),
        ensures
            r@ == owned_templates(self@, owner, exclude@),
            sorted_by_from(r@),
    {
        let mut r: Vec<WeeklyAvailability> = Vec::new();
        let mut i: usize = 0;
        while i < self.templates.len()
            invariant
                self.wf(),
                0 <= i <= self@.len(),
                r@ == owned_templates(self@.subrange(0, i as int), owner, exclude@),
                sorted_by_from(r@),
                forall|k: int, j: int| 0 <= k < r@.len() && i <= j < self@.len() ==> #[trigger] r@[k].from <= #[trigger] self@[j].from,
            decreases self@.len() - i,
        {
            let t = self.templates[i];
            assert(self@.subrange(0, i + 1).drop_last() =~= self@.subrange(0, i as int));
            if t.user_id == owner && !contains_id(exclude, t.id) {
                r.push(t);
            }
            i += 1;
        }
        assert(self@.subrange(0, self@.len() as int) =~= self@);
        r
    }

    /// Adds the template `[from, to)` for `owner`, after checking its bounds
    /// and that it clashes with none of the owner's templates.
    pub fn create(&mut self, owner: i64, from: i32, to: i32) -> (r: Result<WeeklyAvailability, TemplateError>)
        requires
            old(self).wf(),
            old(self).next_id() < i64::MAX,
        ensures
            final(self).wf(),
            r.is_ok() <==> valid_bounds(from as int, to as int) && !clashes_owned(old(self)@, owner, seq![], from as int, to as int),
            r matches Err(e) ==> {
                &&& final(self)@ == old(self)@
                &&& final(self).next_id() == old(self).next_id()
                &&& match bounds_error(from as int, to as int) {
                    Some(b) => e == b,
                    None => e matches TemplateError::Overlap(c) && is_first_clash(
                        owned_templates(old(self)@, owner, seq![]), from as int, to as int, c),
                }
            },
            r matches Ok(t) ==> {
                &&& t == (WeeklyAvailability { id: old(self).next_id() as i64, user_id: owner, from, to })
                &&& forall|i: int| 0 <= i < old(self)@.len() ==> #[trigger] old(self)@[i].id != t.id
                &&& final(self).next_id() == old(self).next_id() + 1
                &&& final(self)@.len() == old(self)@.len() + 1
                &&& forall|x: WeeklyAvailability| #[trigger] final(self)@.contains(x) <==> (old(self)@.contains(x) || x == t)
            },
    {
        if let Err(e) = validate_range(from, to) {
            return Err(e);
        }
        let none: Vec<i64> = Vec::new();
        let rest = self.find_by_owner(owner, none.as_slice());
        assert(none@ =~= seq![]);
        let candidate = WeeklyAvailability { id: self.next_id, user_id: owner, from, to };
        proof {
            lemma_owned_members(self@, owner, seq![]);
        }
        match first_clash(&candidate, rest.as_slice()) {
            Some(k) => {
                proof {
                    let c = rest@[k as int];
                    assert(rest@.contains(c));
                    assert(self@.contains(c));
                    let m = choose|m: int| 0 <= m < self@.len() && self@[m] == c;
                    assert(clashes((from as int, to as int), self@[m].window()));
                }
                return Err(TemplateError::Overlap(rest[k]));
            },
            None => {
                proof {
                    assert forall|m: int| 0 <= m < self@.len() && self@[m].user_id == owner implies
                        !clashes((from as int, to as int), #[trigger] self@[m].window()) by {
                        assert(self@.contains(self@[m]));
                        assert(rest@.contains(self@[m]));
                        let k = choose|k: int| 0 <= k < rest@.len() && rest@[k] == self@[m];
                        assert(!clashes(candidate.window(), rest@[k].window()));
                    }
                }
            },
        }
        let ghost before = self@;
        self.insert_sorted(candidate);
        proof {
            let p = choose|p: int| 0 <= p <= before.len() && self@ == before.insert(p, candidate);
            lemma_insert_contains(before, p, candidate);
        }
        self.next_id = self.next_id + 1;
        Ok(candidate)
    }

    /// Inserts `t` after every template whose `from` is not above its own.
    fn insert_sorted(&mut self, t: WeeklyAvailability)
        requires
            store_invariant(old(self).templates@),
            valid_bounds(t.from as int, t.to as int),
            forall|i: int| 0 <= i < old(self).templates@.len() ==> #[trigger] old(self).templates@[i].id != t.id,
            forall|i: int| 0 <= i < old(self).templates@.len() && old(self).templates@[i].user_id == t.user_id
                ==> !clashes(t.window(), #[trigger] old(self).templates@[i].window()),
        ensures
            store_invariant(final(self).templates@),
            final(self).next_id == old(self).next_id,
            exists|p: int| 0 <= p <= old(self).templates@.len() && final(self).templates@ == old(self).templates@.insert(p, t),
    {
        let ghost s = self.templates@;
        let mut p: usize = 0;
        while p < self.templates.len() && self.templates[p].from <= t.from
            invariant
                self.templates@ == s,
                0 <= p <= s.len(),
                forall|j: int| 0 <= j < p ==> #[trigger] s[j].from <= t.from,
            decreases s.len() - p,
        {
            p += 1;
        }
        self.templates.insert(p, t);
        proof {
            let n = self.templates@;
            assert(forall|j: int| p < j < n.len() ==> #[trigger] n[j] == s[j - 1]);
            assert(forall|j: int| 0 <= j < p ==> #[trigger] n[j] == s[j]);
            assert(n[p as int] == t);
            assert forall|j: int| p < j < n.len() implies t.from < #[trigger] n[j].from by {
                assert(n[j] == s[j - 1]);
                assert(s[p as int].from > t.from);
                assert(s[p as int].from <= s[j - 1].from);
            }
            assert forall|i: int, j: int|
                0 <= i < n.len() && 0 <= j < n.len() && i != j && n[i].user_id == n[j].user_id implies
                !clashes(#[trigger] n[i].window(), #[trigger] n[j].window()) by {
                if i == p {
                    let sj = if j < p { j } else { j - 1 };
                    assert(n[j] == s[sj]);
                } else if j == p {
                    let si = if i < p { i } else { i - 1 };
                    assert(n[i] == s[si]);
                    assert(valid_bounds(s[si].from as int, s[si].to as int));
                    lemma_clash_is_intersection(t.window(), s[si].window());
                    lemma_clash_is_intersection(s[si].window(), t.window());
                } else {
                    let si = if i < p { i } else { i - 1 };
                    let sj = if j < p { j } else { j - 1 };
                    assert(n[i] == s[si]);
                    assert(n[j] == s[sj]);
                }
            }
            assert forall|i: int| 0 <= i < n.len() implies valid_bounds(#[trigger] n[i].from as int, n[i].to as int) by {
                if i < p {
                    assert(n[i] == s[i]);
                } else if i > p {
                    assert(n[i] == s[i - 1]);
                }
            }
            assert forall|i: int, j: int| 0 <= i < n.len() && 0 <= j < n.len() && i != j implies #[trigger] n[i].id
                != #[trigger] n[j].id by {
                let si = if i < p { i } else { i - 1 };
                let sj = if j < p { j } else { j - 1 };
                if i != p {
                    assert(n[i] == s[si]);
                }
                if j != p {
                    assert(n[j] == s[sj]);
                }
            }
            assert forall|i: int, j: int| 0 <= i < j < n.len() implies n[i].from <= n[j].from by {
                let si = if i < p { i } else { i - 1 };
                let sj = if j < p { j } else { j - 1 };
                if i != p {
                    assert(n[i] == s[si]);
                }
                if j != p {
                    assert(n[j] == s[sj]);
                }
            }
        }
    }

    /// Where the template `id` of `owner` stands, if it is stored.
    fn position_of(&self, owner: i64, id: i64) -> (r: Option<usize>)
        requires
            self.wf(),
        ensures
            r is None <==> !has_template(self@, owner, id),
            r matches Some(k) ==> k < self@.len() && self@[k as int].id == id && self@[k as int].user_id == owner,
    {
        let mut i: usize = 0;
        while i < self.templates.len()
            invariant
                0 <= i <= self@.len(),
                forall|j: int| 0 <= j < i ==> !(#[trigger] self@[j].id == id && self@[j].user_id == owner),
            decreases self@.len() - i,
        {
            if self.templates[i].id == id && self.templates[i].user_id == owner {
                return Some(i);
            }
            i += 1;
        }
        None
    }

    /// Gives the template `id` of `owner` the bounds `[from, to)`, after the
    /// checks of `create`, where the template itself is left out of the
    /// overlap check. A clash leaves the store as it was and hands back the
    /// stored template.
    pub fn update(&mut self, owner: i64, id: i64, from: i32, to: i32) -> (r: Result<UpdateOutcome, TemplateError>)
        requires
            old(self).wf(),
        ensures
            final(self).wf(),
            final(self).next_id() == old(self).next_id(),
            r.is_err() <==> bounds_error(from as int, to as int) is Some || !has_template(old(self)@, owner, id),
            r matches Err(e) ==> {
                &&& final(self)@ == old(self)@
                &&& match bounds_error(from as int, to as int) {
                    Some(b) => e == b,
                    None => e == TemplateError::NotFound,
                }
            },
            r matches Ok(UpdateOutcome::Clash(c)) ==> {
                &&& final(self)@ == old(self)@
                &&& old(self)@.contains(c) && c.id == id && c.user_id == owner
            },
            r.is_ok() ==> (r matches Ok(UpdateOutcome::Clash(_)) <==> clashes_owned(
                old(self)@, owner, seq![id], from as int, to as int)),
            r matches Ok(UpdateOutcome::Updated(t)) ==> {
                &&& t == (WeeklyAvailability { id, user_id: owner, from, to })
                &&& final(self)@.len() == old(self)@.len()
                &&& forall|x: WeeklyAvailability| #[trigger] final(self)@.contains(x) <==> ((old(self)@.contains(x)
                    && x.id != id) || x == t)
            },
    {
        if let Err(e) = validate_range(from, to) {
            return Err(e);
        }
        let k = match self.position_of(owner, id) {
            Some(k) => k,
            None => {
                return Err(TemplateError::NotFound);
            },
        };
        let original = self.templates[k];
        let mut excluded: Vec<i64> = Vec::new();
        excluded.push(id);
        let rest = self.find_by_owner(owner, excluded.as_slice());
        assert(excluded@ =~= seq![id]);
        let candidate = WeeklyAvailability { id, user_id: owner, from, to };
        proof {
            lemma_owned_members(self@, owner, seq![id]);
        }
        match first_clash(&candidate, rest.as_slice()) {
            Some(j) => {
                proof {
                    let c = rest@[j as int];
                    assert(rest@.contains(c));
                    assert(self@.contains(c));
                    let m = choose|m: int| 0 <= m < self@.len() && self@[m] == c;
                    assert(clashes((from as int, to as int), self@[m].window()));
                    assert(self@.contains(original));
                }
                return Ok(UpdateOutcome::Clash(original));
            },
            None => {
                proof {
                    assert forall|m: int| 0 <= m < self@.len() && self@[m].user_id == owner && !seq![id].contains(
                        self@[m].id) implies !clashes((from as int, to as int), #[trigger] self@[m].window()) by {
                        assert(self@.contains(self@[m]));
                        assert(rest@.contains(self@[m]));
                        let j = choose|j: int| 0 <= j < rest@.len() && rest@[j] == self@[m];
                        assert(!clashes(candidate.window(), rest@[j].window()));
                    }
                }
            },
        }
        let ghost before = self@;
        self.templates.remove(k);
        let ghost removed = self@;
        proof {
            lemma_remove_keeps_invariant(before, k as int);
            lemma_remove_contains(before, k as int);
            assert forall|i: int| 0 <= i < removed.len() && removed[i].user_id == owner implies !clashes(
                candidate.window(), #[trigger] removed[i].window()) by {
                assert(removed.contains(removed[i]));
                let m = choose|m: int| 0 <= m < before.len() && before[m] == removed[i];
                assert(!seq![id].contains(before[m].id)) by {
                    if seq![id].contains(before[m].id) {
                        let z = choose|z: int| 0 <= z < 1 && seq![id][z] == before[m].id;
                        assert(seq![id][z] == id);
                    }
                }
            }
            assert forall|i: int| 0 <= i < removed.len() implies #[trigger] removed[i].id != id by {
                assert(removed.contains(removed[i]));
            }
            assert forall|i: int| 0 <= i < removed.len() implies #[trigger] removed[i].id < self.next_id by {
                assert(removed.contains(removed[i]));
                let m = choose|m: int| 0 <= m < before.len() && before[m] == removed[i];
            }
        }
        self.insert_sorted(candidate);
        proof {
            let p = choose|p: int| 0 <= p <= removed.len() && self@ == removed.insert(p, candidate);
            lemma_insert_contains(removed, p, candidate);
        }
        Ok(UpdateOutcome::Updated(candidate))
    }

    /// Removes the template `id` of `owner` and hands it back.
    pub fn delete(&mut self, owner: i64, id: i64) -> (r: Result<WeeklyAvailability, TemplateError>)
        requires
            old(self).wf(),
        ensures
            final(self).wf(),
            final(self).next_id() == old(self).next_id(),
            r.is_ok() <==> has_template(old(self)@, owner, id),
            r matches Err(e) ==> e == TemplateError::NotFound && final(self)@ == old(self)@,
            r matches Ok(t) ==> {
                &&& old(self)@.contains(t) && t.id == id && t.user_id == owner
                &&& final(self)@.len() == old(self)@.len() - 1
                &&& forall|x: WeeklyAvailability| #[trigger] final(self)@.contains(x) <==> (old(self)@.contains(x)
                    && x.id != id)
            },
    {
        match self.position_of(owner, id) {
            Some(k) => {
                let ghost before = self@;
                let t = self.templates.remove(k);
                proof {
                    lemma_remove_keeps_invariant(before, k as int);
                    lemma_remove_contains(before, k as int);
                    assert(before.contains(t));
                    assert forall|i: int| 0 <= i < self@.len() implies #[trigger] self@[i].id < self.next_id by {
                        assert(self@.contains(self@[i]));
                        let m = choose|m: int| 0 <= m < before.len() && before[m] == self@[i];
                    }
                }
                Ok(t)
            },
            None => Err(TemplateError::NotFound),
        }
    }
}

} // verus!

verus! {

/// However a store was built by `new`, `create`, `update` and `delete`, no two
/// templates of one owner overlap, each keeps `0 <= from < to <= 10080`, ids
/// are distinct, and each is below the id the next template receives.
pub proof fn lemma_store_never_overlaps(store: &WeeklyTemplateStore)
    requires
        store.wf(),
    ensures
        no_owner_overlap(store@),
        all_valid(store@),
        sorted_by_from(store@),
        unique_ids(store@),
        forall|i: int| 0 <= i < store@.len() ==> #[trigger] store@[i].id < store.next_id(),
{
}

} // verus!
