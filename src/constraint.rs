use vstd::prelude::*;
use crate::problem::{Actor, Place, travel, travel_time};

verus! {

/// The modules a pipeline can hold, each a hard check on a whole route.
#[derive(Clone, Copy, Debug, PartialEq, Eq, Structural)]
pub enum ConstraintModule {
    /// The load picked up so far never exceeds the actor's capacity.
    Capacity,
    /// Service at each place begins within its time window.
    TimeWindow,
}

#[derive(Clone, Debug)]
pub struct ConstraintPipeline {
    pub modules: Vec<ConstraintModule>,
}

/// Total demand of a sequence of places.
pub open spec fn load(ps: Seq<Place>) -> int
    decreases ps.len(),
{
    if ps.len() == 0 { 0 } else { load(ps.drop_last()) + ps.last().demand }
}

/// The running load stays within `capacity` at every point of the route.
pub open spec fn capacity_ok(ps: Seq<Place>, capacity: u64) -> bool {
    forall|k: int| 0 <= k <= ps.len() ==> #[trigger] load(ps.take(k)) <= capacity
}

/// When the actor is done with the route, starting at time `t` at `loc`; `None`
/// where a time window is missed (if they are checked) or time runs past `u64::MAX`.
pub open spec fn schedule_end(t: u64, loc: u64, ps: Seq<Place>, check_windows: bool) -> Option<u64>
    decreases ps.len(),
{
    if ps.len() == 0 {
        Some(t)
    } else {
        let p = ps[0];
        let arrive = t + travel(loc, p.location);
        let begin = if arrive < p.tw_start { p.tw_start as int } else { arrive };
        let depart = begin + p.duration;
        if check_windows && begin > p.tw_end {
            None
        } else if depart > u64::MAX {
            None
        } else {
            schedule_end(depart as u64, p.location, ps.drop_first(), check_windows)
        }
    }
}

pub open spec fn has_module(modules: Seq<ConstraintModule>, m: ConstraintModule) -> bool {
    exists|i: int| 0 <= i < modules.len() && modules[i] == m
}

/// The pipeline's verdict on a route: `None` on a hard violation of any module,
/// else the time the route ends.
pub open spec fn verdict(modules: Seq<ConstraintModule>, actor: Actor, ps: Seq<Place>) -> Option<u64> {
    if has_module(modules, ConstraintModule::Capacity) && !capacity_ok(ps, actor.capacity) {
        None
    } else {
        schedule_end(actor.start, actor.location, ps, has_module(modules, ConstraintModule::TimeWindow))
    }
}

pub open spec fn feasible(modules: Seq<ConstraintModule>, actor: Actor, ps: Seq<Place>) -> bool {
    verdict(modules, actor, ps) is Some
}

pub proof fn lemma_empty_route_feasible(modules: Seq<ConstraintModule>, actor: Actor)
    ensures
        feasible(modules, actor, Seq::empty()),
{
    assert forall|k: int| 0 <= k <= 0 implies #[trigger] load(Seq::<Place>::empty().take(k)) <= actor.capacity by {
        assert(Seq::<Place>::empty().take(k) =~= Seq::<Place>::empty());
    }
}

pub proof fn lemma_load_nonneg(ps: Seq<Place>)
    ensures
        load(ps) >= 0,
    decreases ps.len(),
{
    if ps.len() > 0 {
        lemma_load_nonneg(ps.drop_last());
    }
}

pub proof fn lemma_load_append(a: Seq<Place>, b: Seq<Place>)
    ensures
        load(a + b) == load(a) + load(b),
    decreases b.len(),
{
    if b.len() == 0 {
        assert(a + b == a);
    } else {
        assert((a + b).drop_last() == a + b.drop_last());
        lemma_load_append(a, b.drop_last());
    }
}

pub proof fn lemma_load_monotone(ps: Seq<Place>, a: int, b: int)
    requires
        0 <= a <= b <= ps.len(),
    ensures
        load(ps.take(a)) <= load(ps.take(b)),
    decreases b - a,
{
    if a < b {
        lemma_load_monotone(ps, a, b - 1);
        assert(ps.take(b).drop_last() == ps.take(b - 1));
    }
}

fn check_capacity(ps: &Vec<Place>, capacity: u64) -> (r: bool)
    ensures
        r == capacity_ok(ps@, capacity),
{
    let mut total: u64 = 0;
    let mut i: usize = 0;
    assert(ps@.take(0) =~= Seq::<Place>::empty());
    while i < ps.len()
        invariant
            i <= ps@.len(),
            total == load(ps@.take(i as int)),
            total <= capacity,
        decreases ps@.len() - i,
    {
        assert(ps@.take(i as int + 1).drop_last() == ps@.take(i as int));
        let d = ps[i].demand;
        if d > capacity - total {
            assert(load(ps@.take(i as int + 1)) > capacity);
            return false;
        }
        total = total + d;
        i = i + 1;
    }
    assert forall|k: int| 0 <= k <= ps@.len() implies #[trigger] load(ps@.take(k)) <= capacity by {
        lemma_load_monotone(ps@, k, ps@.len() as int);
        assert(ps@.take(ps@.len() as int) == ps@);
    }
    assert(ps@.take(i as int) == ps@);
    true
}

fn schedule(t0: u64, loc0: u64, ps: &Vec<Place>, check_windows: bool) -> (r: Option<u64>)
    ensures
        r == schedule_end(t0, loc0, ps@, check_windows),
{
    let mut t = t0;
    let mut loc = loc0;
    let mut i: usize = 0;
    assert(ps@.subrange(0, ps@.len() as int) == ps@);
    while i < ps.len()
        invariant
            i <= ps@.len(),
            schedule_end(t0, loc0, ps@, check_windows) == schedule_end(t, loc, ps@.subrange(i as int, ps@.len() as int), check_windows),
        decreases ps@.len() - i,
    {
        let ghost rest = ps@.subrange(i as int, ps@.len() as int);
        assert(rest.drop_first() == ps@.subrange(i as int + 1, ps@.len() as int));
        assert(rest[0] == ps@[i as int]);
        let p = ps[i];
        let arrive = match t.checked_add(travel_time(loc, p.location)) {
            Some(a) => a,
            None => {
                return None;
            },
        };
        let begin = if arrive < p.tw_start { p.tw_start } else { arrive };
        if check_windows && begin > p.tw_end {
            return None;
        }
        let depart = match begin.checked_add(p.duration) {
            Some(d) => d,
            None => {
                return None;
            },
        };
        t = depart;
        loc = p.location;
        i = i + 1;
    }
    Some(t)
}

impl ConstraintPipeline {
    /// The pipeline that holds every module.
    pub fn full() -> (r: ConstraintPipeline)
        ensures
            has_module(r.modules@, ConstraintModule::Capacity),
            has_module(r.modules@, ConstraintModule::TimeWindow),
    {
        let r = ConstraintPipeline { modules: vec![ConstraintModule::Capacity, ConstraintModule::TimeWindow] };
        assert(r.modules@[0] == ConstraintModule::Capacity);
        assert(r.modules@[1] == ConstraintModule::TimeWindow);
        r
    }

    fn holds(&self, m: ConstraintModule) -> (r: bool)
        ensures
            r == has_module(self.modules@, m),
    {
        let mut i: usize = 0;
        while i < self.modules.len()
            invariant
                i <= self.modules@.len(),
                forall|k: int| 0 <= k < i ==> self.modules@[k] != m,
            decreases self.modules@.len() - i,
        {
            if self.modules[i] == m {
                return true;
            }
            i = i + 1;
        }
        false
    }

    /// Runs every module on the route that `actor` would drive through `ps`:
    /// `None` on a hard violation, else the time the route ends.
    pub fn evaluate(&self, actor: &Actor, ps: &Vec<Place>) -> (r: Option<u64>)
        ensures
            r == verdict(self.modules@, *actor, ps@),
    {
        if self.holds(ConstraintModule::Capacity) && !check_capacity(ps, actor.capacity) {
            return None;
        }
        let windows = self.holds(ConstraintModule::TimeWindow);
        schedule(actor.start, actor.location, ps, windows)
    }
}

} // verus!
