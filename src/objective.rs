use vstd::prelude::*;
use crate::constraint::{ConstraintPipeline, verdict};
use crate::problem::Problem;
use crate::solution::{Solution, Visit, route, route_places, tours_view};

verus! {

/// A solution's cost: first the number of unassigned jobs, then the total time
/// the tours take (capped at `u64::MAX`). Lower is better, compared in that order.
#[derive(Clone, Copy, Debug, PartialEq, Eq, Structural)]
pub struct ObjectiveCost {
    pub unassigned: usize,
    pub duration: u64,
}

/// `a` ranks before or with `b`.
pub open spec fn cost_le(a: ObjectiveCost, b: ObjectiveCost) -> bool {
    a.unassigned < b.unassigned || (a.unassigned == b.unassigned && a.duration <= b.duration)
}

impl ObjectiveCost {
    /// Whether `self` ranks strictly before `other`.
    pub fn better_than(&self, other: &ObjectiveCost) -> (r: bool)
        ensures
            r == !cost_le(*other, *self),
    {
        self.unassigned < other.unassigned || (self.unassigned == other.unassigned && self.duration < other.duration)
    }
}

/// Time tour `t` takes, from the actor's start to the end of its last service.
pub open spec fn tour_time(p: Problem, pipe: ConstraintPipeline, tours: Seq<Seq<Visit>>, t: int) -> int {
    verdict(pipe.modules@, p.actors@[t], route(p, tours[t])).unwrap() - p.actors@[t].start
}

/// Total time of tours `0..n`.
pub open spec fn total_time(p: Problem, pipe: ConstraintPipeline, tours: Seq<Seq<Visit>>, n: int) -> int
    decreases n,
{
    if n <= 0 { 0 } else { total_time(p, pipe, tours, n - 1) + tour_time(p, pipe, tours, n - 1) }
}

pub open spec fn capped(x: int) -> int {
    if x > u64::MAX { u64::MAX as int } else { x }
}

pub open spec fn objective(p: Problem, pipe: ConstraintPipeline, s: Solution) -> ObjectiveCost {
    ObjectiveCost {
        unassigned: s.unassigned@.len() as usize,
        duration: capped(total_time(p, pipe, tours_view(s), s.tours@.len() as int)) as u64,
    }
}

proof fn lemma_end_not_before_start(t: u64, loc: u64, ps: Seq<crate::problem::Place>, w: bool)
    requires
        crate::constraint::schedule_end(t, loc, ps, w) is Some,
    ensures
        crate::constraint::schedule_end(t, loc, ps, w).unwrap() >= t,
    decreases ps.len(),
{
    if ps.len() > 0 {
        let p = ps[0];
        let arrive = t + crate::problem::travel(loc, p.location);
        let begin = if arrive < p.tw_start { p.tw_start as int } else { arrive };
        lemma_end_not_before_start((begin + p.duration) as u64, p.location, ps.drop_first(), w);
    }
}

/// The cost of a well-formed solution.
pub fn evaluate_solution(p: &Problem, pipe: &ConstraintPipeline, s: &Solution) -> (r: ObjectiveCost)
    requires
        p.wf(),
        s.wf(*p, *pipe),
    ensures
        r == objective(*p, *pipe, *s),
{
    let ghost tv = tours_view(*s);
    let mut total: u64 = 0;
    let mut t: usize = 0;
    while t < s.tours.len()
        invariant
            p.wf(),
            s.wf(*p, *pipe),
            tv == tours_view(*s),
            t <= s.tours@.len(),
            total == capped(total_time(*p, *pipe, tv, t as int)),
            total_time(*p, *pipe, tv, t as int) >= 0,
        decreases s.tours@.len() - t,
    {
        let visits = &s.tours[t].visits;
        assert(visits@ == tv[t as int]);
        let places = route_places(p, visits);
        let end = match pipe.evaluate(&p.actors[t], &places) {
            Some(e) => e,
            None => {
                proof {
                    assert(false);
                }
                0
            },
        };
        proof {
            let ps = route(*p, tv[t as int]);
            let a = p.actors@[t as int];
            if !(crate::constraint::has_module(pipe.modules@, crate::constraint::ConstraintModule::Capacity) && !crate::constraint::capacity_ok(ps, a.capacity)) {
                lemma_end_not_before_start(a.start, a.location, ps, crate::constraint::has_module(pipe.modules@, crate::constraint::ConstraintModule::TimeWindow));
            }
        }
        let d = end - p.actors[t].start;
        total = total.saturating_add(d);
        t = t + 1;
    }
    ObjectiveCost { unassigned: s.unassigned.len(), duration: total }
}

} // verus!
