use vstd::prelude::*;
use crate::constraint::{ConstraintPipeline, feasible, verdict};
use crate::problem::{Job, Place, Problem};

verus! {

/// A job served in a tour, with the index of the permutation its parts follow.
#[derive(Clone, Copy, Debug, PartialEq, Eq, Structural)]
pub struct Visit {
    pub job: usize,
    pub perm: usize,
}

/// The visits of one actor, in order; tour `i` of a solution is driven by actor `i`.
#[derive(Clone, Debug)]
pub struct Tour {
    pub visits: Vec<Visit>,
}

#[derive(Clone, Debug)]
pub struct Solution {
    pub tours: Vec<Tour>,
    /// Indices of the jobs that could not be placed.
    pub unassigned: Vec<usize>,
}

pub open spec fn valid_visit(p: Problem, v: Visit) -> bool {
    v.job < p.jobs@.len() && v.perm < p.jobs@[v.job as int].permutations@.len()
}

/// The places a visit stands for: its job's parts, in the visit's permutation.
pub open spec fn expand(p: Problem, v: Visit) -> Seq<Place> {
    p.jobs@[v.job as int].ordered(v.perm as int)
}

/// The places a sequence of visits stands for, in order.
pub open spec fn route(p: Problem, vs: Seq<Visit>) -> Seq<Place>
    decreases vs.len(),
{
    if vs.len() == 0 { Seq::empty() } else { route(p, vs.drop_last()) + expand(p, vs.last()) }
}

pub open spec fn tours_view(s: Solution) -> Seq<Seq<Visit>> {
    s.tours@.map_values(|t: Tour| t.visits@)
}

impl Solution {
    /// Each tour has an actor, every visit names a job and one of its
    /// permutations, and every tour passes the pipeline.
    pub open spec fn wf(&self, p: Problem, pipe: ConstraintPipeline) -> bool {
        &&& self.tours@.len() == p.actors@.len()
        &&& forall|t: int, i: int| 0 <= t < self.tours@.len() && 0 <= i < self.tours@[t].visits@.len()
            ==> valid_visit(p, #[trigger] self.tours@[t].visits@[i])
        &&& forall|t: int| 0 <= t < self.tours@.len()
            ==> feasible(pipe.modules@, p.actors@[t], route(p, #[trigger] self.tours@[t].visits@))
        &&& forall|i: int| 0 <= i < self.unassigned@.len() ==> #[trigger] self.unassigned@[i] < p.jobs@.len()
    }

    /// A solution with an empty tour for each actor and nothing unassigned.
    pub fn empty(p: &Problem, pipe: &ConstraintPipeline) -> (r: Solution)
        ensures
            r.wf(*p, *pipe),
            r.unassigned@.len() == 0,
            forall|t: int| 0 <= t < r.tours@.len() ==> #[trigger] r.tours@[t].visits@.len() == 0,
    {
        let mut tours: Vec<Tour> = Vec::new();
        let mut i: usize = 0;
        while i < p.actors.len()
            invariant
                i <= p.actors@.len(),
                tours@.len() == i,
                forall|t: int| 0 <= t < i ==> #[trigger] tours@[t].visits@.len() == 0,
            decreases p.actors@.len() - i,
        {
            tours.push(Tour { visits: Vec::new() });
            i = i + 1;
        }
        let r = Solution { tours, unassigned: Vec::new() };
        assert forall|t: int| 0 <= t < r.tours@.len() implies feasible(pipe.modules@, p.actors@[t], route(*p, #[trigger] r.tours@[t].visits@)) by {
            assert(route(*p, r.tours@[t].visits@) == Seq::<Place>::empty());
            crate::constraint::lemma_empty_route_feasible(pipe.modules@, p.actors@[t]);
        }
        r
    }
}

impl Solution {
    /// A copy of the solution, visit for visit.
    pub fn duplicate(&self) -> (r: Solution)
        ensures
            tours_view(r) == tours_view(*self),
            r.tours@.len() == self.tours@.len(),
            r.unassigned@ == self.unassigned@,
    {
        let mut tours: Vec<Tour> = Vec::new();
        let mut t: usize = 0;
        while t < self.tours.len()
            invariant
                t <= self.tours@.len(),
                tours@.len() == t,
                forall|a: int| 0 <= a < t ==> #[trigger] tours@[a].visits@ == self.tours@[a].visits@,
            decreases self.tours@.len() - t,
        {
            let src = &self.tours[t].visits;
            let mut visits: Vec<Visit> = Vec::new();
            let mut i: usize = 0;
            while i < src.len()
                invariant
                    i <= src@.len(),
                    visits@ == src@.take(i as int),
                decreases src@.len() - i,
            {
                visits.push(src[i]);
                assert(visits@ == src@.take(i as int + 1));
                i = i + 1;
            }
            assert(src@.take(i as int) == src@);
            tours.push(Tour { visits });
            t = t + 1;
        }
        let mut unassigned: Vec<usize> = Vec::new();
        let mut i: usize = 0;
        while i < self.unassigned.len()
            invariant
                i <= self.unassigned@.len(),
                unassigned@ == self.unassigned@.take(i as int),
            decreases self.unassigned@.len() - i,
        {
            unassigned.push(self.unassigned[i]);
            assert(unassigned@ == self.unassigned@.take(i as int + 1));
            i = i + 1;
        }
        assert(self.unassigned@.take(i as int) == self.unassigned@);
        let r = Solution { tours, unassigned };
        assert(tours_view(r) =~= tours_view(*self));
        r
    }

    /// Whether the solution is well-formed for the problem and pipeline.
    pub fn check(&self, p: &Problem, pipe: &ConstraintPipeline) -> (r: bool)
        requires
            p.wf(),
        ensures
            r == self.wf(*p, *pipe),
    {
        if self.tours.len() != p.actors.len() {
            return false;
        }
        let mut t: usize = 0;
        while t < self.tours.len()
            invariant
                p.wf(),
                self.tours@.len() == p.actors@.len(),
                t <= self.tours@.len(),
                forall|a: int, i: int| 0 <= a < t && 0 <= i < self.tours@[a].visits@.len()
                    ==> valid_visit(*p, #[trigger] self.tours@[a].visits@[i]),
                forall|a: int| 0 <= a < t
                    ==> feasible(pipe.modules@, p.actors@[a], route(*p, #[trigger] self.tours@[a].visits@)),
            decreases self.tours@.len() - t,
        {
            let vs = &self.tours[t].visits;
            let mut i: usize = 0;
            while i < vs.len()
                invariant
                    p.wf(),
                    t < self.tours@.len(),
                    *vs == self.tours@[t as int].visits,
                    i <= vs@.len(),
                    forall|k: int| 0 <= k < i ==> valid_visit(*p, #[trigger] vs@[k]),
                decreases vs@.len() - i,
            {
                let v = vs[i];
                if v.job >= p.jobs.len() || v.perm >= p.jobs[v.job].permutations.len() {
                    assert(!valid_visit(*p, self.tours@[t as int].visits@[i as int]));
                    return false;
                }
                i = i + 1;
            }
            let places = route_places(p, vs);
            if pipe.evaluate(&p.actors[t], &places).is_none() {
                return false;
            }
            t = t + 1;
        }
        let mut i: usize = 0;
        while i < self.unassigned.len()
            invariant
                i <= self.unassigned@.len(),
                forall|k: int| 0 <= k < i ==> #[trigger] self.unassigned@[k] < p.jobs@.len(),
            decreases self.unassigned@.len() - i,
        {
            if self.unassigned[i] >= p.jobs.len() {
                return false;
            }
            i = i + 1;
        }
        true
    }
}

/// Well-formedness depends on the visits and the unassigned jobs alone.
pub proof fn lemma_wf_same_view(p: Problem, pipe: ConstraintPipeline, a: Solution, b: Solution)
    requires
        tours_view(a) == tours_view(b),
        a.unassigned@ == b.unassigned@,
    ensures
        a.wf(p, pipe) == b.wf(p, pipe),
{
    assert(a.tours@.len() == tours_view(a).len());
    assert(b.tours@.len() == tours_view(b).len());
    assert forall|t: int| 0 <= t < a.tours@.len() implies #[trigger] a.tours@[t].visits@ == b.tours@[t].visits@ by {
        assert(a.tours@[t].visits@ == tours_view(a)[t]);
        assert(b.tours@[t].visits@ == tours_view(b)[t]);
    }
    if a.wf(p, pipe) {
        assert forall|t: int, i: int| 0 <= t < b.tours@.len() && 0 <= i < b.tours@[t].visits@.len()
            implies valid_visit(p, #[trigger] b.tours@[t].visits@[i]) by {
            assert(a.tours@[t].visits@ == b.tours@[t].visits@);
            assert(valid_visit(p, a.tours@[t].visits@[i]));
        }
        assert forall|t: int| 0 <= t < b.tours@.len()
            implies feasible(pipe.modules@, p.actors@[t], route(p, #[trigger] b.tours@[t].visits@)) by {
            assert(a.tours@[t].visits@ == b.tours@[t].visits@);
            assert(feasible(pipe.modules@, p.actors@[t], route(p, a.tours@[t].visits@)));
        }
    }
    if b.wf(p, pipe) {
        assert forall|t: int, i: int| 0 <= t < a.tours@.len() && 0 <= i < a.tours@[t].visits@.len()
            implies valid_visit(p, #[trigger] a.tours@[t].visits@[i]) by {
            assert(a.tours@[t].visits@ == b.tours@[t].visits@);
            assert(valid_visit(p, b.tours@[t].visits@[i]));
        }
        assert forall|t: int| 0 <= t < a.tours@.len()
            implies feasible(pipe.modules@, p.actors@[t], route(p, #[trigger] a.tours@[t].visits@)) by {
            assert(a.tours@[t].visits@ == b.tours@[t].visits@);
            assert(feasible(pipe.modules@, p.actors@[t], route(p, b.tours@[t].visits@)));
        }
    }
}

pub proof fn lemma_route_append(p: Problem, a: Seq<Visit>, b: Seq<Visit>)
    ensures
        route(p, a + b) == route(p, a) + route(p, b),
    decreases b.len(),
{
    if b.len() == 0 {
        assert(a + b == a);
        assert(route(p, b) == Seq::<Place>::empty());
        assert(route(p, a) + route(p, b) == route(p, a));
    } else {
        assert((a + b).drop_last() == a + b.drop_last());
        assert((a + b).last() == b.last());
        lemma_route_append(p, a, b.drop_last());
        assert(route(p, a + b) == route(p, a) + route(p, b.drop_last()) + expand(p, b.last()));
    }
}

/// Each visit of a tour stands for one contiguous block of its route: all of
/// the job's parts, one after another, in the order of one of its permutations.
/// A Multi job is thus never served in part.
pub proof fn lemma_visit_contiguous(p: Problem, vs: Seq<Visit>, k: int)
    requires
        0 <= k < vs.len(),
    ensures
        route(p, vs) == route(p, vs.take(k)) + p.jobs@[vs[k].job as int].ordered(vs[k].perm as int) + route(p, vs.skip(k + 1)),
{
    assert(vs == vs.take(k) + seq![vs[k]] + vs.skip(k + 1));
    lemma_route_append(p, vs.take(k) + seq![vs[k]], vs.skip(k + 1));
    lemma_route_append(p, vs.take(k), seq![vs[k]]);
    assert(seq![vs[k]].drop_last() == Seq::<Visit>::empty());
    assert(route(p, seq![vs[k]]) == route(p, Seq::<Visit>::empty()) + expand(p, vs[k]));
    assert(route(p, Seq::<Visit>::empty()) == Seq::<Place>::empty());
    assert(route(p, seq![vs[k]]) == expand(p, vs[k]));
}

/// The places of a sequence of visits.
pub fn route_places(p: &Problem, vs: &Vec<Visit>) -> (r: Vec<Place>)
    requires
        p.wf(),
        forall|i: int| 0 <= i < vs@.len() ==> valid_visit(*p, #[trigger] vs@[i]),
    ensures
        r@ == route(*p, vs@),
{
    let mut r: Vec<Place> = Vec::new();
    let mut i: usize = 0;
    assert(vs@.take(0) =~= Seq::<Visit>::empty());
    while i < vs.len()
        invariant
            p.wf(),
            forall|i: int| 0 <= i < vs@.len() ==> valid_visit(*p, #[trigger] vs@[i]),
            i <= vs@.len(),
            r@ == route(*p, vs@.take(i as int)),
        decreases vs@.len() - i,
    {
        assert(vs@.take(i as int + 1).drop_last() == vs@.take(i as int));
        let v = vs[i];
        assert(valid_visit(*p, v));
        let job: &Job = &p.jobs[v.job];
        assert(job.wf());
        let perm = &job.permutations[v.perm];
        assert(crate::problem::is_permutation(perm@, job.parts@.len() as int));
        let ghost before = r@;
        let mut k: usize = 0;
        while k < perm.len()
            invariant
                crate::problem::is_permutation(perm@, job.parts@.len() as int),
                *perm == job.permutations@[v.perm as int],
                k <= perm@.len(),
                r@ == before + job.ordered(v.perm as int).take(k as int),
            decreases perm@.len() - k,
        {
            assert(perm@[k as int] < job.parts@.len());
            r.push(job.parts[perm[k]]);
            assert(job.ordered(v.perm as int).take(k as int + 1) == job.ordered(v.perm as int).take(k as int) + seq![job.parts@[perm@[k as int] as int]]);
            k = k + 1;
        }
        assert(job.ordered(v.perm as int).take(k as int) == expand(*p, v));
        i = i + 1;
    }
    assert(vs@.take(i as int) == vs@);
    r
}

} // verus!
