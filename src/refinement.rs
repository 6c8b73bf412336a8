use vstd::prelude::*;
use std::sync::Arc;
use crate::constraint::ConstraintPipeline;
use crate::objective::{ObjectiveCost, cost_le, evaluate_solution, objective};
use crate::problem::Problem;
use crate::recreate::{insert_steps, recreate, sol_view};
use crate::ruin::{kept, dropped_all, lemma_removed_among, ruin_jobs};
use crate::solution::{Solution, Visit, lemma_wf_same_view, tours_view};

verus! {

/// The state of one refinement run.
pub struct RefinementContext {
    /// The problem, shared and never changed.
    pub problem: Arc<Problem>,
    /// Accepted solutions with their costs, best first.
    pub population: Vec<(Solution, ObjectiveCost)>,
    /// How many generations have run.
    pub generation: usize,
}

pub open spec fn costs(pop: Seq<(Solution, ObjectiveCost)>) -> Seq<ObjectiveCost> {
    pop.map_values(|e: (Solution, ObjectiveCost)| e.1)
}

/// Costs never decrease along the sequence: best first.
pub open spec fn sorted(c: Seq<ObjectiveCost>) -> bool {
    forall|i: int, j: int| 0 <= i < j < c.len() ==> cost_le(#[trigger] c[i], #[trigger] c[j])
}

/// Where a candidate of cost `c` goes: after every member that ranks before or with it.
pub open spec fn slot(cs: Seq<ObjectiveCost>, c: ObjectiveCost, i: int) -> bool {
    &&& 0 <= i <= cs.len()
    &&& forall|k: int| 0 <= k < i ==> cost_le(#[trigger] cs[k], c)
    &&& forall|k: int| i <= k < cs.len() ==> !cost_le(#[trigger] cs[k], c)
}

/// What accepting a candidate of cost `cost` does to a population: it goes to
/// its slot if that slot is below `max_size` (`r`), the worst member leaving
/// when there are too many; else the population stays as it was.
pub open spec fn accept_outcome(
    old_pop: Seq<(Solution, ObjectiveCost)>,
    new_pop: Seq<(Solution, ObjectiveCost)>,
    solution: Solution,
    cost: ObjectiveCost,
    max_size: usize,
    r: bool,
) -> bool {
    exists|i: int| #[trigger] slot(costs(old_pop), cost, i) && {
        &&& r == (i < max_size)
        &&& r ==> costs(new_pop) == costs(old_pop).insert(i, cost).take(
            if old_pop.len() < max_size { (old_pop.len() + 1) as int } else { max_size as int },
        )
        &&& r ==> new_pop[i] == (solution, cost)
        &&& !r ==> new_pop == old_pop
    }
}

/// Merges a candidate into a population sorted best first and holding at most
/// `max_size` members: it goes after every member that ranks before or with
/// it, and the worst member leaves when there are too many. Returns whether the
/// candidate stayed. A candidate better than every member always stays.
pub fn accept(population: &mut Vec<(Solution, ObjectiveCost)>, solution: Solution, cost: ObjectiveCost, max_size: usize) -> (r: bool)
    requires
        max_size > 0,
        sorted(costs(old(population)@)),
        old(population)@.len() <= max_size,
    ensures
        sorted(costs(final(population)@)),
        final(population)@.len() <= max_size,
        accept_outcome(old(population)@, final(population)@, solution, cost, max_size, r),
        (forall|k: int| 0 <= k < old(population)@.len() ==> !cost_le(#[trigger] old(population)@[k].1, cost)) ==> r,
{
    let ghost pop0 = population@;
    let ghost sol0 = solution;
    let ghost cs = costs(population@);
    let n = population.len();
    let mut i: usize = 0;
    while i < n && !cost.better_than(&population[i].1)
        invariant
            n == population@.len(),
            cs == costs(population@),
            i <= n,
            forall|k: int| 0 <= k < i ==> cost_le(#[trigger] cs[k], cost),
        decreases n - i,
    {
        assert(cs[i as int] == population@[i as int].1);
        i = i + 1;
    }
    assert forall|k: int| i <= k < cs.len() implies !cost_le(#[trigger] cs[k], cost) by {
        assert(cs[i as int] == population@[i as int].1);
        assert(cost_le(cs[i as int], cs[k]));
    }
    assert(slot(cs, cost, i as int));
    if i >= max_size {
        assert(cost_le(cs[0], cost));
        assert(cs[0] == population@[0].1);
        assert(accept_outcome(population@, population@, solution, cost, max_size, false));
        return false;
    }
    population.insert(i, (solution, cost));
    assert(costs(population@) =~= cs.insert(i as int, cost));
    if population.len() > max_size {
        population.pop();
        assert(costs(population@) =~= cs.insert(i as int, cost).take(max_size as int));
    } else {
        assert(cs.insert(i as int, cost).take(n as int + 1) =~= cs.insert(i as int, cost));
    }
    assert forall|a: int, b: int| 0 <= a < b < costs(population@).len()
        implies cost_le(#[trigger] costs(population@)[a], #[trigger] costs(population@)[b]) by {
        let c2 = cs.insert(i as int, cost);
        assert(costs(population@)[a] == c2[a]);
        assert(costs(population@)[b] == c2[b]);
        if a < i && b > i {
            assert(c2[b] == cs[b - 1]);
            assert(cost_le(cs[a], cost));
        } else if a > i {
            assert(c2[a] == cs[a - 1]);
            assert(c2[b] == cs[b - 1]);
        } else if b < i {
        } else if a == i {
            assert(c2[b] == cs[b - 1]);
            assert(!cost_le(cs[b - 1], cost));
        } else {
            assert(cost_le(cs[a], cost));
        }
    }
    assert(population@[i as int] == (sol0, cost));
    assert(accept_outcome(pop0, population@, sol0, cost, max_size, true));
    true
}

/// Like `accept`, but when the population is full and the candidate ranks
/// with or after its worst member, `lucky` (the outcome of a draw made by the
/// caller) lets the candidate take the worst member's place, to keep the
/// population diverse.
pub fn accept_with_chance(population: &mut Vec<(Solution, ObjectiveCost)>, solution: Solution, cost: ObjectiveCost, max_size: usize, lucky: bool) -> (r: bool)
    requires
        max_size > 0,
        sorted(costs(old(population)@)),
        old(population)@.len() <= max_size,
    ensures
        sorted(costs(final(population)@)),
        final(population)@.len() <= max_size,
        lucky && old(population)@.len() == max_size && cost_le(old(population)@.last().1, cost) ==> {
            &&& r
            &&& final(population)@ == old(population)@.drop_last().push((solution, cost))
        },
        !(lucky && old(population)@.len() == max_size && cost_le(old(population)@.last().1, cost))
            ==> accept_outcome(old(population)@, final(population)@, solution, cost, max_size, r),
        (forall|k: int| 0 <= k < old(population)@.len() ==> !cost_le(#[trigger] old(population)@[k].1, cost)) ==> r,
{
    let n = population.len();
    if lucky && n == max_size && !cost.better_than(&population[n - 1].1) {
        let ghost cs = costs(population@);
        population.pop();
        population.push((solution, cost));
        assert(costs(population@) =~= cs.drop_last().push(cost));
        assert forall|a: int, b: int| 0 <= a < b < costs(population@).len()
            implies cost_le(#[trigger] costs(population@)[a], #[trigger] costs(population@)[b]) by {
            if b == n - 1 {
                assert(cost_le(cs[a], cs[n - 1]));
            } else {
                assert(cost_le(cs[a], cs[b]));
            }
        }
        assert(cost_le(cs[0], cs[n - 1]));
        return true;
    }
    accept(population, solution, cost, max_size)
}

/// `cand` is what one generation makes of `parent`: the jobs `to_remove` are
/// removed from its tours, and the jobs removed, then those it had left
/// unassigned, are inserted again, one step after another along `st`.
pub open spec fn refined_from(
    p: Problem,
    pipe: ConstraintPipeline,
    parent: Solution,
    to_remove: Seq<usize>,
    st: Seq<(Seq<Seq<Visit>>, Seq<usize>)>,
    cand: Solution,
) -> bool {
    let tv = tours_view(parent);
    &&& st.len() > 0
    &&& st[0].0.len() == tv.len()
    &&& forall|t: int| 0 <= t < tv.len() ==> #[trigger] st[0].0[t] == kept(tv[t], to_remove)
    &&& st[0].1 == Seq::<usize>::empty()
    &&& insert_steps(p, pipe, st, dropped_all(tv, to_remove, tv.len() as int) + parent.unassigned@)
    &&& st.last() == sol_view(cand)
}

/// A condition that ends the run.
#[derive(Clone, Copy, Debug, PartialEq, Eq, Structural)]
pub enum Termination {
    /// Stop once this many generations have run.
    MaxGeneration { limit: usize },
    /// Stop once this many seconds have passed.
    MaxTime { limit_secs: u64 },
    /// Stop once the best cost has no unassigned job and a duration this low.
    TargetDuration { duration: u64 },
}

/// What is known of a run when the conditions are checked; the time and the
/// cancellation come from outside.
pub open spec fn condition_holds(c: Termination, generation: usize, elapsed_secs: u64, best: Option<ObjectiveCost>) -> bool {
    match c {
        Termination::MaxGeneration { limit } => generation >= limit,
        Termination::MaxTime { limit_secs } => elapsed_secs >= limit_secs,
        Termination::TargetDuration { duration } => match best {
            Some(b) => b.unassigned == 0 && b.duration <= duration,
            None => false,
        },
    }
}

pub open spec fn best_cost(pop: Seq<(Solution, ObjectiveCost)>) -> Option<ObjectiveCost> {
    if pop.len() > 0 { Some(pop[0].1) } else { None }
}

/// The run stops when it is cancelled or when any condition holds.
pub open spec fn should_stop(conds: Seq<Termination>, generation: usize, elapsed_secs: u64, best: Option<ObjectiveCost>, cancelled: bool) -> bool {
    cancelled || exists|i: int| 0 <= i < conds.len() && condition_holds(#[trigger] conds[i], generation, elapsed_secs, best)
}

/// With a generation limit among the conditions, the run stops once that many
/// generations have run, whatever else holds.
pub proof fn lemma_generation_limit_stops(conds: Seq<Termination>, k: int, generation: usize, elapsed_secs: u64, best: Option<ObjectiveCost>, cancelled: bool)
    requires
        0 <= k < conds.len(),
        conds[k] matches Termination::MaxGeneration { limit } && generation >= limit,
    ensures
        should_stop(conds, generation, elapsed_secs, best, cancelled),
{
    assert(condition_holds(conds[k], generation, elapsed_secs, best));
}

impl RefinementContext {
    /// A context with an empty population at generation 0.
    pub fn new(problem: Arc<Problem>) -> (r: Self)
        ensures
            r.problem == problem,
            r.population@.len() == 0,
            r.generation == 0,
    {
        Self { problem, population: Vec::new(), generation: 0 }
    }

    /// Counts one more generation.
    pub fn next_generation(&mut self)
        requires
            old(self).generation < usize::MAX,
        ensures
            final(self).generation == old(self).generation + 1,
            final(self).problem == old(self).problem,
            final(self).population@ == old(self).population@,
    {
        self.generation = self.generation + 1;
    }

    /// Runs one generation on the member `parent` of the population: copies
    /// it, removes the jobs `to_remove` (a Multi job whole), inserts again the
    /// removed jobs and the ones left unassigned, costs the result and offers
    /// it to the population. Returns whether it stayed. A parent that is not
    /// well-formed for the problem and pipeline is not refined.
    pub fn refine_step(&mut self, pipe: &ConstraintPipeline, parent: usize, to_remove: &Vec<usize>, max_size: usize) -> (r: bool)
        requires
            old(self).problem.wf(),
            parent < old(self).population@.len(),
            sorted(costs(old(self).population@)),
            old(self).population@.len() <= max_size,
            max_size > 0,
            old(self).generation < usize::MAX,
            forall|i: int| 0 <= i < to_remove@.len() ==> #[trigger] to_remove@[i] < old(self).problem.jobs@.len(),
        ensures
            final(self).generation == old(self).generation + 1,
            final(self).problem == old(self).problem,
            sorted(costs(final(self).population@)),
            final(self).population@.len() <= max_size,
            !old(self).population@[parent as int].0.wf(*old(self).problem, *pipe) ==> !r && final(self).population@ == old(self).population@,
            old(self).population@[parent as int].0.wf(*old(self).problem, *pipe) ==> exists|cand: Solution, st: Seq<(Seq<Seq<Visit>>, Seq<usize>)>|
                #[trigger] refined_from(*old(self).problem, *pipe, old(self).population@[parent as int].0, to_remove@, st, cand)
                && accept_outcome(old(self).population@, final(self).population@, cand, objective(*old(self).problem, *pipe, cand), max_size, r),
    {
        let p: &Problem = &*self.problem;
        let ghost parent_sol = self.population@[parent as int].0;
        let ghost pop0 = self.population@;
        let mut sol = self.population[parent].0.duplicate();
        self.generation = self.generation + 1;
        if !sol.check(p, pipe) {
            proof {
                lemma_wf_same_view(*p, *pipe, parent_sol, sol);
            }
            return false;
        }
        proof {
            lemma_wf_same_view(*p, *pipe, parent_sol, sol);
        }
        let ghost before = tours_view(sol);
        assert(before == tours_view(parent_sol));
        let removed = ruin_jobs(p, &mut sol, to_remove);
        let ghost ruined = tours_view(sol);
        proof {
            lemma_removed_among(before, to_remove@, before.len() as int);
            assert forall|k: int| 0 <= k < removed@.len() implies #[trigger] removed@[k] < p.jobs@.len() by {
                assert(to_remove@.contains(removed@[k]));
            }
        }
        assert(sol.wf(*p, *pipe));
        let mut jobs = removed;
        let mut i: usize = 0;
        while i < sol.unassigned.len()
            invariant
                sol.wf(*p, *pipe),
                i <= sol.unassigned@.len(),
                forall|k: int| 0 <= k < jobs@.len() ==> #[trigger] jobs@[k] < p.jobs@.len(),
                jobs@ == removed@ + sol.unassigned@.take(i as int),
            decreases sol.unassigned@.len() - i,
        {
            jobs.push(sol.unassigned[i]);
            assert(sol.unassigned@.take(i as int + 1) == sol.unassigned@.take(i as int).push(sol.unassigned@[i as int]));
            i = i + 1;
        }
        assert(sol.unassigned@.take(i as int) == sol.unassigned@);
        assert(sol.unassigned@ == parent_sol.unassigned@);
        sol.unassigned = Vec::new();
        assert(sol.wf(*p, *pipe));
        let ghost start = sol_view(sol);
        recreate(p, pipe, &mut sol, &jobs);
        let cost = evaluate_solution(p, pipe, &sol);
        let ghost candidate = sol;
        let r = accept(&mut self.population, sol, cost, max_size);
        proof {
            let st = choose|st: Seq<(Seq<Seq<Visit>>, Seq<usize>)>| #[trigger] insert_steps(*p, *pipe, st, jobs@)
                && st[0] == start && st.last() == sol_view(candidate);
            assert(start.1 =~= Seq::<usize>::empty());
            assert(start.0 == ruined);
            assert(st[0].0.len() == before.len());
            assert(forall|t: int| 0 <= t < before.len() ==> #[trigger] st[0].0[t] == kept(before[t], to_remove@));
            assert(jobs@ == dropped_all(before, to_remove@, before.len() as int) + parent_sol.unassigned@);
            assert(refined_from(*p, *pipe, parent_sol, to_remove@, st, candidate));
        }
        r
    }

    /// Whether the run is to stop: checked after every generation, the first too.
    pub fn is_terminated(&self, conds: &Vec<Termination>, elapsed_secs: u64, cancelled: bool) -> (r: bool)
        ensures
            r == should_stop(conds@, self.generation, elapsed_secs, best_cost(self.population@), cancelled),
    {
        if cancelled {
            return true;
        }
        let best: Option<ObjectiveCost> = if self.population.len() > 0 { Some(self.population[0].1) } else { None };
        let mut i: usize = 0;
        while i < conds.len()
            invariant
                i <= conds@.len(),
                best == best_cost(self.population@),
                forall|k: int| 0 <= k < i ==> !condition_holds(#[trigger] conds@[k], self.generation, elapsed_secs, best),
            decreases conds@.len() - i,
        {
            let holds = match conds[i] {
                Termination::MaxGeneration { limit } => self.generation >= limit,
                Termination::MaxTime { limit_secs } => elapsed_secs >= limit_secs,
                Termination::TargetDuration { duration } => match best {
                    Some(b) => b.unassigned == 0 && b.duration <= duration,
                    None => false,
                },
            };
            if holds {
                return true;
            }
            i = i + 1;
        }
        false
    }
}

} // verus!
