use vstd::prelude::*;
use crate::constraint::{ConstraintModule, ConstraintPipeline, feasible, has_module, lemma_load_append, lemma_load_monotone, lemma_load_nonneg, load, schedule_end};
use crate::problem::{Actor, Job, Place, Problem, travel, travel_time};
use crate::solution::{Solution, Tour, Visit, expand, route, tours_view, valid_visit};

verus! {

/// The visits of `vs` whose job is not among `jobs`, in order.
pub open spec fn kept(vs: Seq<Visit>, jobs: Seq<usize>) -> Seq<Visit>
    decreases vs.len(),
{
    if vs.len() == 0 {
        Seq::empty()
    } else if jobs.contains(vs.last().job) {
        kept(vs.drop_last(), jobs)
    } else {
        kept(vs.drop_last(), jobs).push(vs.last())
    }
}

/// The jobs of the visits of `vs` that are among `jobs`, in order.
pub open spec fn dropped(vs: Seq<Visit>, jobs: Seq<usize>) -> Seq<usize>
    decreases vs.len(),
{
    if vs.len() == 0 {
        Seq::empty()
    } else if jobs.contains(vs.last().job) {
        dropped(vs.drop_last(), jobs).push(vs.last().job)
    } else {
        dropped(vs.drop_last(), jobs)
    }
}

/// The jobs dropped from tours `0..n`, tour after tour.
pub open spec fn dropped_all(tours: Seq<Seq<Visit>>, jobs: Seq<usize>, n: int) -> Seq<usize>
    decreases n,
{
    if n <= 0 { Seq::empty() } else { dropped_all(tours, jobs, n - 1) + dropped(tours[n - 1], jobs) }
}

pub proof fn lemma_kept_subset(vs: Seq<Visit>, jobs: Seq<usize>)
    ensures
        forall|i: int| #![trigger kept(vs, jobs)[i]] 0 <= i < kept(vs, jobs).len() ==> !jobs.contains(kept(vs, jobs)[i].job)
            && vs.contains(kept(vs, jobs)[i]),
    decreases vs.len(),
{
    if vs.len() > 0 {
        lemma_kept_subset(vs.drop_last(), jobs);
        assert forall|i: int| 0 <= i < kept(vs, jobs).len() implies vs.contains(#[trigger] kept(vs, jobs)[i]) by {
            if i < kept(vs.drop_last(), jobs).len() {
                assert(kept(vs, jobs)[i] == kept(vs.drop_last(), jobs)[i]);
                assert(vs.drop_last().contains(kept(vs.drop_last(), jobs)[i]));
                let w = choose|w: int| 0 <= w < vs.drop_last().len() && vs.drop_last()[w] == kept(vs.drop_last(), jobs)[i];
                assert(vs[w] == kept(vs, jobs)[i]);
            } else {
                assert(vs[vs.len() - 1] == kept(vs, jobs)[i]);
            }
        }
    }
}

/// After a ruin, no tour serves any part of a removed job: a Multi job leaves
/// its tour whole.
pub proof fn lemma_ruined_jobs_gone(p: Problem, old_sol: Solution, new_sol: Solution, jobs: Seq<usize>)
    requires
        tours_view(new_sol).len() == tours_view(old_sol).len(),
        forall|t: int| 0 <= t < tours_view(old_sol).len()
            ==> #[trigger] tours_view(new_sol)[t] == kept(tours_view(old_sol)[t], jobs),
    ensures
        forall|t: int, i: int| 0 <= t < tours_view(new_sol).len() && 0 <= i < tours_view(new_sol)[t].len()
            ==> !jobs.contains(#[trigger] tours_view(new_sol)[t][i].job),
{
    assert forall|t: int, i: int| 0 <= t < tours_view(new_sol).len() && 0 <= i < tours_view(new_sol)[t].len()
        implies !jobs.contains(#[trigger] tours_view(new_sol)[t][i].job) by {
        lemma_kept_subset(tours_view(old_sol)[t], jobs);
        assert(tours_view(new_sol)[t] == kept(tours_view(old_sol)[t], jobs));
    }
}

pub proof fn lemma_dropped_among(vs: Seq<Visit>, jobs: Seq<usize>)
    ensures
        forall|i: int| 0 <= i < dropped(vs, jobs).len() ==> jobs.contains(#[trigger] dropped(vs, jobs)[i]),
    decreases vs.len(),
{
    if vs.len() > 0 {
        lemma_dropped_among(vs.drop_last(), jobs);
        let prev = dropped(vs.drop_last(), jobs);
        assert forall|i: int| 0 <= i < dropped(vs, jobs).len() implies jobs.contains(#[trigger] dropped(vs, jobs)[i]) by {
            if i < prev.len() {
                assert(dropped(vs, jobs)[i] == prev[i]);
            }
        }
    }
}

/// Every job a ruin returns was among those asked for.
pub proof fn lemma_removed_among(tours: Seq<Seq<Visit>>, jobs: Seq<usize>, n: int)
    ensures
        forall|i: int| 0 <= i < dropped_all(tours, jobs, n).len() ==> jobs.contains(#[trigger] dropped_all(tours, jobs, n)[i]),
    decreases n,
{
    if n > 0 {
        lemma_removed_among(tours, jobs, n - 1);
        lemma_dropped_among(tours[n - 1], jobs);
        let a = dropped_all(tours, jobs, n - 1);
        let b = dropped(tours[n - 1], jobs);
        assert forall|i: int| 0 <= i < (a + b).len() implies jobs.contains(#[trigger] (a + b)[i]) by {
            if i >= a.len() {
                assert((a + b)[i] == b[i - a.len()]);
            }
        }
    }
}

/// Removes every visit of tour `t` and returns their jobs, in the order visited.
pub fn ruin_tour(sol: &mut Solution, t: usize) -> (removed: Vec<usize>)
    requires
        t < old(sol).tours@.len(),
    ensures
        tours_view(*final(sol)) == tours_view(*old(sol)).update(t as int, Seq::<Visit>::empty()),
        removed@ == tours_view(*old(sol))[t as int].map_values(|v: Visit| v.job),
        final(sol).unassigned@ == old(sol).unassigned@,
{
    let ghost tv = tours_view(*sol);
    let vs = &sol.tours[t].visits;
    assert(vs@ == tv[t as int]);
    let mut removed: Vec<usize> = Vec::new();
    let mut i: usize = 0;
    while i < vs.len()
        invariant
            i <= vs@.len(),
            removed@ == vs@.take(i as int).map_values(|v: Visit| v.job),
        decreases vs@.len() - i,
    {
        removed.push(vs[i].job);
        assert(removed@ =~= vs@.take(i as int + 1).map_values(|v: Visit| v.job));
        i = i + 1;
    }
    assert(vs@.take(i as int) == vs@);
    sol.tours.set(t, Tour { visits: Vec::new() });
    assert(tours_view(*sol) =~= tv.update(t as int, Seq::<Visit>::empty()));
    removed
}

/// Some part of the job lies within `radius` of `location`.
pub open spec fn job_near(job: Job, location: u64, radius: u64) -> bool {
    exists|i: int| 0 <= i < job.parts@.len() && travel(#[trigger] job.parts@[i].location, location) <= radius
}

/// The jobs of the visits of `vs` near the location, in order.
pub open spec fn near(p: Problem, vs: Seq<Visit>, location: u64, radius: u64) -> Seq<usize>
    decreases vs.len(),
{
    if vs.len() == 0 {
        Seq::empty()
    } else if job_near(p.jobs@[vs.last().job as int], location, radius) {
        near(p, vs.drop_last(), location, radius).push(vs.last().job)
    } else {
        near(p, vs.drop_last(), location, radius)
    }
}

/// The jobs near the location served by tours `0..n`, tour after tour.
pub open spec fn near_all(p: Problem, tours: Seq<Seq<Visit>>, location: u64, radius: u64, n: int) -> Seq<usize>
    decreases n,
{
    if n <= 0 { Seq::empty() } else { near_all(p, tours, location, radius, n - 1) + near(p, tours[n - 1], location, radius) }
}

/// The assigned jobs with a part within `radius` of `location` (an epicenter),
/// tour after tour in the order visited: what a ruin around that point removes.
pub fn jobs_near(p: &Problem, sol: &Solution, location: u64, radius: u64) -> (r: Vec<usize>)
    requires
        forall|t: int, i: int| 0 <= t < sol.tours@.len() && 0 <= i < sol.tours@[t].visits@.len()
            ==> valid_visit(*p, #[trigger] sol.tours@[t].visits@[i]),
    ensures
        r@ == near_all(*p, tours_view(*sol), location, radius, sol.tours@.len() as int),
{
    let ghost tv = tours_view(*sol);
    let mut r: Vec<usize> = Vec::new();
    let mut t: usize = 0;
    while t < sol.tours.len()
        invariant
            forall|t: int, i: int| 0 <= t < sol.tours@.len() && 0 <= i < sol.tours@[t].visits@.len()
                ==> valid_visit(*p, #[trigger] sol.tours@[t].visits@[i]),
            tv == tours_view(*sol),
            t <= sol.tours@.len(),
            r@ == near_all(*p, tv, location, radius, t as int),
        decreases sol.tours@.len() - t,
    {
        let ghost before = r@;
        let vs = &sol.tours[t].visits;
        assert(vs@ == tv[t as int]);
        let mut i: usize = 0;
        assert(vs@.take(0) =~= Seq::<Visit>::empty());
        while i < vs.len()
            invariant
                forall|i: int| 0 <= i < vs@.len() ==> valid_visit(*p, #[trigger] vs@[i]),
                i <= vs@.len(),
                r@ == before + near(*p, vs@.take(i as int), location, radius),
            decreases vs@.len() - i,
        {
            assert(vs@.take(i as int + 1).drop_last() == vs@.take(i as int));
            let v = vs[i];
            assert(valid_visit(*p, v));
            let job = &p.jobs[v.job];
            let mut k: usize = 0;
            let mut found = false;
            while k < job.parts.len()
                invariant
                    k <= job.parts@.len(),
                    found == exists|a: int| 0 <= a < k && travel(#[trigger] job.parts@[a].location, location) <= radius,
                decreases job.parts@.len() - k,
            {
                if travel_time(job.parts[k].location, location) <= radius {
                    found = true;
                }
                k = k + 1;
            }
            if found {
                r.push(v.job);
                assert(r@ == before + near(*p, vs@.take(i as int + 1), location, radius));
            }
            i = i + 1;
        }
        assert(vs@.take(i as int) == vs@);
        assert(near_all(*p, tv, location, radius, t as int + 1) == near_all(*p, tv, location, radius, t as int) + near(*p, tv[t as int], location, radius));
        t = t + 1;
    }
    r
}

/// Where the actor stands after serving `ps`, starting at `l`.
pub open spec fn end_loc(l: u64, ps: Seq<Place>) -> u64 {
    if ps.len() == 0 { l } else { ps.last().location }
}

/// Being at `l1` at time `t1` is no worse than being at `l2` at time `t2`.
pub open spec fn dominates(t1: int, l1: u64, t2: int, l2: u64) -> bool {
    t1 + travel(l1, l2) <= t2
}

proof fn lemma_end_loc_append(l: u64, a: Seq<Place>, b: Seq<Place>)
    ensures
        end_loc(l, a + b) == end_loc(end_loc(l, a), b),
{
    if b.len() > 0 {
        assert((a + b).last() == b.last());
    } else {
        assert(a + b == a);
    }
}

proof fn lemma_schedule_append(t: u64, l: u64, a: Seq<Place>, b: Seq<Place>, w: bool)
    ensures
        schedule_end(t, l, a + b, w) == match schedule_end(t, l, a, w) {
            Some(e) => schedule_end(e, end_loc(l, a), b, w),
            None => None,
        },
    decreases a.len(),
{
    if a.len() == 0 {
        assert(a + b == b);
    } else {
        let p = a[0];
        assert((a + b)[0] == p);
        assert((a + b).drop_first() == a.drop_first() + b);
        let arrive = t + travel(l, p.location);
        let begin = if arrive < p.tw_start { p.tw_start as int } else { arrive };
        let depart = begin + p.duration;
        if !(w && begin > p.tw_end) && depart <= u64::MAX {
            lemma_schedule_append(depart as u64, p.location, a.drop_first(), b, w);
            if a.len() > 1 {
                assert(a.drop_first().last() == a.last());
            }
        }
    }
}

proof fn lemma_dominance_kept(t1: u64, l1: u64, t2: u64, l2: u64, ps: Seq<Place>, w: bool)
    requires
        dominates(t1 as int, l1, t2 as int, l2),
        schedule_end(t2, l2, ps, w) is Some,
    ensures
        schedule_end(t1, l1, ps, w) is Some,
        dominates(schedule_end(t1, l1, ps, w).unwrap() as int, end_loc(l1, ps), schedule_end(t2, l2, ps, w).unwrap() as int, end_loc(l2, ps)),
    decreases ps.len(),
{
    if ps.len() > 0 {
        let p = ps[0];
        let a1 = t1 + travel(l1, p.location);
        let a2 = t2 + travel(l2, p.location);
        assert(a1 <= a2);
        let b1 = if a1 < p.tw_start { p.tw_start as int } else { a1 };
        let b2 = if a2 < p.tw_start { p.tw_start as int } else { a2 };
        lemma_dominance_kept((b1 + p.duration) as u64, p.location, (b2 + p.duration) as u64, p.location, ps.drop_first(), w);
        if ps.len() > 1 {
            assert(ps.drop_first().last() == ps.last());
        }
    }
}

proof fn lemma_skip_block(t: u64, l: u64, ps: Seq<Place>, w: bool)
    requires
        schedule_end(t, l, ps, w) is Some,
    ensures
        dominates(t as int, l, schedule_end(t, l, ps, w).unwrap() as int, end_loc(l, ps)),
    decreases ps.len(),
{
    if ps.len() > 0 {
        let p = ps[0];
        let arrive = t + travel(l, p.location);
        let begin = if arrive < p.tw_start { p.tw_start as int } else { arrive };
        let depart = begin + p.duration;
        lemma_skip_block(depart as u64, p.location, ps.drop_first(), w);
        if ps.len() > 1 {
            assert(ps.drop_first().last() == ps.last());
        }
    }
}

proof fn lemma_route_push(p: Problem, vs: Seq<Visit>, v: Visit)
    ensures
        route(p, vs.push(v)) == route(p, vs) + expand(p, v),
{
    assert(vs.push(v).drop_last() == vs);
}

proof fn lemma_kept_schedule(p: Problem, t0: u64, l0: u64, vs: Seq<Visit>, jobs: Seq<usize>, w: bool)
    requires
        schedule_end(t0, l0, route(p, vs), w) is Some,
    ensures
        schedule_end(t0, l0, route(p, kept(vs, jobs)), w) is Some,
        dominates(
            schedule_end(t0, l0, route(p, kept(vs, jobs)), w).unwrap() as int,
            end_loc(l0, route(p, kept(vs, jobs))),
            schedule_end(t0, l0, route(p, vs), w).unwrap() as int,
            end_loc(l0, route(p, vs)),
        ),
    decreases vs.len(),
{
    if vs.len() > 0 {
        let prev = vs.drop_last();
        let v = vs.last();
        let m = expand(p, v);
        assert(vs == prev.push(v));
        lemma_route_push(p, prev, v);
        lemma_schedule_append(t0, l0, route(p, prev), m, w);
        lemma_end_loc_append(l0, route(p, prev), m);
        lemma_kept_schedule(p, t0, l0, prev, jobs, w);
        let ef = schedule_end(t0, l0, route(p, prev), w).unwrap();
        let lf = end_loc(l0, route(p, prev));
        let ek = schedule_end(t0, l0, route(p, kept(prev, jobs)), w).unwrap();
        let lk = end_loc(l0, route(p, kept(prev, jobs)));
        if jobs.contains(v.job) {
            lemma_skip_block(ef, lf, m, w);
        } else {
            lemma_route_push(p, kept(prev, jobs), v);
            lemma_schedule_append(t0, l0, route(p, kept(prev, jobs)), m, w);
            lemma_end_loc_append(l0, route(p, kept(prev, jobs)), m);
            lemma_dominance_kept(ek, lk, ef, lf, m, w);
        }
    } else {
        assert(kept(vs, jobs) == Seq::<Visit>::empty());
    }
}

proof fn lemma_kept_load(p: Problem, vs: Seq<Visit>, jobs: Seq<usize>)
    ensures
        load(route(p, kept(vs, jobs))) <= load(route(p, vs)),
    decreases vs.len(),
{
    if vs.len() > 0 {
        let prev = vs.drop_last();
        let v = vs.last();
        assert(vs == prev.push(v));
        lemma_kept_load(p, prev, jobs);
        lemma_route_push(p, prev, v);
        lemma_load_append(route(p, prev), expand(p, v));
        lemma_load_nonneg(expand(p, v));
        if !jobs.contains(v.job) {
            lemma_route_push(p, kept(prev, jobs), v);
            lemma_load_append(route(p, kept(prev, jobs)), expand(p, v));
        }
    } else {
        assert(kept(vs, jobs) == Seq::<Visit>::empty());
    }
}

/// Removing jobs from a tour that passes the pipeline leaves a tour that passes
/// it too: loads only drop, and skipping places never makes the actor later.
pub proof fn lemma_ruin_keeps_feasible(p: Problem, modules: Seq<ConstraintModule>, actor: Actor, vs: Seq<Visit>, jobs: Seq<usize>)
    requires
        feasible(modules, actor, route(p, vs)),
    ensures
        feasible(modules, actor, route(p, kept(vs, jobs))),
{
    let full = route(p, vs);
    let part = route(p, kept(vs, jobs));
    if has_module(modules, ConstraintModule::Capacity) {
        assert(full.take(full.len() as int) == full);
        lemma_kept_load(p, vs, jobs);
        assert forall|k: int| 0 <= k <= part.len() implies #[trigger] load(part.take(k)) <= actor.capacity by {
            lemma_load_monotone(part, k, part.len() as int);
            assert(part.take(part.len() as int) == part);
        }
    }
    lemma_kept_schedule(p, actor.start, actor.location, vs, jobs, has_module(modules, ConstraintModule::TimeWindow));
}

fn contains_job(jobs: &Vec<usize>, j: usize) -> (r: bool)
    ensures
        r == jobs@.contains(j),
{
    let mut i: usize = 0;
    while i < jobs.len()
        invariant
            i <= jobs@.len(),
            forall|k: int| 0 <= k < i ==> jobs@[k] != j,
        decreases jobs@.len() - i,
    {
        if jobs[i] == j {
            return true;
        }
        i = i + 1;
    }
    false
}

/// Removes from every tour each visit of a job among `jobs`, and returns the
/// jobs removed, tour after tour, in the order they were visited. A Multi job
/// goes with all its parts, since a visit stands for all of them.
pub fn ruin_jobs(p: &Problem, sol: &mut Solution, jobs: &Vec<usize>) -> (removed: Vec<usize>)
    ensures
        final(sol).tours@.len() == old(sol).tours@.len(),
        forall|t: int| 0 <= t < old(sol).tours@.len()
            ==> #[trigger] tours_view(*final(sol))[t] == kept(tours_view(*old(sol))[t], jobs@),
        removed@ == dropped_all(tours_view(*old(sol)), jobs@, old(sol).tours@.len() as int),
        final(sol).unassigned@ == old(sol).unassigned@,
        (forall|t: int, i: int| 0 <= t < old(sol).tours@.len() && 0 <= i < old(sol).tours@[t].visits@.len()
            ==> valid_visit(*p, #[trigger] old(sol).tours@[t].visits@[i]))
            ==> (forall|t: int, i: int| 0 <= t < final(sol).tours@.len() && 0 <= i < final(sol).tours@[t].visits@.len()
            ==> valid_visit(*p, #[trigger] final(sol).tours@[t].visits@[i])),
        forall|pipe: ConstraintPipeline| #[trigger] old(sol).wf(*p, pipe) ==> final(sol).wf(*p, pipe),
{
    let ghost tv = tours_view(*sol);
    let n = sol.tours.len();
    let mut removed: Vec<usize> = Vec::new();
    let mut t: usize = 0;
    while t < n
        invariant
            n == sol.tours@.len(),
            n == tv.len(),
            t <= n,
            forall|a: int| 0 <= a < t ==> #[trigger] tours_view(*sol)[a] == kept(tv[a], jobs@),
            forall|a: int| t <= a < n ==> #[trigger] tours_view(*sol)[a] == tv[a],
            removed@ == dropped_all(tv, jobs@, t as int),
            sol.unassigned@ == old(sol).unassigned@,
            tv == tours_view(*old(sol)),
        decreases n - t,
    {
        let ghost before = removed@;
        let mut visits: Vec<Visit> = Vec::new();
        let ghost pre = tours_view(*sol);
        let vs = &sol.tours[t].visits;
        assert(vs@ == pre[t as int]);
        assert(vs@ == tv[t as int]);
        let mut i: usize = 0;
        assert(vs@.take(0) =~= Seq::<Visit>::empty());
        while i < vs.len()
            invariant
                i <= vs@.len(),
                visits@ == kept(vs@.take(i as int), jobs@),
                removed@ == before + dropped(vs@.take(i as int), jobs@),
            decreases vs@.len() - i,
        {
            assert(vs@.take(i as int + 1).drop_last() == vs@.take(i as int));
            let v = vs[i];
            if contains_job(jobs, v.job) {
                removed.push(v.job);
                assert(removed@ == before + dropped(vs@.take(i as int + 1), jobs@));
            } else {
                visits.push(v);
            }
            i = i + 1;
        }
        assert(vs@.take(i as int) == vs@);
        sol.tours.set(t, Tour { visits });
        assert(tours_view(*sol) =~= pre.update(t as int, kept(tv[t as int], jobs@)));
        assert(dropped_all(tv, jobs@, t as int + 1) == dropped_all(tv, jobs@, t as int) + dropped(tv[t as int], jobs@));
        t = t + 1;
    }
    proof {
        if forall|t: int, i: int| 0 <= t < old(sol).tours@.len() && 0 <= i < old(sol).tours@[t].visits@.len()
            ==> valid_visit(*p, #[trigger] old(sol).tours@[t].visits@[i]) {
            assert forall|a: int, i: int| 0 <= a < sol.tours@.len() && 0 <= i < sol.tours@[a].visits@.len()
                implies valid_visit(*p, #[trigger] sol.tours@[a].visits@[i]) by {
                assert(sol.tours@[a].visits@ == tours_view(*sol)[a]);
                assert(tours_view(*sol)[a] == kept(tv[a], jobs@));
                lemma_kept_subset(tv[a], jobs@);
                assert(tv[a].contains(kept(tv[a], jobs@)[i]));
                let w = choose|w: int| 0 <= w < tv[a].len() && tv[a][w] == kept(tv[a], jobs@)[i];
                assert(tv[a][w] == old(sol).tours@[a].visits@[w]);
            }
        }
        assert forall|pipe: ConstraintPipeline| #[trigger] old(sol).wf(*p, pipe) implies sol.wf(*p, pipe) by {
            assert forall|a: int| 0 <= a < sol.tours@.len()
                implies feasible(pipe.modules@, p.actors@[a], route(*p, #[trigger] sol.tours@[a].visits@)) by {
                assert(sol.tours@[a].visits@ == tours_view(*sol)[a]);
                assert(tours_view(*sol)[a] == kept(tv[a], jobs@));
                assert(tv[a] == old(sol).tours@[a].visits@);
                lemma_ruin_keeps_feasible(*p, pipe.modules@, p.actors@[a], tv[a], jobs@);
            }
        }
    }
    removed
}

} // verus!
