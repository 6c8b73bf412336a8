use vstd::prelude::*;
use crate::constraint::{ConstraintModule, ConstraintPipeline, capacity_ok, has_module, lemma_load_append, load, verdict};
use crate::objective::{capped, objective};
use crate::problem::Problem;
use crate::solution::{Solution, Tour, Visit, lemma_route_append, lemma_visit_contiguous, route, route_places, tours_view, valid_visit};

verus! {

/// Where a job went: tour, position among the tour's visits, and permutation.
#[derive(Clone, Copy, Debug, PartialEq, Eq, Structural)]
pub struct Insertion {
    pub tour: usize,
    pub pos: usize,
    pub perm: usize,
}

pub open spec fn is_candidate(p: Problem, tours: Seq<Seq<Visit>>, j: usize, t: int, k: int, pos: int) -> bool {
    &&& 0 <= t < tours.len()
    &&& 0 <= k < p.jobs@[j as int].permutations@.len()
    &&& 0 <= pos <= tours[t].len()
}

/// The pipeline's verdict on tour `t` with job `j` inserted at `pos` in permutation `k`.
pub open spec fn insertion_end(p: Problem, pipe: ConstraintPipeline, tours: Seq<Seq<Visit>>, j: usize, t: int, k: int, pos: int) -> Option<u64> {
    verdict(pipe.modules@, p.actors@[t], route(p, tours[t].insert(pos, Visit { job: j, perm: k as usize })))
}

/// How much later tour `t` ends with the insertion than without it.
pub open spec fn insertion_cost(p: Problem, pipe: ConstraintPipeline, tours: Seq<Seq<Visit>>, j: usize, t: int, k: int, pos: int) -> int {
    insertion_end(p, pipe, tours, j, t, k, pos).unwrap() - verdict(pipe.modules@, p.actors@[t], route(p, tours[t])).unwrap()
}

pub open spec fn feasible_insertion(p: Problem, pipe: ConstraintPipeline, tours: Seq<Seq<Visit>>, j: usize, t: int, k: int, pos: int) -> bool {
    is_candidate(p, tours, j, t, k, pos) && insertion_end(p, pipe, tours, j, t, k, pos) is Some
}

pub open spec fn can_insert(p: Problem, pipe: ConstraintPipeline, tours: Seq<Seq<Visit>>, j: usize) -> bool {
    exists|t: int, k: int, pos: int| feasible_insertion(p, pipe, tours, j, t, k, pos)
}

/// `(t, k, pos)` comes before `(t2, k2, pos2)` in the order insertions are tried.
pub open spec fn tried_before(t: int, k: int, pos: int, t2: int, k2: int, pos2: int) -> bool {
    t < t2 || (t == t2 && (k < k2 || (k == k2 && pos < pos2)))
}

/// The insertion is feasible, no feasible insertion is cheaper, and none tried
/// before it is as cheap.
pub open spec fn cheapest(p: Problem, pipe: ConstraintPipeline, tours: Seq<Seq<Visit>>, j: usize, ins: Insertion) -> bool {
    &&& feasible_insertion(p, pipe, tours, j, ins.tour as int, ins.perm as int, ins.pos as int)
    &&& forall|t: int, k: int, pos: int| #[trigger] feasible_insertion(p, pipe, tours, j, t, k, pos)
        ==> insertion_cost(p, pipe, tours, j, ins.tour as int, ins.perm as int, ins.pos as int)
            <= insertion_cost(p, pipe, tours, j, t, k, pos)
    &&& forall|t: int, k: int, pos: int| #[trigger] feasible_insertion(p, pipe, tours, j, t, k, pos)
        && tried_before(t, k, pos, ins.tour as int, ins.perm as int, ins.pos as int)
        ==> insertion_cost(p, pipe, tours, j, ins.tour as int, ins.perm as int, ins.pos as int)
            < insertion_cost(p, pipe, tours, j, t, k, pos)
}

fn with_visit(vs: &Vec<Visit>, pos: usize, v: Visit) -> (r: Vec<Visit>)
    requires
        pos <= vs@.len(),
    ensures
        r@ == vs@.insert(pos as int, v),
{
    let mut r: Vec<Visit> = Vec::new();
    let mut i: usize = 0;
    while i < vs.len()
        invariant
            pos <= vs@.len(),
            i <= vs@.len(),
            i <= pos ==> r@ == vs@.take(i as int),
            i > pos ==> r@ == vs@.take(pos as int) + seq![v] + vs@.subrange(pos as int, i as int),
        decreases vs@.len() - i,
    {
        if i == pos {
            r.push(v);
        }
        r.push(vs[i]);
        proof {
            if i < pos {
                assert(r@ == vs@.take(i as int + 1));
            } else {
                assert(r@ == vs@.take(pos as int) + seq![v] + vs@.subrange(pos as int, i as int + 1));
            }
        }
        i = i + 1;
    }
    if i == pos {
        r.push(v);
    }
    assert(r@ =~= vs@.insert(pos as int, v));
    r
}


/// What the search for the cheapest insertion knows once every insertion tried
/// before `(t, k, pos)` has been looked at.
pub open spec fn search_inv(p: Problem, pipe: ConstraintPipeline, tours: Seq<Seq<Visit>>, j: usize, best: Option<Insertion>, best_cost: int, t: int, k: int, pos: int) -> bool {
    &&& (best matches Some(b) ==> {
        &&& feasible_insertion(p, pipe, tours, j, b.tour as int, b.perm as int, b.pos as int)
        &&& best_cost == insertion_cost(p, pipe, tours, j, b.tour as int, b.perm as int, b.pos as int)
        &&& tried_before(b.tour as int, b.perm as int, b.pos as int, t, k, pos)
    })
    &&& forall|t2: int, k2: int, pos2: int| #[trigger] feasible_insertion(p, pipe, tours, j, t2, k2, pos2)
        && tried_before(t2, k2, pos2, t, k, pos) ==> {
            &&& best is Some
            &&& best_cost <= insertion_cost(p, pipe, tours, j, t2, k2, pos2)
            &&& (tried_before(t2, k2, pos2, best->Some_0.tour as int, best->Some_0.perm as int, best->Some_0.pos as int)
                ==> best_cost < insertion_cost(p, pipe, tours, j, t2, k2, pos2))
        }
}

/// Looks at one insertion and keeps it if it is feasible and cheaper than the best so far.
fn try_insertion(
    p: &Problem,
    pipe: &ConstraintPipeline,
    sol: &Solution,
    j: usize,
    t: usize,
    k: usize,
    pos: usize,
    old_end: u64,
    best: &mut Option<Insertion>,
    best_cost: &mut i128,
)
    requires
        p.wf(),
        sol.wf(*p, *pipe),
        j < p.jobs@.len(),
        t < sol.tours@.len(),
        k < p.jobs@[j as int].permutations@.len(),
        pos <= sol.tours@[t as int].visits@.len(),
        verdict(pipe.modules@, p.actors@[t as int], route(*p, tours_view(*sol)[t as int])) == Some(old_end),
        search_inv(*p, *pipe, tours_view(*sol), j, *old(best), *old(best_cost) as int, t as int, k as int, pos as int),
    ensures
        search_inv(*p, *pipe, tours_view(*sol), j, *final(best), *final(best_cost) as int, t as int, k as int, pos as int + 1),
{
    let ghost tv = tours_view(*sol);
    let visits = &sol.tours[t].visits;
    assert(visits@ == tv[t as int]);
    let v = Visit { job: j, perm: k };
    let cand = with_visit(visits, pos, v);
    assert forall|i: int| 0 <= i < cand@.len() implies valid_visit(*p, #[trigger] cand@[i]) by {
        if i < pos {
            assert(cand@[i] == sol.tours@[t as int].visits@[i]);
        } else if i > pos {
            assert(cand@[i] == sol.tours@[t as int].visits@[i - 1]);
        }
    }
    let cplaces = route_places(p, &cand);
    let verdict_end = pipe.evaluate(&p.actors[t], &cplaces);
    if let Some(end) = verdict_end {
        let c = end as i128 - old_end as i128;
        if best.is_none() || c < *best_cost {
            *best = Some(Insertion { tour: t, pos, perm: k });
            *best_cost = c;
        }
    }
}

/// Finds the cheapest feasible insertion of job `j` into the solution's tours,
/// over every tour, every permutation of the job and every position; the first
/// one tried wins a tie. `None` exactly when there is no feasible insertion.
pub fn best_insertion(p: &Problem, pipe: &ConstraintPipeline, sol: &Solution, j: usize) -> (r: Option<Insertion>)
    requires
        p.wf(),
        sol.wf(*p, *pipe),
        j < p.jobs@.len(),
    ensures
        match r {
            None => !can_insert(*p, *pipe, tours_view(*sol), j),
            Some(ins) => cheapest(*p, *pipe, tours_view(*sol), j, ins),
        },
{
    let ghost tv = tours_view(*sol);
    let mut best: Option<Insertion> = None;
    let mut best_cost: i128 = 0;
    let nt = sol.tours.len();
    let np = p.jobs[j].permutations.len();
    let mut t: usize = 0;
    while t < nt
        invariant
            p.wf(),
            sol.wf(*p, *pipe),
            j < p.jobs@.len(),
            tv == tours_view(*sol),
            nt == sol.tours@.len(),
            np == p.jobs@[j as int].permutations@.len(),
            t <= nt,
            search_inv(*p, *pipe, tv, j, best, best_cost as int, t as int, 0, 0),
        decreases nt - t,
    {
        let visits = &sol.tours[t].visits;
        assert(visits@ == tv[t as int]);
        let places = route_places(p, visits);
        let old_end = match pipe.evaluate(&p.actors[t], &places) {
            Some(e) => e,
            None => {
                proof {
                    assert(false);
                }
                0
            },
        };
        let mut k: usize = 0;
        while k < np
            invariant
                p.wf(),
                sol.wf(*p, *pipe),
                j < p.jobs@.len(),
                tv == tours_view(*sol),
                nt == sol.tours@.len(),
                np == p.jobs@[j as int].permutations@.len(),
                t < nt,
                k <= np,
                visits@ == tv[t as int],
                verdict(pipe.modules@, p.actors@[t as int], route(*p, tv[t as int])) == Some(old_end),
                search_inv(*p, *pipe, tv, j, best, best_cost as int, t as int, k as int, 0),
            decreases np - k,
        {
            let mut pos: usize = 0;
            while pos < visits.len()
                invariant
                    p.wf(),
                    sol.wf(*p, *pipe),
                    j < p.jobs@.len(),
                    tv == tours_view(*sol),
                    nt == sol.tours@.len(),
                    np == p.jobs@[j as int].permutations@.len(),
                    t < nt,
                    k < np,
                    pos <= visits@.len(),
                    visits@ == tv[t as int],
                    verdict(pipe.modules@, p.actors@[t as int], route(*p, tv[t as int])) == Some(old_end),
                    search_inv(*p, *pipe, tv, j, best, best_cost as int, t as int, k as int, pos as int),
                decreases visits@.len() - pos,
            {
                try_insertion(p, pipe, sol, j, t, k, pos, old_end, &mut best, &mut best_cost);
                pos = pos + 1;
            }
            try_insertion(p, pipe, sol, j, t, k, pos, old_end, &mut best, &mut best_cost);
            assert(search_inv(*p, *pipe, tv, j, best, best_cost as int, t as int, k as int + 1, 0));
            k = k + 1;
        }
        assert(search_inv(*p, *pipe, tv, j, best, best_cost as int, t as int + 1, 0, 0));
        t = t + 1;
    }
    best
}


/// With the capacity module in the pipeline, a job whose demand (its parts in
/// the order tried) exceeds what the actor has left after its tour is rejected
/// at every position of that tour.
pub proof fn lemma_over_capacity_rejected(p: Problem, pipe: ConstraintPipeline, tours: Seq<Seq<Visit>>, j: usize, t: int, k: usize, pos: usize)
    requires
        is_candidate(p, tours, j, t, k as int, pos as int),
        has_module(pipe.modules@, ConstraintModule::Capacity),
        load(route(p, tours[t])) + load(p.jobs@[j as int].ordered(k as int)) > p.actors@[t].capacity,
    ensures
        insertion_end(p, pipe, tours, j, t, k as int, pos as int) is None,
{
    let v = Visit { job: j, perm: k };
    let vs = tours[t];
    let ins = vs.insert(pos as int, v);
    lemma_visit_contiguous(p, ins, pos as int);
    assert(ins[pos as int] == v);
    assert(ins.take(pos as int) == vs.take(pos as int));
    assert(ins.skip(pos + 1) == vs.skip(pos as int));
    assert(vs == vs.take(pos as int) + vs.skip(pos as int));
    lemma_route_append(p, vs.take(pos as int), vs.skip(pos as int));
    let a = route(p, vs.take(pos as int));
    let b = route(p, vs.skip(pos as int));
    let m = p.jobs@[j as int].ordered(k as int);
    lemma_load_append(a + m, b);
    lemma_load_append(a, m);
    lemma_load_append(a, b);
    let whole = route(p, ins);
    assert(whole == a + m + b);
    assert(route(p, vs) == a + b);
    assert(whole.take(whole.len() as int) == whole);
    assert(load(whole.take(whole.len() as int)) > p.actors@[t].capacity);
    assert(!capacity_ok(whole, p.actors@[t].capacity));
}

/// Feasible insertions of job `j` into tour `t` in permutation `k`, at positions below `n`.
pub open spec fn slots_pos(p: Problem, pipe: ConstraintPipeline, tours: Seq<Seq<Visit>>, j: usize, t: int, k: int, n: int) -> int
    decreases n,
{
    if n <= 0 {
        0
    } else {
        slots_pos(p, pipe, tours, j, t, k, n - 1) + if insertion_end(p, pipe, tours, j, t, k, n - 1) is Some { 1int } else { 0int }
    }
}

/// Feasible insertions of job `j` into tour `t`, over permutations below `m`.
pub open spec fn slots_perm(p: Problem, pipe: ConstraintPipeline, tours: Seq<Seq<Visit>>, j: usize, t: int, m: int) -> int
    decreases m,
{
    if m <= 0 { 0 } else { slots_perm(p, pipe, tours, j, t, m - 1) + slots_pos(p, pipe, tours, j, t, m - 1, tours[t].len() + 1int) }
}

/// Feasible insertions of job `j` into tours below `n`.
pub open spec fn slots_tour(p: Problem, pipe: ConstraintPipeline, tours: Seq<Seq<Visit>>, j: usize, n: int) -> int
    decreases n,
{
    if n <= 0 {
        0
    } else {
        slots_tour(p, pipe, tours, j, n - 1) + slots_perm(p, pipe, tours, j, n - 1, p.jobs@[j as int].permutations@.len() as int)
    }
}

/// How hard job `j` is to place: the number of its feasible insertions, capped at `u64::MAX`.
pub open spec fn difficulty(p: Problem, pipe: ConstraintPipeline, tours: Seq<Seq<Visit>>, j: usize) -> int {
    capped(slots_tour(p, pipe, tours, j, tours.len() as int))
}

/// Whether inserting job `j` into tour `t` at `pos` in permutation `k` passes the pipeline.
fn insertion_fits(p: &Problem, pipe: &ConstraintPipeline, sol: &Solution, j: usize, t: usize, k: usize, pos: usize) -> (r: bool)
    requires
        p.wf(),
        sol.wf(*p, *pipe),
        j < p.jobs@.len(),
        t < sol.tours@.len(),
        k < p.jobs@[j as int].permutations@.len(),
        pos <= sol.tours@[t as int].visits@.len(),
    ensures
        r == insertion_end(*p, *pipe, tours_view(*sol), j, t as int, k as int, pos as int) is Some,
{
    let visits = &sol.tours[t].visits;
    assert(visits@ == tours_view(*sol)[t as int]);
    let cand = with_visit(visits, pos, Visit { job: j, perm: k });
    assert forall|i: int| 0 <= i < cand@.len() implies valid_visit(*p, #[trigger] cand@[i]) by {
        if i < pos {
            assert(cand@[i] == sol.tours@[t as int].visits@[i]);
        } else if i > pos {
            assert(cand@[i] == sol.tours@[t as int].visits@[i - 1]);
        }
    }
    let places = route_places(p, &cand);
    pipe.evaluate(&p.actors[t], &places).is_some()
}

/// Counts the feasible insertions of job `j`, over every tour, permutation and position.
pub fn feasible_slots(p: &Problem, pipe: &ConstraintPipeline, sol: &Solution, j: usize) -> (r: u64)
    requires
        p.wf(),
        sol.wf(*p, *pipe),
        j < p.jobs@.len(),
    ensures
        r == difficulty(*p, *pipe, tours_view(*sol), j),
{
    let ghost tv = tours_view(*sol);
    let np = p.jobs[j].permutations.len();
    let mut count: u64 = 0;
    let mut t: usize = 0;
    while t < sol.tours.len()
        invariant
            p.wf(),
            sol.wf(*p, *pipe),
            j < p.jobs@.len(),
            tv == tours_view(*sol),
            np == p.jobs@[j as int].permutations@.len(),
            t <= sol.tours@.len(),
            count == capped(slots_tour(*p, *pipe, tv, j, t as int)),
        decreases sol.tours@.len() - t,
    {
        let n = sol.tours[t].visits.len();
        assert(n == tv[t as int].len());
        let ghost base = slots_tour(*p, *pipe, tv, j, t as int);
        let mut k: usize = 0;
        while k < np
            invariant
                p.wf(),
                sol.wf(*p, *pipe),
                j < p.jobs@.len(),
                tv == tours_view(*sol),
                np == p.jobs@[j as int].permutations@.len(),
                t < sol.tours@.len(),
                n == tv[t as int].len(),
                k <= np,
                count == capped(base + slots_perm(*p, *pipe, tv, j, t as int, k as int)),
            decreases np - k,
        {
            let ghost base2 = base + slots_perm(*p, *pipe, tv, j, t as int, k as int);
            let mut pos: usize = 0;
            while pos < n
                invariant
                    p.wf(),
                    sol.wf(*p, *pipe),
                    j < p.jobs@.len(),
                    tv == tours_view(*sol),
                    np == p.jobs@[j as int].permutations@.len(),
                    t < sol.tours@.len(),
                    n == tv[t as int].len(),
                    k < np,
                    pos <= n,
                    count == capped(base2 + slots_pos(*p, *pipe, tv, j, t as int, k as int, pos as int)),
                decreases n - pos,
            {
                if insertion_fits(p, pipe, sol, j, t, k, pos) {
                    count = count.saturating_add(1);
                }
                pos = pos + 1;
            }
            if insertion_fits(p, pipe, sol, j, t, k, pos) {
                count = count.saturating_add(1);
            }
            k = k + 1;
        }
        t = t + 1;
    }
    count
}

/// `r[a]` is `jobs[idx[a]]`, each position of `jobs` used at most once, and
/// jobs of equal difficulty come in the order they had in `jobs`.
pub open spec fn stable_order(p: Problem, pipe: ConstraintPipeline, tours: Seq<Seq<Visit>>, jobs: Seq<usize>, r: Seq<usize>, idx: Seq<int>) -> bool {
    &&& idx.len() == r.len()
    &&& forall|a: int| 0 <= a < r.len() ==> 0 <= #[trigger] idx[a] < jobs.len() && r[a] == jobs[idx[a]]
    &&& forall|a: int, b: int| 0 <= a < b < r.len() ==> #[trigger] idx[a] != #[trigger] idx[b]
    &&& forall|a: int, b: int| 0 <= a < b < r.len() && difficulty(p, pipe, tours, #[trigger] r[a]) == difficulty(p, pipe, tours, #[trigger] r[b])
        ==> idx[a] < idx[b]
}

/// The jobs reordered so that those with the fewest feasible insertions come
/// first (ties keep their order): the hardest jobs get placed while there is
/// the most room.
pub fn order_by_difficulty(p: &Problem, pipe: &ConstraintPipeline, sol: &Solution, jobs: &Vec<usize>) -> (r: Vec<usize>)
    requires
        p.wf(),
        sol.wf(*p, *pipe),
        forall|i: int| 0 <= i < jobs@.len() ==> #[trigger] jobs@[i] < p.jobs@.len(),
    ensures
        r@.to_multiset() == jobs@.to_multiset(),
        forall|a: int, b: int| 0 <= a < b < r@.len()
            ==> difficulty(*p, *pipe, tours_view(*sol), #[trigger] r@[a]) <= difficulty(*p, *pipe, tours_view(*sol), #[trigger] r@[b]),
        exists|idx: Seq<int>| #[trigger] stable_order(*p, *pipe, tours_view(*sol), jobs@, r@, idx),
{
    let ghost tv = tours_view(*sol);
    let mut out: Vec<usize> = Vec::new();
    let mut keys: Vec<u64> = Vec::new();
    let ghost mut idx: Seq<int> = Seq::empty();
    let mut i: usize = 0;
    proof {
        assert(jobs@.take(0) =~= Seq::<usize>::empty());
        assert(out@ =~= Seq::<usize>::empty());
        broadcast use vstd::seq_lib::group_to_multiset_ensures;
    }
    while i < jobs.len()
        invariant
            p.wf(),
            sol.wf(*p, *pipe),
            tv == tours_view(*sol),
            forall|i: int| 0 <= i < jobs@.len() ==> #[trigger] jobs@[i] < p.jobs@.len(),
            i <= jobs@.len(),
            out@.len() == keys@.len(),
            forall|a: int| 0 <= a < keys@.len() ==> #[trigger] keys@[a] == difficulty(*p, *pipe, tv, out@[a]),
            forall|a: int, b: int| 0 <= a < b < keys@.len() ==> #[trigger] keys@[a] <= #[trigger] keys@[b],
            out@.to_multiset() == jobs@.take(i as int).to_multiset(),
            idx.len() == out@.len(),
            forall|a: int| 0 <= a < out@.len() ==> 0 <= #[trigger] idx[a] < i && out@[a] == jobs@[idx[a]],
            forall|a: int, b: int| 0 <= a < b < out@.len() ==> #[trigger] idx[a] != #[trigger] idx[b],
            forall|a: int, b: int| 0 <= a < b < out@.len() && #[trigger] keys@[a] == #[trigger] keys@[b] ==> idx[a] < idx[b],
        decreases jobs@.len() - i,
    {
        let j = jobs[i];
        let key = feasible_slots(p, pipe, sol, j);
        let mut pos: usize = 0;
        while pos < keys.len() && keys[pos] <= key
            invariant
                pos <= keys@.len(),
                forall|a: int| 0 <= a < pos ==> #[trigger] keys@[a] <= key,
            decreases keys@.len() - pos,
        {
            pos = pos + 1;
        }
        let ghost old_keys = keys@;
        let ghost old_out = out@;
        let ghost old_idx = idx;
        assert(forall|a: int| pos <= a < old_keys.len() ==> #[trigger] old_keys[a] > key) by {
            assert forall|a: int| pos <= a < old_keys.len() implies #[trigger] old_keys[a] > key by {
                assert(old_keys[pos as int] > key);
                assert(old_keys[pos as int] <= old_keys[a] || a == pos);
            }
        }
        out.insert(pos, j);
        keys.insert(pos, key);
        proof {
            idx = old_idx.insert(pos as int, i as int);
            assert forall|a: int| 0 <= a < out@.len() implies 0 <= #[trigger] idx[a] < i + 1 && out@[a] == jobs@[idx[a]] by {
                if a < pos {
                    assert(idx[a] == old_idx[a] && out@[a] == old_out[a]);
                } else if a > pos {
                    assert(idx[a] == old_idx[a - 1] && out@[a] == old_out[a - 1]);
                }
            }
            assert forall|a: int, b: int| 0 <= a < b < out@.len() implies #[trigger] idx[a] != #[trigger] idx[b] by {
                if a < pos && b < pos {
                    assert(idx[a] == old_idx[a] && idx[b] == old_idx[b]);
                } else if a < pos && b == pos {
                    assert(idx[a] == old_idx[a]);
                } else if a < pos {
                    assert(idx[a] == old_idx[a] && idx[b] == old_idx[b - 1]);
                } else if a == pos {
                    assert(idx[b] == old_idx[b - 1]);
                } else {
                    assert(idx[a] == old_idx[a - 1] && idx[b] == old_idx[b - 1]);
                }
            }
            assert forall|a: int, b: int| 0 <= a < b < out@.len() && #[trigger] keys@[a] == #[trigger] keys@[b] implies idx[a] < idx[b] by {
                if a < pos && b < pos {
                    assert(idx[a] == old_idx[a] && idx[b] == old_idx[b]);
                    assert(keys@[a] == old_keys[a] && keys@[b] == old_keys[b]);
                } else if a < pos && b == pos {
                    assert(idx[a] == old_idx[a]);
                } else if a < pos {
                    assert(keys@[a] == old_keys[a] && keys@[b] == old_keys[b - 1]);
                    assert(keys@[a] <= key);
                } else if a == pos {
                    assert(keys@[b] == old_keys[b - 1]);
                } else {
                    assert(idx[a] == old_idx[a - 1] && idx[b] == old_idx[b - 1]);
                    assert(keys@[a] == old_keys[a - 1] && keys@[b] == old_keys[b - 1]);
                }
            }
            vstd::seq_lib::to_multiset_insert(old_out, pos as int, j);
            assert(jobs@.take(i as int + 1) == jobs@.take(i as int).push(j));
            vstd::seq_lib::to_multiset_build(jobs@.take(i as int), j);
            assert forall|a: int| 0 <= a < keys@.len() implies #[trigger] keys@[a] == difficulty(*p, *pipe, tv, out@[a]) by {
                if a < pos {
                    assert(keys@[a] == old_keys[a] && out@[a] == old_out[a]);
                } else if a > pos {
                    assert(keys@[a] == old_keys[a - 1] && out@[a] == old_out[a - 1]);
                }
            }
            assert forall|a: int, b: int| 0 <= a < b < keys@.len() implies #[trigger] keys@[a] <= #[trigger] keys@[b] by {
                if b < pos {
                    assert(keys@[a] == old_keys[a] && keys@[b] == old_keys[b]);
                } else if b == pos {
                    assert(keys@[a] == old_keys[a]);
                } else if a < pos {
                    assert(keys@[a] == old_keys[a] && keys@[b] == old_keys[b - 1]);
                } else if a == pos {
                    assert(keys@[b] == old_keys[b - 1]);
                } else {
                    assert(keys@[a] == old_keys[a - 1] && keys@[b] == old_keys[b - 1]);
                }
            }
        }
        i = i + 1;
    }
    assert(jobs@.take(i as int) == jobs@);
    proof {
        assert forall|a: int, b: int| 0 <= a < b < out@.len()
            implies difficulty(*p, *pipe, tv, #[trigger] out@[a]) <= difficulty(*p, *pipe, tv, #[trigger] out@[b]) by {
            assert(keys@[a] <= keys@[b]);
        }
        assert forall|a: int, b: int| 0 <= a < b < out@.len()
            && difficulty(*p, *pipe, tv, #[trigger] out@[a]) == difficulty(*p, *pipe, tv, #[trigger] out@[b]) implies idx[a] < idx[b] by {
            assert(keys@[a] == keys@[b]);
        }
        assert(stable_order(*p, *pipe, tv, jobs@, out@, idx));
    }
    out
}

/// Job `j` is served by some visit of the tours.
pub open spec fn placed(tours: Seq<Seq<Visit>>, j: usize) -> bool {
    exists|t: int, i: int| 0 <= t < tours.len() && 0 <= i < tours[t].len() && (#[trigger] tours[t][i]).job == j
}

/// Inserts job `j` at its cheapest feasible insertion, or, where there is none,
/// records it as unassigned and leaves the tours as they are.
pub fn insert_job(p: &Problem, pipe: &ConstraintPipeline, sol: &mut Solution, j: usize) -> (r: Option<Insertion>)
    requires
        p.wf(),
        old(sol).wf(*p, *pipe),
        j < p.jobs@.len(),
    ensures
        final(sol).wf(*p, *pipe),
        match r {
            None => {
                &&& !can_insert(*p, *pipe, tours_view(*old(sol)), j)
                &&& tours_view(*final(sol)) == tours_view(*old(sol))
                &&& final(sol).unassigned@ == old(sol).unassigned@.push(j)
            },
            Some(ins) => {
                &&& cheapest(*p, *pipe, tours_view(*old(sol)), j, ins)
                &&& tours_view(*final(sol)) == tours_view(*old(sol)).update(
                    ins.tour as int,
                    tours_view(*old(sol))[ins.tour as int].insert(ins.pos as int, Visit { job: j, perm: ins.perm }),
                )
                &&& final(sol).unassigned@ == old(sol).unassigned@
            },
        },
{
    let ghost tv = tours_view(*sol);
    let r = best_insertion(p, pipe, sol, j);
    match r {
        None => {
            sol.unassigned.push(j);
            assert(tours_view(*sol) =~= tv);
            assert forall|t: int| 0 <= t < sol.tours@.len()
                implies crate::constraint::feasible(pipe.modules@, p.actors@[t], route(*p, #[trigger] sol.tours@[t].visits@)) by {
                assert(sol.tours@[t].visits@ == tv[t]);
            }
        },
        Some(ins) => {
            let v = Visit { job: j, perm: ins.perm };
            let visits = with_visit(&sol.tours[ins.tour].visits, ins.pos, v);
            sol.tours.set(ins.tour, Tour { visits });
            assert(tours_view(*sol) =~= tv.update(ins.tour as int, tv[ins.tour as int].insert(ins.pos as int, v)));
            assert forall|t: int, i: int| 0 <= t < sol.tours@.len() && 0 <= i < sol.tours@[t].visits@.len()
                implies valid_visit(*p, #[trigger] sol.tours@[t].visits@[i]) by {
                assert(sol.tours@[t].visits@ == tours_view(*sol)[t]);
                if t == ins.tour {
                    if i < ins.pos {
                        assert(tv[t][i] == sol.tours@[t].visits@[i]);
                    } else if i > ins.pos {
                        assert(tv[t][i - 1] == sol.tours@[t].visits@[i]);
                    }
                } else {
                    assert(tv[t][i] == sol.tours@[t].visits@[i]);
                }
            }
            assert forall|t: int| 0 <= t < sol.tours@.len()
                implies crate::constraint::feasible(pipe.modules@, p.actors@[t], route(*p, #[trigger] sol.tours@[t].visits@)) by {
                assert(sol.tours@[t].visits@ == tours_view(*sol)[t]);
            }
        },
    }
    r
}

/// What a solution is made of, as far as recreate is concerned: its tours'
/// visits and its unassigned jobs.
pub open spec fn sol_view(s: Solution) -> (Seq<Seq<Visit>>, Seq<usize>) {
    (tours_view(s), s.unassigned@)
}

/// One step of recreate on job `j`: from `a` to `b`, the job goes to its
/// cheapest feasible insertion, or, where it has none, to the unassigned jobs.
pub open spec fn insert_step(p: Problem, pipe: ConstraintPipeline, a: (Seq<Seq<Visit>>, Seq<usize>), b: (Seq<Seq<Visit>>, Seq<usize>), j: usize) -> bool {
    ||| {
        &&& !can_insert(p, pipe, a.0, j)
        &&& b.0 == a.0
        &&& b.1 == a.1.push(j)
    }
    ||| exists|ins: Insertion| {
        &&& #[trigger] cheapest(p, pipe, a.0, j, ins)
        &&& b.0 == a.0.update(ins.tour as int, a.0[ins.tour as int].insert(ins.pos as int, Visit { job: j, perm: ins.perm }))
        &&& b.1 == a.1
    }
}

/// The states `st` go from one to the next by inserting `jobs` in order.
pub open spec fn insert_steps(p: Problem, pipe: ConstraintPipeline, st: Seq<(Seq<Seq<Visit>>, Seq<usize>)>, jobs: Seq<usize>) -> bool {
    &&& st.len() == jobs.len() + 1
    &&& forall|i: int| 0 <= i < jobs.len() ==> #[trigger] insert_step(p, pipe, st[i], st[i + 1], jobs[i])
}

/// Inserts the jobs one after another, in the order given, each at its
/// cheapest feasible insertion at the time; a job with none is recorded as
/// unassigned.
pub fn recreate(p: &Problem, pipe: &ConstraintPipeline, sol: &mut Solution, jobs: &Vec<usize>)
    requires
        p.wf(),
        old(sol).wf(*p, *pipe),
        forall|i: int| 0 <= i < jobs@.len() ==> #[trigger] jobs@[i] < p.jobs@.len(),
    ensures
        final(sol).wf(*p, *pipe),
        forall|i: int| 0 <= i < jobs@.len()
            ==> placed(tours_view(*final(sol)), #[trigger] jobs@[i]) || final(sol).unassigned@.contains(jobs@[i]),
        forall|j: usize| placed(tours_view(*old(sol)), j) ==> placed(tours_view(*final(sol)), j),
        old(sol).unassigned@.is_prefix_of(final(sol).unassigned@),
        jobs@.len() == 0 ==> tours_view(*final(sol)) == tours_view(*old(sol)) && final(sol).unassigned@ == old(sol).unassigned@
            && objective(*p, *pipe, *final(sol)) == objective(*p, *pipe, *old(sol)),
        exists|st: Seq<(Seq<Seq<Visit>>, Seq<usize>)>| #[trigger] insert_steps(*p, *pipe, st, jobs@)
            && st[0] == sol_view(*old(sol)) && st.last() == sol_view(*final(sol)),
{
    let ghost mut st: Seq<(Seq<Seq<Visit>>, Seq<usize>)> = seq![sol_view(*sol)];
    let ghost tv0 = tours_view(*sol);
    let ghost un0 = sol.unassigned@;
    let mut i: usize = 0;
    assert(jobs@.take(0).len() == 0);
    while i < jobs.len()
        invariant
            p.wf(),
            sol.wf(*p, *pipe),
            forall|i: int| 0 <= i < jobs@.len() ==> #[trigger] jobs@[i] < p.jobs@.len(),
            i <= jobs@.len(),
            forall|a: int| 0 <= a < i
                ==> placed(tours_view(*sol), #[trigger] jobs@[a]) || sol.unassigned@.contains(jobs@[a]),
            forall|j: usize| placed(tv0, j) ==> placed(tours_view(*sol), j),
            un0.is_prefix_of(sol.unassigned@),
            i == 0 ==> tours_view(*sol) == tv0 && sol.unassigned@ == un0,
            insert_steps(*p, *pipe, st, jobs@.take(i as int)),
            st[0] == sol_view(*old(sol)),
            st.last() == sol_view(*sol),
        decreases jobs@.len() - i,
    {
        let ghost tv = tours_view(*sol);
        let ghost un = sol.unassigned@;
        let j = jobs[i];
        let r = insert_job(p, pipe, sol, j);
        proof {
            let a = st.last();
            let b = sol_view(*sol);
            match r {
                None => {},
                Some(ins) => {
                    assert(cheapest(*p, *pipe, a.0, j, ins));
                },
            }
            assert(insert_step(*p, *pipe, a, b, j));
            let st2 = st.push(b);
            let js = jobs@.take(i as int + 1);
            assert forall|k: int| 0 <= k < js.len() implies #[trigger] insert_step(*p, *pipe, st2[k], st2[k + 1], js[k]) by {
                if k < i {
                    assert(js[k] == jobs@.take(i as int)[k]);
                    assert(st2[k] == st[k] && st2[k + 1] == st[k + 1]);
                } else {
                    assert(st2[k] == a && st2[k + 1] == b && js[k] == j);
                }
            }
            st = st2;
            let tv2 = tours_view(*sol);
            assert forall|x: usize| placed(tv, x) implies placed(tv2, x) by {
                let (t, a) = choose|t: int, a: int| 0 <= t < tv.len() && 0 <= a < tv[t].len() && (#[trigger] tv[t][a]).job == x;
                match r {
                    None => {
                        assert(tv2[t][a].job == x);
                    },
                    Some(ins) => {
                        if t == ins.tour && a >= ins.pos {
                            assert(tv2[t][a + 1] == tv[t][a]);
                            assert(tv2[t][a + 1].job == x);
                        } else {
                            assert(tv2[t][a] == tv[t][a]);
                            assert(tv2[t][a].job == x);
                        }
                    },
                }
            }
            assert(un.is_prefix_of(sol.unassigned@));
            assert forall|a: int| 0 <= a < i + 1
                implies placed(tv2, #[trigger] jobs@[a]) || sol.unassigned@.contains(jobs@[a]) by {
                if a < i {
                    if un.contains(jobs@[a]) {
                        let w = choose|w: int| 0 <= w < un.len() && un[w] == jobs@[a];
                        assert(sol.unassigned@[w] == jobs@[a]);
                    }
                } else {
                    match r {
                        None => {
                            assert(sol.unassigned@[un.len() as int] == j);
                        },
                        Some(ins) => {
                            assert(tv2[ins.tour as int][ins.pos as int].job == j);
                        },
                    }
                }
            }
        }
        i = i + 1;
    }
    assert(jobs@.take(i as int) == jobs@);
}

} // verus!
