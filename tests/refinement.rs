use std::sync::Arc;
use vrp_core::constraint::{ConstraintModule, ConstraintPipeline};
use vrp_core::objective::{evaluate_solution, ObjectiveCost};
use vrp_core::problem::{travel_time, Actor, Job, Place, Problem};
use vrp_core::recreate::{best_insertion, feasible_slots, insert_job, order_by_difficulty, recreate};
use vrp_core::refinement::{accept, accept_with_chance, RefinementContext, Termination};
use vrp_core::ruin::{jobs_near, ruin_jobs, ruin_tour};
use vrp_core::solution::{route_places, Solution, Tour, Visit};

fn place(location: u64, tw_start: u64, tw_end: u64, demand: u64) -> Place {
    Place { location, duration: 0, tw_start, tw_end, demand }
}

fn actor(capacity: u64) -> Actor {
    Actor { location: 0, start: 0, capacity }
}

fn jobs_of(sol: &Solution, t: usize) -> Vec<usize> {
    sol.tours[t].visits.iter().map(|v| v.job).collect()
}

#[test]
fn two_jobs_fit_in_time_window_order() {
    let p = Problem {
        actors: vec![actor(2)],
        jobs: vec![Job::single(1, place(10, 50, 60, 1)), Job::single(2, place(5, 0, 20, 1))],
    };
    let pipe = ConstraintPipeline::full();
    let mut sol = Solution::empty(&p, &pipe);
    recreate(&p, &pipe, &mut sol, &vec![0, 1]);
    assert!(sol.unassigned.is_empty());
    assert_eq!(jobs_of(&sol, 0), vec![1, 0]);
}

#[test]
fn job_over_capacity_stays_unassigned() {
    let p = Problem { actors: vec![actor(2)], jobs: vec![Job::single(7, place(3, 0, 1000, 3))] };
    let pipe = ConstraintPipeline::full();
    let mut sol = Solution::empty(&p, &pipe);
    recreate(&p, &pipe, &mut sol, &vec![0]);
    assert_eq!(sol.unassigned, vec![0]);
    assert_eq!(p.jobs[sol.unassigned[0]].id, 7);
    assert!(sol.tours[0].visits.is_empty());
}

#[test]
fn capacity_module_rejects_demand_over_capacity() {
    let pipe = ConstraintPipeline::full();
    assert_eq!(pipe.evaluate(&actor(2), &vec![place(0, 0, 1000, 3)]), None);
    assert_eq!(pipe.evaluate(&actor(2), &vec![place(0, 0, 1000, 1), place(0, 0, 1000, 1)]), Some(0));
    assert_eq!(pipe.evaluate(&actor(2), &vec![place(0, 0, 1000, 2), place(0, 0, 1000, 1)]), None);
    let time_only = ConstraintPipeline { modules: vec![ConstraintModule::TimeWindow] };
    assert_eq!(time_only.evaluate(&actor(2), &vec![place(4, 0, 1000, 3)]), Some(4));
}

#[test]
fn time_window_module_waits_and_rejects() {
    let pipe = ConstraintPipeline::full();
    let mut late = place(10, 20, 30, 0);
    late.duration = 5;
    assert_eq!(pipe.evaluate(&actor(5), &vec![late]), Some(25));
    assert_eq!(pipe.evaluate(&actor(5), &vec![place(10, 0, 9, 0)]), None);
    let cap_only = ConstraintPipeline { modules: vec![ConstraintModule::Capacity] };
    assert_eq!(cap_only.evaluate(&actor(5), &vec![place(10, 0, 9, 0)]), Some(10));
}

#[test]
fn insertion_into_full_tour_is_rejected() {
    let p = Problem {
        actors: vec![actor(2)],
        jobs: vec![Job::single(1, place(1, 0, 1000, 2)), Job::single(2, place(2, 0, 1000, 1))],
    };
    let pipe = ConstraintPipeline::full();
    let mut sol = Solution::empty(&p, &pipe);
    assert!(insert_job(&p, &pipe, &mut sol, 0).is_some());
    assert_eq!(best_insertion(&p, &pipe, &sol, 1), None);
    assert_eq!(insert_job(&p, &pipe, &mut sol, 1), None);
    assert_eq!(sol.unassigned, vec![1]);
}

#[test]
fn recreate_with_no_jobs_changes_nothing() {
    let p = Problem {
        actors: vec![actor(3), actor(3)],
        jobs: vec![Job::single(1, place(4, 0, 100, 1)), Job::single(2, place(8, 0, 100, 1))],
    };
    let pipe = ConstraintPipeline::full();
    let mut sol = Solution::empty(&p, &pipe);
    recreate(&p, &pipe, &mut sol, &vec![0, 1]);
    let before_tours: Vec<Vec<usize>> = (0..2).map(|t| jobs_of(&sol, t)).collect();
    let before_cost = evaluate_solution(&p, &pipe, &sol);
    recreate(&p, &pipe, &mut sol, &vec![]);
    let after_tours: Vec<Vec<usize>> = (0..2).map(|t| jobs_of(&sol, t)).collect();
    assert_eq!(before_tours, after_tours);
    assert_eq!(before_cost, evaluate_solution(&p, &pipe, &sol));
}

#[test]
fn recreate_picks_cheapest_position() {
    let p = Problem {
        actors: vec![actor(10)],
        jobs: vec![
            Job::single(1, place(10, 0, 1000, 1)),
            Job::single(2, place(20, 0, 1000, 1)),
            Job::single(3, place(15, 0, 1000, 1)),
        ],
    };
    let pipe = ConstraintPipeline::full();
    let mut sol = Solution::empty(&p, &pipe);
    recreate(&p, &pipe, &mut sol, &vec![0, 1, 2]);
    assert_eq!(jobs_of(&sol, 0), vec![0, 2, 1]);
    assert_eq!(evaluate_solution(&p, &pipe, &sol), ObjectiveCost { unassigned: 0, duration: 20 });
}

#[test]
fn multi_job_parts_stay_together_in_a_legal_order() {
    let parts = vec![place(30, 0, 1000, 1), place(10, 0, 1000, 1)];
    let multi = Job::multi_with_permutations(9, parts, vec![vec![0, 1], vec![1, 0]]).unwrap();
    let p = Problem { actors: vec![actor(4)], jobs: vec![multi, Job::single(1, place(20, 0, 1000, 1))] };
    let pipe = ConstraintPipeline::full();
    let mut sol = Solution::empty(&p, &pipe);
    recreate(&p, &pipe, &mut sol, &vec![0, 1]);
    assert_eq!(sol.tours[0].visits[0], Visit { job: 0, perm: 1 });
    let places = route_places(&p, &sol.tours[0].visits);
    let locations: Vec<u64> = places.iter().map(|pl| pl.location).collect();
    assert_eq!(locations, vec![10, 30, 20]);
}

#[test]
fn multi_job_that_does_not_fit_is_wholly_unassigned() {
    let parts = vec![place(1, 0, 1000, 2), place(2, 0, 1000, 2)];
    let p = Problem { actors: vec![actor(3)], jobs: vec![Job::multi(5, parts)] };
    let pipe = ConstraintPipeline::full();
    let mut sol = Solution::empty(&p, &pipe);
    recreate(&p, &pipe, &mut sol, &vec![0]);
    assert_eq!(sol.unassigned, vec![0]);
    assert!(route_places(&p, &sol.tours[0].visits).is_empty());
}

#[test]
fn bad_permutations_are_refused() {
    let parts = vec![place(1, 0, 10, 1), place(2, 0, 10, 1)];
    assert!(Job::multi_with_permutations(1, parts.clone(), vec![vec![0, 0]]).is_none());
    assert!(Job::multi_with_permutations(1, parts.clone(), vec![vec![0]]).is_none());
    assert!(Job::multi_with_permutations(1, parts.clone(), vec![vec![0, 2]]).is_none());
    assert!(Job::multi_with_permutations(1, parts.clone(), vec![]).is_none());
    assert!(Job::multi_with_permutations(1, vec![], vec![vec![]]).is_none());
    assert!(Job::multi_with_permutations(1, parts, vec![vec![1, 0]]).is_some());
}

#[test]
fn ruin_removes_both_parts_of_multi_job() {
    let parts = vec![place(5, 0, 1000, 1), place(6, 0, 1000, 1)];
    let p = Problem {
        actors: vec![actor(5), actor(5)],
        jobs: vec![Job::multi(3, parts), Job::single(4, place(50, 0, 1000, 1)), Job::single(6, place(7, 0, 1000, 1))],
    };
    let pipe = ConstraintPipeline::full();
    let mut sol = Solution::empty(&p, &pipe);
    recreate(&p, &pipe, &mut sol, &vec![0, 1, 2]);
    assert!(sol.unassigned.is_empty());
    let removed = ruin_jobs(&p, &mut sol, &vec![0]);
    assert_eq!(removed, vec![0]);
    assert!(sol.check(&p, &pipe));
    for t in 0..2 {
        assert!(sol.tours[t].visits.iter().all(|v| v.job != 0));
        let places = route_places(&p, &sol.tours[t].visits);
        assert!(places.iter().all(|pl| pl.location != 5 && pl.location != 6));
    }
    let remaining: usize = (0..2).map(|t| sol.tours[t].visits.len()).sum();
    assert_eq!(remaining, 2);
}

#[test]
fn ruin_then_recreate_restores_jobs() {
    let p = Problem {
        actors: vec![actor(5), actor(5)],
        jobs: vec![Job::single(1, place(5, 0, 1000, 1)), Job::single(2, place(9, 0, 1000, 1))],
    };
    let pipe = ConstraintPipeline::full();
    let mut sol = Solution::empty(&p, &pipe);
    recreate(&p, &pipe, &mut sol, &vec![0, 1]);
    let removed = ruin_jobs(&p, &mut sol, &vec![1, 0]);
    assert_eq!(removed.len(), 2);
    assert_eq!(travel_time(9, 5), 4);
    recreate(&p, &pipe, &mut sol, &removed);
    assert!(sol.unassigned.is_empty());
    let placed: usize = (0..2).map(|t| sol.tours[t].visits.len()).sum();
    assert_eq!(placed, 2);
}

fn cost(unassigned: usize, duration: u64) -> ObjectiveCost {
    ObjectiveCost { unassigned, duration }
}

fn empty_solution() -> Solution {
    Solution { tours: vec![], unassigned: vec![] }
}

#[test]
fn acceptance_keeps_population_sorted_and_bounded() {
    let mut pop: Vec<(Solution, ObjectiveCost)> = Vec::new();
    assert!(accept(&mut pop, empty_solution(), cost(1, 50), 3));
    assert!(accept(&mut pop, empty_solution(), cost(0, 90), 3));
    assert!(accept(&mut pop, empty_solution(), cost(0, 10), 3));
    assert!(accept(&mut pop, empty_solution(), cost(0, 40), 3));
    let costs: Vec<ObjectiveCost> = pop.iter().map(|e| e.1).collect();
    assert_eq!(costs, vec![cost(0, 10), cost(0, 40), cost(0, 90)]);
    assert!(!accept(&mut pop, empty_solution(), cost(2, 0), 3));
    assert!(!accept(&mut pop, empty_solution(), cost(0, 90), 3));
    assert_eq!(pop.len(), 3);
    assert!(accept(&mut pop, empty_solution(), cost(0, 5), 3));
    let costs: Vec<ObjectiveCost> = pop.iter().map(|e| e.1).collect();
    assert_eq!(costs, vec![cost(0, 5), cost(0, 10), cost(0, 40)]);
}

#[test]
fn acceptance_places_equal_cost_after_existing() {
    let mut pop: Vec<(Solution, ObjectiveCost)> = Vec::new();
    accept(&mut pop, Solution { tours: vec![], unassigned: vec![1] }, cost(0, 10), 2);
    accept(&mut pop, Solution { tours: vec![], unassigned: vec![2] }, cost(0, 10), 2);
    assert_eq!(pop[0].0.unassigned, vec![1]);
    assert_eq!(pop[1].0.unassigned, vec![2]);
}

#[test]
fn termination_after_generation_limit() {
    let p = Arc::new(Problem { actors: vec![], jobs: vec![] });
    let mut ctx = RefinementContext::new(p);
    assert_eq!(ctx.generation, 0);
    assert!(ctx.population.is_empty());
    let conds = vec![Termination::MaxGeneration { limit: 3 }];
    assert!(!ctx.is_terminated(&conds, 0, false));
    for _ in 0..3 {
        ctx.next_generation();
    }
    assert!(ctx.is_terminated(&conds, 0, false));
    let zero = vec![Termination::MaxGeneration { limit: 0 }];
    assert!(RefinementContext::new(Arc::new(Problem { actors: vec![], jobs: vec![] })).is_terminated(&zero, 0, false));
}

#[test]
fn termination_conditions_compose_with_or() {
    let mut ctx = RefinementContext::new(Arc::new(Problem { actors: vec![], jobs: vec![] }));
    let conds = vec![Termination::MaxGeneration { limit: 100 }, Termination::MaxTime { limit_secs: 10 }];
    assert!(!ctx.is_terminated(&conds, 9, false));
    assert!(ctx.is_terminated(&conds, 10, false));
    assert!(ctx.is_terminated(&conds, 0, true));
    let target = vec![Termination::TargetDuration { duration: 30 }];
    assert!(!ctx.is_terminated(&target, 0, false));
    accept(&mut ctx.population, empty_solution(), cost(0, 30), 4);
    assert!(ctx.is_terminated(&target, 0, false));
}

#[test]
fn objective_counts_unassigned_and_time() {
    let p = Problem {
        actors: vec![Actor { location: 0, start: 100, capacity: 1 }],
        jobs: vec![Job::single(1, place(10, 0, 1000, 1)), Job::single(2, place(3, 0, 1000, 1))],
    };
    let pipe = ConstraintPipeline::full();
    let mut sol = Solution::empty(&p, &pipe);
    recreate(&p, &pipe, &mut sol, &vec![0, 1]);
    assert_eq!(evaluate_solution(&p, &pipe, &sol), cost(1, 10));
    assert!(cost(0, 99).better_than(&cost(1, 0)));
    assert!(!cost(0, 5).better_than(&cost(0, 5)));
}

#[test]
fn ruin_tour_empties_one_tour() {
    let p = Problem {
        actors: vec![actor(1), actor(1)],
        jobs: vec![Job::single(1, place(5, 0, 1000, 1)), Job::single(2, place(9, 0, 1000, 1))],
    };
    let pipe = ConstraintPipeline::full();
    let mut sol = Solution::empty(&p, &pipe);
    recreate(&p, &pipe, &mut sol, &vec![0, 1]);
    let t = if sol.tours[0].visits.is_empty() { 1 } else { 0 };
    let jobs_before = jobs_of(&sol, t);
    let removed = ruin_tour(&mut sol, t);
    assert_eq!(removed, jobs_before);
    assert!(sol.tours[t].visits.is_empty());
    assert_eq!(sol.tours[1 - t].visits.len(), 1);
}

#[test]
fn duplicate_and_check() {
    let p = Problem { actors: vec![actor(2)], jobs: vec![Job::single(1, place(5, 0, 1000, 1))] };
    let pipe = ConstraintPipeline::full();
    let mut sol = Solution::empty(&p, &pipe);
    recreate(&p, &pipe, &mut sol, &vec![0]);
    let copy = sol.duplicate();
    assert_eq!(jobs_of(&copy, 0), jobs_of(&sol, 0));
    assert!(copy.check(&p, &pipe));
    let bad = Solution { tours: vec![Tour { visits: vec![Visit { job: 0, perm: 3 }] }], unassigned: vec![] };
    assert!(!bad.check(&p, &pipe));
    let late = Problem { actors: vec![actor(2)], jobs: vec![Job::single(1, place(50, 0, 10, 1))] };
    let infeasible = Solution { tours: vec![Tour { visits: vec![Visit { job: 0, perm: 0 }] }], unassigned: vec![] };
    assert!(!infeasible.check(&late, &pipe));
    assert!(!Solution { tours: vec![], unassigned: vec![] }.check(&p, &pipe));
}

#[test]
fn refine_step_improves_population() {
    let p = Problem {
        actors: vec![actor(5)],
        jobs: vec![
            Job::single(1, place(10, 0, 1000, 1)),
            Job::single(2, place(20, 0, 1000, 1)),
            Job::single(3, place(5, 0, 1000, 1)),
        ],
    };
    let pipe = ConstraintPipeline::full();
    // a poor starting tour: 20, 10, 5
    let start = Solution {
        tours: vec![Tour {
            visits: vec![Visit { job: 1, perm: 0 }, Visit { job: 0, perm: 0 }, Visit { job: 2, perm: 0 }],
        }],
        unassigned: vec![],
    };
    assert!(start.check(&p, &pipe));
    let start_cost = evaluate_solution(&p, &pipe, &start);
    assert_eq!(start_cost, ObjectiveCost { unassigned: 0, duration: 35 });
    let mut ctx = RefinementContext::new(Arc::new(p));
    assert!(accept(&mut ctx.population, start, start_cost, 2));
    assert!(ctx.refine_step(&pipe, 0, &vec![1, 2], 2));
    assert_eq!(ctx.generation, 1);
    assert_eq!(ctx.population.len(), 2);
    assert_eq!(ctx.population[0].1, ObjectiveCost { unassigned: 0, duration: 20 });
    assert_eq!(ctx.population[1].1, start_cost);
    assert_eq!(jobs_of(&ctx.population[0].0, 0), vec![2, 0, 1]);
}

#[test]
fn refine_step_retries_unassigned_jobs() {
    let p = Problem { actors: vec![actor(1)], jobs: vec![Job::single(1, place(4, 0, 1000, 1))] };
    let pipe = ConstraintPipeline::full();
    let start = Solution { tours: vec![Tour { visits: vec![] }], unassigned: vec![0] };
    let start_cost = evaluate_solution(&p, &pipe, &start);
    let mut ctx = RefinementContext::new(Arc::new(p));
    accept(&mut ctx.population, start, start_cost, 1);
    assert!(ctx.refine_step(&pipe, 0, &vec![], 1));
    assert_eq!(ctx.population.len(), 1);
    assert_eq!(ctx.population[0].1, ObjectiveCost { unassigned: 0, duration: 4 });
    assert!(ctx.population[0].0.unassigned.is_empty());
}

#[test]
fn epicenter_selects_jobs_with_a_part_in_radius() {
    let multi = Job::multi(8, vec![place(100, 0, 1000, 1), place(42, 0, 1000, 1)]);
    let p = Problem {
        actors: vec![actor(9), actor(9)],
        jobs: vec![multi, Job::single(1, place(45, 0, 1000, 1)), Job::single(2, place(60, 0, 1000, 1))],
    };
    let pipe = ConstraintPipeline::full();
    let sol = Solution {
        tours: vec![
            Tour { visits: vec![Visit { job: 2, perm: 0 }, Visit { job: 0, perm: 0 }] },
            Tour { visits: vec![Visit { job: 1, perm: 0 }] },
        ],
        unassigned: vec![],
    };
    assert!(sol.check(&p, &pipe));
    assert_eq!(jobs_near(&p, &sol, 40, 5), vec![0, 1]);
    assert_eq!(jobs_near(&p, &sol, 60, 0), vec![2]);
    assert!(jobs_near(&p, &sol, 1000, 10).is_empty());
}

#[test]
fn slots_count_feasible_insertions() {
    let parts = vec![place(1, 0, 1000, 1), place(2, 0, 1000, 1)];
    let multi = Job::multi_with_permutations(4, parts, vec![vec![0, 1], vec![1, 0]]).unwrap();
    let p = Problem {
        actors: vec![actor(3), actor(3)],
        jobs: vec![Job::single(1, place(5, 0, 1000, 1)), multi, Job::single(2, place(9, 0, 1000, 5))],
    };
    let pipe = ConstraintPipeline::full();
    let mut sol = Solution::empty(&p, &pipe);
    insert_job(&p, &pipe, &mut sol, 0);
    // the single fits in two places of the used tour and one of the empty one
    assert_eq!(feasible_slots(&p, &pipe, &sol, 0), 3);
    // the multi: two orders, in two places of the used tour and one of the other
    assert_eq!(feasible_slots(&p, &pipe, &sol, 1), 6);
    assert_eq!(feasible_slots(&p, &pipe, &sol, 2), 0);
    assert_eq!(order_by_difficulty(&p, &pipe, &sol, &vec![1, 0, 2, 0]), vec![2, 0, 0, 1]);
}

#[test]
fn lucky_draw_lets_worse_candidate_replace_worst() {
    let mut pop: Vec<(Solution, ObjectiveCost)> = Vec::new();
    accept(&mut pop, empty_solution(), cost(0, 10), 2);
    accept(&mut pop, empty_solution(), cost(0, 20), 2);
    assert!(!accept_with_chance(&mut pop, empty_solution(), cost(0, 30), 2, false));
    assert!(accept_with_chance(&mut pop, empty_solution(), cost(0, 30), 2, true));
    let costs: Vec<ObjectiveCost> = pop.iter().map(|e| e.1).collect();
    assert_eq!(costs, vec![cost(0, 10), cost(0, 30)]);
    assert!(accept_with_chance(&mut pop, empty_solution(), cost(0, 15), 2, false));
    let costs: Vec<ObjectiveCost> = pop.iter().map(|e| e.1).collect();
    assert_eq!(costs, vec![cost(0, 10), cost(0, 15)]);
}

#[test]
fn ruin_keeps_tight_time_windows_feasible() {
    let p = Problem {
        actors: vec![actor(9)],
        jobs: vec![
            Job::single(1, place(10, 0, 10, 1)),
            Job::single(2, place(30, 0, 1000, 1)),
            Job::single(3, place(20, 0, 40, 1)),
        ],
    };
    let pipe = ConstraintPipeline::full();
    let sol0 = Solution {
        tours: vec![Tour {
            visits: vec![Visit { job: 0, perm: 0 }, Visit { job: 1, perm: 0 }, Visit { job: 2, perm: 0 }],
        }],
        unassigned: vec![],
    };
    assert!(sol0.check(&p, &pipe));
    for remove in [vec![0], vec![1], vec![2], vec![0, 2]] {
        let mut sol = sol0.duplicate();
        ruin_jobs(&p, &mut sol, &remove);
        assert!(sol.check(&p, &pipe));
    }
}
