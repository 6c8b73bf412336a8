use vstd::prelude::*;

verus! {

/// Arrival and departure times of a stop, in seconds.
#[derive(Clone, Copy, Debug, PartialEq, Eq, Structural)]
pub struct Schedule {
    pub arrival: i64,
    pub departure: i64,
}

/// A time interval of an activity, in seconds.
#[derive(Clone, Copy, Debug, PartialEq, Eq, Structural)]
pub struct Interval {
    pub start: i64,
    pub end: i64,
}

#[derive(Clone, Copy, Debug, PartialEq, Eq, Structural)]
pub enum ActivityType {
    Departure,
    Dispatch,
    Pickup,
    Delivery,
    Service,
    Break,
    Reload,
    Arrival,
}

#[derive(Clone, Copy, Debug, PartialEq, Eq, Structural)]
pub struct StopActivity {
    pub activity_type: ActivityType,
    pub time: Option<Interval>,
}

/// A stop at a location, with the distance driven since the tour's start.
#[derive(Clone, Debug)]
pub struct PointStop {
    pub location: usize,
    pub distance: i64,
    pub schedule: Schedule,
    pub activities: Vec<StopActivity>,
}

/// A stop without movement (a break taken on the way).
#[derive(Clone, Debug)]
pub struct TransitStop {
    pub time: Schedule,
    pub activities: Vec<StopActivity>,
}

#[derive(Clone, Debug)]
pub enum Stop {
    Point(PointStop),
    Transit(TransitStop),
}

impl Stop {
    pub open spec fn schedule_spec(&self) -> Schedule {
        match self {
            Stop::Point(p) => p.schedule,
            Stop::Transit(t) => t.time,
        }
    }

    pub fn schedule(&self) -> (r: Schedule)
        ensures
            r == self.schedule_spec(),
    {
        match self {
            Stop::Point(p) => p.schedule,
            Stop::Transit(t) => t.time,
        }
    }

    pub open spec fn activities_spec(&self) -> Seq<StopActivity> {
        match self {
            Stop::Point(p) => p.activities@,
            Stop::Transit(t) => t.activities@,
        }
    }
}

#[derive(Clone, Copy, Debug, PartialEq, Eq, Structural)]
pub struct Statistic {
    pub distance: i64,
    pub duration: i64,
}

#[derive(Clone, Debug)]
pub struct Tour {
    pub vehicle_id: String,
    /// Index of the routing matrix used by the tour's vehicle.
    pub profile: usize,
    pub stops: Vec<Stop>,
    pub statistic: Statistic,
}

#[derive(Clone, Debug)]
pub struct Solution {
    pub statistic: Statistic,
    pub tours: Vec<Tour>,
}

/// Travel distances and durations between location indices, row-major.
#[derive(Clone, Debug)]
pub struct RoutingMatrix {
    pub size: usize,
    pub distances: Vec<i64>,
    pub durations: Vec<i64>,
}

#[derive(Clone, Debug)]
pub struct CheckerContext {
    /// Routing matrices by profile index, if any were given.
    pub matrices: Option<Vec<RoutingMatrix>>,
    pub solution: Solution,
}

/// A mismatch between the recorded solution and what the routing data gives.
#[derive(Clone, Debug, PartialEq, Eq)]
pub enum RoutingError {
    EmptyTour { vehicle_id: String },
    UnknownProfile { vehicle_id: String, profile: usize },
    UnknownLocation { vehicle_id: String, location: usize },
    /// Two transit stops in a row, or a tour that starts with one.
    UnsupportedTransit { vehicle_id: String, stop_idx: usize },
    ArrivalMismatch { vehicle_id: String, stop_idx: usize, expected: i128, got: i64 },
    DistanceMismatch { vehicle_id: String, stop_idx: usize, expected: i128, got: i64 },
    /// A routing matrix shorter than its size says.
    MalformedMatrix { profile: usize },
    TourDistanceMismatch { vehicle_id: String, expected: i128, got: i64 },
    TourDurationMismatch { vehicle_id: String, expected: i128, got: i64 },
    SolutionStatisticMismatch { expected_distance: i128, expected_duration: i128, got: Statistic },
}

pub open spec fn differs(a: int, b: int) -> bool {
    a - b > 1 || b - a > 1
}

/// Distance and duration from one location index to another.
pub open spec fn matrix_data(ctx: CheckerContext, profile: usize, from: usize, to: usize, vid: String) -> Result<(i64, i64), RoutingError> {
    let ms = ctx.matrices.unwrap()@;
    if profile >= ms.len() {
        Err(RoutingError::UnknownProfile { vehicle_id: vid, profile })
    } else {
        let m = ms[profile as int];
        let idx: int = from as int * m.size as int + to as int;
        if from >= m.size {
            Err(RoutingError::UnknownLocation { vehicle_id: vid, location: from })
        } else if to >= m.size {
            Err(RoutingError::UnknownLocation { vehicle_id: vid, location: to })
        } else if idx >= m.distances@.len() || idx >= m.durations@.len() {
            Err(RoutingError::MalformedMatrix { profile })
        } else {
            Ok((m.distances@[idx], m.durations@[idx]))
        }
    }
}

fn get_matrix_data(ctx: &CheckerContext, profile: usize, from: usize, to: usize, vid: &String) -> (r: Result<(i64, i64), RoutingError>)
    requires
        ctx.matrices is Some,
    ensures
        r == matrix_data(*ctx, profile, from, to, *vid),
{
    let ms = match &ctx.matrices {
        Some(ms) => ms,
        None => {
            return Err(RoutingError::MalformedMatrix { profile });
        },
    };
    if profile >= ms.len() {
        return Err(RoutingError::UnknownProfile { vehicle_id: vid.clone(), profile });
    }
    let m = &ms[profile];
    if from >= m.size {
        return Err(RoutingError::UnknownLocation { vehicle_id: vid.clone(), location: from });
    }
    if to >= m.size {
        return Err(RoutingError::UnknownLocation { vehicle_id: vid.clone(), location: to });
    }
    let dist_len = m.distances.len();
    let dur_len = m.durations.len();
    let a = match from.checked_mul(m.size) {
        Some(a) => a,
        None => {
            proof {
                assert(from * m.size + to >= from * m.size) by (nonlinear_arith);
            }
            return Err(RoutingError::MalformedMatrix { profile });
        },
    };
    let i = match a.checked_add(to) {
        Some(i) => i,
        None => {
            return Err(RoutingError::MalformedMatrix { profile });
        },
    };
    if i < dist_len && i < dur_len {
        Ok((m.distances[i], m.durations[i]))
    } else {
        Err(RoutingError::MalformedMatrix { profile })
    }
}

/// The mismatches at a stop: arrival time, then (unless skipped) distance.
pub open spec fn stop_errors(arrival: int, total_distance: int, schedule: Schedule, distance: i64, stop_idx: usize, vid: String, skip: bool) -> Seq<RoutingError> {
    (if differs(arrival, schedule.arrival as int) {
        seq![RoutingError::ArrivalMismatch { vehicle_id: vid, stop_idx, expected: arrival as i128, got: schedule.arrival }]
    } else {
        Seq::empty()
    }) + (if !skip && differs(total_distance, distance as int) {
        seq![RoutingError::DistanceMismatch { vehicle_id: vid, stop_idx, expected: total_distance as i128, got: distance }]
    } else {
        Seq::empty()
    })
}

/// Distance, duration and recorded distance of the leg from stop `k` to stop `k + 1`,
/// where `dist` is the recorded distance at stop `k`.
pub open spec fn leg_data(ctx: CheckerContext, tour: Tour, k: int, dist: i64) -> Result<(int, int, i64), RoutingError> {
    let vid = tour.vehicle_id;
    match tour.stops@[k + 1] {
        Stop::Transit(t) => Ok((0, t.time.departure - t.time.arrival, dist)),
        Stop::Point(tp) => {
            let from = if let Stop::Point(fp) = tour.stops@[k] {
                Some(fp)
            } else if k > 0 {
                if let Stop::Point(fp) = tour.stops@[k - 1] { Some(fp) } else { None }
            } else {
                None
            };
            match from {
                None => Err(RoutingError::UnsupportedTransit { vehicle_id: vid, stop_idx: k as usize }),
                Some(fp) => match matrix_data(ctx, tour.profile, fp.location, tp.location, vid) {
                    Ok((d, u)) => Ok((d as int, u as int, tp.distance)),
                    Err(e) => Err(e),
                },
            }
        },
    }
}

/// Replays the legs of a tour from stop `k` on, given the departure time and
/// recorded distance at stop `k`: the mismatches found at the stops, and the
/// departure time and recorded distance at the last stop, or `None` where a leg
/// cannot be looked up (its error ends the list).
pub open spec fn legs_from(ctx: CheckerContext, tour: Tour, skip: bool, k: int, dep: i64, dist: i64) -> (Seq<RoutingError>, Option<(i64, i64)>)
    decreases tour.stops@.len() - k,
{
    if k < 0 || k + 1 >= tour.stops@.len() {
        (Seq::empty(), Some((dep, dist)))
    } else {
        match leg_data(ctx, tour, k, dist) {
            Err(e) => (seq![e], None),
            Ok((d, u, to_dist)) => {
                let sched = tour.stops@[k + 1].schedule_spec();
                let here = stop_errors(dep + u, dist + d, sched, to_dist, (k + 1) as usize, tour.vehicle_id, skip);
                let rest = legs_from(ctx, tour, skip, k + 1, sched.departure, to_dist);
                (here + rest.0, rest.1)
            },
        }
    }
}

/// Time spent on a dispatch activity at the tour's start, if it has one.
pub open spec fn dispatch_correction(tour: Tour) -> int {
    if tour.stops@.len() == 0 {
        0
    } else {
        let acts = tour.stops@[0].activities_spec();
        if acts.len() > 1 && acts[1].activity_type == ActivityType::Dispatch {
            match acts[1].time {
                Some(i) => i.end - i.start,
                None => 0,
            }
        } else {
            0
        }
    }
}

/// The mismatches of a tour's statistic: distance (unless skipped), then duration.
pub open spec fn tour_statistic_errors(dep: int, dist: int, offset: int, tour: Tour, skip: bool) -> Seq<RoutingError> {
    let total_duration = dep - offset + dispatch_correction(tour);
    (if !skip && differs(dist, tour.statistic.distance as int) {
        seq![RoutingError::TourDistanceMismatch { vehicle_id: tour.vehicle_id, expected: dist as i128, got: tour.statistic.distance }]
    } else {
        Seq::empty()
    }) + (if differs(total_duration, tour.statistic.duration as int) {
        seq![RoutingError::TourDurationMismatch { vehicle_id: tour.vehicle_id, expected: total_duration as i128, got: tour.statistic.duration }]
    } else {
        Seq::empty()
    })
}

/// Every mismatch of one tour: an unknown profile or an empty tour stops the
/// check of that tour; else the stops' mismatches, then the statistic's.
pub open spec fn tour_errors(ctx: CheckerContext, tour: Tour, skip: bool) -> Seq<RoutingError> {
    if tour.profile >= ctx.matrices.unwrap()@.len() {
        seq![RoutingError::UnknownProfile { vehicle_id: tour.vehicle_id, profile: tour.profile }]
    } else if tour.stops@.len() == 0 {
        seq![RoutingError::EmptyTour { vehicle_id: tour.vehicle_id }]
    } else {
        let offset = tour.stops@[0].schedule_spec().departure;
        let legs = legs_from(ctx, tour, skip, 0, offset, 0);
        legs.0 + match legs.1 {
            Some((dep, dist)) => tour_statistic_errors(dep as int, dist as int, offset as int, tour, skip),
            None => Seq::empty(),
        }
    }
}

/// Whether every point stop of the solution records a zero distance, in which
/// case the solution carries no distance data to check.
pub open spec fn skip_distance(sol: Solution) -> bool {
    forall|i: int, j: int|
        0 <= i < sol.tours@.len() && 0 <= j < sol.tours@[i].stops@.len() ==> match #[trigger] sol.tours@[i].stops@[j] {
            Stop::Point(p) => p.distance == 0,
            Stop::Transit(_) => true,
        }
}

pub open spec fn sum_distance(tours: Seq<Tour>) -> int
    decreases tours.len(),
{
    if tours.len() == 0 { 0 } else { sum_distance(tours.drop_last()) + tours.last().statistic.distance }
}

pub open spec fn sum_duration(tours: Seq<Tour>) -> int
    decreases tours.len(),
{
    if tours.len() == 0 { 0 } else { sum_duration(tours.drop_last()) + tours.last().statistic.duration }
}

pub open spec fn solution_statistic_errors(sol: Solution) -> Seq<RoutingError> {
    let d = sum_distance(sol.tours@);
    let u = sum_duration(sol.tours@);
    if u != sol.statistic.duration || d != sol.statistic.distance {
        seq![RoutingError::SolutionStatisticMismatch { expected_distance: d as i128, expected_duration: u as i128, got: sol.statistic }]
    } else {
        Seq::empty()
    }
}

/// The mismatches of tours `0..n`, tour after tour.
pub open spec fn tours_errors(ctx: CheckerContext, skip: bool, n: int) -> Seq<RoutingError>
    decreases n,
{
    if n <= 0 { Seq::empty() } else { tours_errors(ctx, skip, n - 1) + tour_errors(ctx, ctx.solution.tours@[n - 1], skip) }
}

/// Every mismatch of the routing check: none without matrices, else those of
/// each tour in turn, then the solution statistic's.
pub open spec fn routing_errors(ctx: CheckerContext) -> Seq<RoutingError> {
    match ctx.matrices {
        None => Seq::empty(),
        Some(ms) => if ms@.len() == 0 {
            Seq::empty()
        } else {
            tours_errors(ctx, skip_distance(ctx.solution), ctx.solution.tours@.len() as int)
                + solution_statistic_errors(ctx.solution)
        },
    }
}

pub open spec fn small(x: int) -> bool {
    -0x1_0000_0000_0000_0000_0000 < x < 0x1_0000_0000_0000_0000_0000
}

fn check_stop_statistic(
    arrival_time: i128,
    total_distance: i128,
    schedule: Schedule,
    distance: i64,
    stop_idx: usize,
    vehicle_id: &String,
    skip_distance_check: bool,
    errors: &mut Vec<RoutingError>,
)
    requires
        small(arrival_time as int),
        small(total_distance as int),
    ensures
        final(errors)@ == old(errors)@ + stop_errors(arrival_time as int, total_distance as int, schedule, distance, stop_idx, *vehicle_id, skip_distance_check),
{
    let ghost e0 = errors@;
    let dt = arrival_time - schedule.arrival as i128;
    if dt > 1 || dt < -1 {
        errors.push(RoutingError::ArrivalMismatch {
            vehicle_id: vehicle_id.clone(),
            stop_idx,
            expected: arrival_time,
            got: schedule.arrival,
        });
    }
    let dd = total_distance - distance as i128;
    if !skip_distance_check && (dd > 1 || dd < -1) {
        errors.push(RoutingError::DistanceMismatch {
            vehicle_id: vehicle_id.clone(),
            stop_idx,
            expected: total_distance,
            got: distance,
        });
    }
    assert(errors@ =~= e0 + stop_errors(arrival_time as int, total_distance as int, schedule, distance, stop_idx, *vehicle_id, skip_distance_check));
}

fn check_tour_statistic(
    departure_time: i64,
    total_distance: i64,
    time_offset: i64,
    tour: &Tour,
    skip_distance_check: bool,
    errors: &mut Vec<RoutingError>,
)
    ensures
        final(errors)@ == old(errors)@ + tour_statistic_errors(departure_time as int, total_distance as int, time_offset as int, *tour, skip_distance_check),
{
    let ghost e0 = errors@;
    let dd = total_distance as i128 - tour.statistic.distance as i128;
    if !skip_distance_check && (dd > 1 || dd < -1) {
        errors.push(RoutingError::TourDistanceMismatch {
            vehicle_id: tour.vehicle_id.clone(),
            expected: total_distance as i128,
            got: tour.statistic.distance,
        });
    }
    let mut correction: i128 = 0;
    if tour.stops.len() > 0 {
        let activities = match &tour.stops[0] {
            Stop::Point(p) => &p.activities,
            Stop::Transit(t) => &t.activities,
        };
        if activities.len() > 1 && activities[1].activity_type == ActivityType::Dispatch {
            if let Some(i) = activities[1].time {
                correction = i.end as i128 - i.start as i128;
            }
        }
    }
    let total_duration = departure_time as i128 - time_offset as i128 + correction;
    let du = total_duration - tour.statistic.duration as i128;
    if du > 1 || du < -1 {
        errors.push(RoutingError::TourDurationMismatch {
            vehicle_id: tour.vehicle_id.clone(),
            expected: total_duration,
            got: tour.statistic.duration,
        });
    }
    assert(errors@ =~= e0 + tour_statistic_errors(departure_time as int, total_distance as int, time_offset as int, *tour, skip_distance_check));
}

/// Distance, duration and recorded distance of the leg from stop `k` to `k + 1`.
fn leg(ctx: &CheckerContext, tour: &Tour, k: usize, dist: i64) -> (r: Result<(i128, i128, i64), RoutingError>)
    requires
        ctx.matrices is Some,
        k + 1 < tour.stops@.len(),
    ensures
        match (r, leg_data(*ctx, *tour, k as int, dist)) {
            (Ok((d, u, t)), Ok((sd, su, st))) => d == sd && u == su && t == st && small(d as int) && small(u as int),
            (Err(e), Err(se)) => e == se,
            _ => false,
        },
{
    let n = tour.stops.len();
    match &tour.stops[k + 1] {
        Stop::Transit(t) => Ok((0, t.time.departure as i128 - t.time.arrival as i128, dist)),
        Stop::Point(tp) => {
            let from_loc: usize = match &tour.stops[k] {
                Stop::Point(fp) => fp.location,
                Stop::Transit(_) => {
                    if k == 0 {
                        return Err(RoutingError::UnsupportedTransit { vehicle_id: tour.vehicle_id.clone(), stop_idx: k });
                    }
                    match &tour.stops[k - 1] {
                        Stop::Point(fp) => fp.location,
                        Stop::Transit(_) => {
                            return Err(RoutingError::UnsupportedTransit { vehicle_id: tour.vehicle_id.clone(), stop_idx: k });
                        },
                    }
                },
            };
            match get_matrix_data(ctx, tour.profile, from_loc, tp.location, &tour.vehicle_id) {
                Ok((d, u)) => Ok((d as i128, u as i128, tp.distance)),
                Err(e) => Err(e),
            }
        },
    }
}

/// Replays one tour against the routing matrices, adding its mismatches.
fn check_tour(ctx: &CheckerContext, tour: &Tour, skip_distance_check: bool, errors: &mut Vec<RoutingError>)
    requires
        ctx.matrices is Some,
    ensures
        final(errors)@ == old(errors)@ + tour_errors(*ctx, *tour, skip_distance_check),
{
    let ghost base = errors@;
    let n_profiles = match &ctx.matrices {
        Some(ms) => ms.len(),
        None => 0,
    };
    if tour.profile >= n_profiles {
        errors.push(RoutingError::UnknownProfile { vehicle_id: tour.vehicle_id.clone(), profile: tour.profile });
        return;
    }
    let n = tour.stops.len();
    if n == 0 {
        errors.push(RoutingError::EmptyTour { vehicle_id: tour.vehicle_id.clone() });
        return;
    }
    let time_offset = tour.stops[0].schedule().departure;
    let ghost full = legs_from(*ctx, *tour, skip_distance_check, 0, time_offset, 0);
    let mut dep: i64 = time_offset;
    let mut dist: i64 = 0;
    let mut k: usize = 0;
    while k + 1 < n
        invariant
            n == tour.stops@.len(),
            ctx.matrices is Some,
            tour.profile < ctx.matrices.unwrap()@.len(),
            base == old(errors)@,
            time_offset == tour.stops@[0].schedule_spec().departure,
            k < n,
            full == legs_from(*ctx, *tour, skip_distance_check, 0, time_offset, 0),
            base + full.0 == errors@ + legs_from(*ctx, *tour, skip_distance_check, k as int, dep, dist).0,
            full.1 == legs_from(*ctx, *tour, skip_distance_check, k as int, dep, dist).1,
        decreases n - k,
    {
        let ghost cur = legs_from(*ctx, *tour, skip_distance_check, k as int, dep, dist);
        let ghost e1 = errors@;
        let (d, u, to_dist) = match leg(ctx, tour, k, dist) {
            Ok(x) => x,
            Err(e) => {
                errors.push(e);
                assert(cur.1 is None);
                assert(errors@ =~= e1 + cur.0);
                assert(errors@ == base + full.0);
                assert(tour_errors(*ctx, *tour, skip_distance_check) == full.0 + Seq::<RoutingError>::empty());
                assert(full.0 + Seq::<RoutingError>::empty() =~= full.0);
                return;
            },
        };
        let sched = tour.stops[k + 1].schedule();
        check_stop_statistic(dep as i128 + u, dist as i128 + d, sched, to_dist, k + 1, &tour.vehicle_id, skip_distance_check, errors);
        let ghost here = stop_errors(dep as i128 + u, dist as i128 + d, sched, to_dist, (k + 1) as usize, tour.vehicle_id, skip_distance_check);
        dep = sched.departure;
        dist = to_dist;
        k = k + 1;
        let ghost next = legs_from(*ctx, *tour, skip_distance_check, k as int, dep, dist);
        assert(cur.0 == here + next.0);
        assert(errors@ == e1 + here);
        assert(e1 + (here + next.0) == (e1 + here) + next.0);
    }
    assert(legs_from(*ctx, *tour, skip_distance_check, k as int, dep, dist).0 == Seq::<RoutingError>::empty());
    assert(errors@ + Seq::<RoutingError>::empty() == errors@);
    let ghost e2 = errors@;
    check_tour_statistic(dep, dist, time_offset, tour, skip_distance_check, errors);
    assert(base + (full.0 + tour_statistic_errors(dep as int, dist as int, time_offset as int, *tour, skip_distance_check))
        == (base + full.0) + tour_statistic_errors(dep as int, dist as int, time_offset as int, *tour, skip_distance_check));
}

fn check_solution_statistic(solution: &Solution, errors: &mut Vec<RoutingError>)
    ensures
        final(errors)@ == old(errors)@ + solution_statistic_errors(*solution),
{
    let ghost e0 = errors@;
    let mut distance: i128 = 0;
    let mut duration: i128 = 0;
    let mut i: usize = 0;
    while i < solution.tours.len()
        invariant
            i <= solution.tours@.len(),
            distance == sum_distance(solution.tours@.subrange(0, i as int)),
            duration == sum_duration(solution.tours@.subrange(0, i as int)),
            -(i as int) * 0x8000_0000_0000_0000 <= distance <= (i as int) * 0x8000_0000_0000_0000,
            -(i as int) * 0x8000_0000_0000_0000 <= duration <= (i as int) * 0x8000_0000_0000_0000,
        decreases solution.tours@.len() - i,
    {
        let ghost prefix = solution.tours@.subrange(0, i as int + 1);
        assert(prefix.drop_last() == solution.tours@.subrange(0, i as int));
        distance = distance + solution.tours[i].statistic.distance as i128;
        duration = duration + solution.tours[i].statistic.duration as i128;
        i = i + 1;
    }
    assert(solution.tours@.subrange(0, i as int) == solution.tours@);
    if duration != solution.statistic.duration as i128 || distance != solution.statistic.distance as i128 {
        errors.push(RoutingError::SolutionStatisticMismatch { expected_distance: distance, expected_duration: duration, got: solution.statistic });
    } else {
        assert(errors@ =~= e0 + Seq::<RoutingError>::empty());
    }
}

/// Whether every point stop of the solution records a zero distance.
fn skip_distance_check(solution: &Solution) -> (r: bool)
    ensures
        r == skip_distance(*solution),
{
    let mut i: usize = 0;
    while i < solution.tours.len()
        invariant
            i <= solution.tours@.len(),
            forall|a: int, j: int|
                0 <= a < i && 0 <= j < solution.tours@[a].stops@.len() ==> match #[trigger] solution.tours@[a].stops@[j] {
                    Stop::Point(p) => p.distance == 0,
                    Stop::Transit(_) => true,
                },
        decreases solution.tours@.len() - i,
    {
        let stops = &solution.tours[i].stops;
        let mut j: usize = 0;
        while j < stops.len()
            invariant
                i < solution.tours@.len(),
                *stops == solution.tours@[i as int].stops,
                j <= stops@.len(),
                forall|a: int, b: int|
                    0 <= a < i && 0 <= b < solution.tours@[a].stops@.len() ==> match #[trigger] solution.tours@[a].stops@[b] {
                        Stop::Point(p) => p.distance == 0,
                        Stop::Transit(_) => true,
                    },
                forall|b: int|
                    0 <= b < j ==> match #[trigger] stops@[b] {
                        Stop::Point(p) => p.distance == 0,
                        Stop::Transit(_) => true,
                    },
            decreases stops@.len() - j,
        {
            if let Stop::Point(p) = &stops[j] {
                if p.distance != 0 {
                    return false;
                }
            }
            j = j + 1;
        }
        i = i + 1;
    }
    true
}

fn check_routing_rules(context: &CheckerContext) -> (r: Vec<RoutingError>)
    ensures
        r@ == routing_errors(*context),
{
    let mut errors: Vec<RoutingError> = Vec::new();
    match &context.matrices {
        None => {
            return errors;
        },
        Some(ms) => {
            if ms.len() == 0 {
                return errors;
            }
        },
    }
    let skip = skip_distance_check(&context.solution);
    let tours = &context.solution.tours;
    let mut i: usize = 0;
    while i < tours.len()
        invariant
            context.matrices is Some,
            *tours == context.solution.tours,
            i <= tours@.len(),
            errors@ == tours_errors(*context, skip, i as int),
        decreases tours@.len() - i,
    {
        check_tour(context, &tours[i], skip, &mut errors);
        i = i + 1;
    }
    check_solution_statistic(&context.solution, &mut errors);
    errors
}

/// Checks that the recorded arrival times, distances and durations of every tour
/// agree with the routing matrices, within one unit, and that the solution's
/// statistic is the sum of its tours'. Reports every mismatch found.
pub fn check_routing(context: &CheckerContext) -> (r: Result<(), Vec<RoutingError>>)
    ensures
        routing_errors(*context).len() == 0 ==> r is Ok,
        routing_errors(*context).len() > 0 ==> r is Err && r->Err_0@ == routing_errors(*context),
{
    let errors = check_routing_rules(context);
    if errors.len() == 0 {
        Ok(())
    } else {
        Err(errors)
    }
}

} // verus!
