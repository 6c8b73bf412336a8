use vrp_core::checker::{
    check_routing, ActivityType, CheckerContext, Interval, PointStop, RoutingError, RoutingMatrix, Schedule, Solution,
    Statistic, Stop, StopActivity, Tour, TransitStop,
};

fn matrix() -> RoutingMatrix {
    // locations 0, 1, 2; distance 10 * |a - b|, duration 5 * |a - b|
    let mut distances = Vec::new();
    let mut durations = Vec::new();
    for a in 0..3i64 {
        for b in 0..3i64 {
            distances.push(10 * (a - b).abs());
            durations.push(5 * (a - b).abs());
        }
    }
    RoutingMatrix { size: 3, distances, durations }
}

fn point(location: usize, distance: i64, arrival: i64, departure: i64) -> Stop {
    Stop::Point(PointStop {
        location,
        distance,
        schedule: Schedule { arrival, departure },
        activities: vec![StopActivity { activity_type: ActivityType::Pickup, time: None }],
    })
}

fn good_tour() -> Tour {
    Tour {
        vehicle_id: "v1".to_string(),
        profile: 0,
        stops: vec![point(0, 0, 0, 0), point(1, 10, 5, 7), point(2, 20, 12, 12)],
        statistic: Statistic { distance: 20, duration: 12 },
    }
}

fn context(tours: Vec<Tour>) -> CheckerContext {
    let distance = tours.iter().map(|t| t.statistic.distance).sum();
    let duration = tours.iter().map(|t| t.statistic.duration).sum();
    CheckerContext { matrices: Some(vec![matrix()]), solution: Solution { statistic: Statistic { distance, duration }, tours } }
}

#[test]
fn consistent_tour_passes() {
    assert_eq!(check_routing(&context(vec![good_tour()])), Ok(()));
}

#[test]
fn no_matrices_means_nothing_to_check() {
    let mut ctx = context(vec![good_tour()]);
    ctx.solution.tours[0].statistic.distance = 999;
    ctx.matrices = None;
    assert_eq!(check_routing(&ctx), Ok(()));
    ctx.matrices = Some(vec![]);
    assert_eq!(check_routing(&ctx), Ok(()));
}

#[test]
fn arrival_within_one_unit_passes_and_beyond_fails() {
    let mut tour = good_tour();
    tour.stops[1] = point(1, 10, 6, 7);
    assert_eq!(check_routing(&context(vec![tour])), Ok(()));
    let mut tour = good_tour();
    tour.stops[1] = point(1, 10, 8, 8);
    tour.stops[2] = point(2, 20, 13, 13);
    tour.statistic.duration = 13;
    assert_eq!(
        check_routing(&context(vec![tour])),
        Err(vec![RoutingError::ArrivalMismatch { vehicle_id: "v1".to_string(), stop_idx: 1, expected: 5, got: 8 }])
    );
}

#[test]
fn distance_mismatch_is_reported() {
    let mut tour = good_tour();
    tour.stops[2] = point(2, 25, 12, 12);
    tour.statistic.distance = 25;
    assert_eq!(
        check_routing(&context(vec![tour])),
        Err(vec![RoutingError::DistanceMismatch { vehicle_id: "v1".to_string(), stop_idx: 2, expected: 20, got: 25 }])
    );
}

#[test]
fn zero_distances_skip_distance_checks() {
    let mut tour = good_tour();
    tour.stops = vec![point(0, 0, 0, 0), point(1, 0, 5, 7), point(2, 0, 12, 12)];
    tour.statistic.distance = 0;
    assert_eq!(check_routing(&context(vec![tour])), Ok(()));
}

#[test]
fn tour_statistics_are_checked() {
    let mut tour = good_tour();
    tour.statistic.distance = 30;
    assert_eq!(
        check_routing(&context(vec![tour])),
        Err(vec![RoutingError::TourDistanceMismatch { vehicle_id: "v1".to_string(), expected: 20, got: 30 }])
    );
    let mut tour = good_tour();
    tour.statistic.duration = 20;
    assert_eq!(
        check_routing(&context(vec![tour])),
        Err(vec![RoutingError::TourDurationMismatch { vehicle_id: "v1".to_string(), expected: 12, got: 20 }])
    );
}

#[test]
fn dispatch_at_start_counts_in_duration() {
    let mut tour = good_tour();
    if let Stop::Point(first) = &mut tour.stops[0] {
        first.activities = vec![
            StopActivity { activity_type: ActivityType::Departure, time: None },
            StopActivity { activity_type: ActivityType::Dispatch, time: Some(Interval { start: 0, end: 3 }) },
        ];
    }
    tour.statistic.duration = 15;
    assert_eq!(check_routing(&context(vec![tour])), Ok(()));
}

#[test]
fn transit_stop_adds_its_time() {
    let tour = Tour {
        vehicle_id: "v2".to_string(),
        profile: 0,
        stops: vec![
            point(0, 0, 0, 0),
            Stop::Transit(TransitStop { time: Schedule { arrival: 10, departure: 20 }, activities: vec![] }),
            point(1, 10, 25, 25),
        ],
        statistic: Statistic { distance: 10, duration: 25 },
    };
    assert_eq!(check_routing(&context(vec![tour])), Ok(()));
}

#[test]
fn solution_statistic_must_be_sum_of_tours() {
    let mut ctx = context(vec![good_tour(), good_tour()]);
    ctx.solution.statistic.distance = 41;
    assert_eq!(
        check_routing(&ctx),
        Err(vec![RoutingError::SolutionStatisticMismatch {
            expected_distance: 40,
            expected_duration: 24,
            got: Statistic { distance: 41, duration: 24 },
        }])
    );
}

#[test]
fn broken_tours_are_reported() {
    let mut tour = good_tour();
    tour.stops.clear();
    assert_eq!(check_routing(&context(vec![tour])), Err(vec![RoutingError::EmptyTour { vehicle_id: "v1".to_string() }]));
    let mut tour = good_tour();
    tour.profile = 4;
    assert_eq!(
        check_routing(&context(vec![tour])),
        Err(vec![RoutingError::UnknownProfile { vehicle_id: "v1".to_string(), profile: 4 }])
    );
    let mut tour = good_tour();
    tour.stops[2] = point(9, 20, 12, 12);
    assert_eq!(
        check_routing(&context(vec![tour])),
        Err(vec![RoutingError::UnknownLocation { vehicle_id: "v1".to_string(), location: 9 }])
    );
    let mut tour = good_tour();
    tour.stops[0] = Stop::Transit(TransitStop { time: Schedule { arrival: 0, departure: 0 }, activities: vec![] });
    assert_eq!(
        check_routing(&context(vec![tour])),
        Err(vec![RoutingError::UnsupportedTransit { vehicle_id: "v1".to_string(), stop_idx: 0 }])
    );
    let mut ctx = context(vec![good_tour()]);
    ctx.matrices = Some(vec![RoutingMatrix { size: 3, distances: vec![0; 1], durations: vec![0; 9] }]);
    assert_eq!(check_routing(&ctx), Err(vec![RoutingError::MalformedMatrix { profile: 0 }]));
}

#[test]
fn every_mismatch_is_reported() {
    let a = Tour {
        vehicle_id: "v1".to_string(),
        profile: 0,
        stops: vec![point(0, 0, 0, 0), point(1, 10, 9, 9), point(2, 25, 14, 14)],
        statistic: Statistic { distance: 25, duration: 30 },
    };
    let b = Tour {
        vehicle_id: "v2".to_string(),
        profile: 7,
        stops: vec![point(0, 0, 0, 0)],
        statistic: Statistic { distance: 0, duration: 0 },
    };
    let ctx = CheckerContext {
        matrices: Some(vec![matrix()]),
        solution: Solution { statistic: Statistic { distance: 1, duration: 1 }, tours: vec![a, b] },
    };
    assert_eq!(
        check_routing(&ctx),
        Err(vec![
            RoutingError::ArrivalMismatch { vehicle_id: "v1".to_string(), stop_idx: 1, expected: 5, got: 9 },
            RoutingError::DistanceMismatch { vehicle_id: "v1".to_string(), stop_idx: 2, expected: 20, got: 25 },
            RoutingError::TourDurationMismatch { vehicle_id: "v1".to_string(), expected: 14, got: 30 },
            RoutingError::UnknownProfile { vehicle_id: "v2".to_string(), profile: 7 },
            RoutingError::SolutionStatisticMismatch {
                expected_distance: 25,
                expected_duration: 30,
                got: Statistic { distance: 1, duration: 1 },
            },
        ])
    );
}

#[test]
fn unknown_profile_fails_tour_without_legs() {
    let tour = Tour {
        vehicle_id: "v3".to_string(),
        profile: 2,
        stops: vec![point(0, 0, 0, 0)],
        statistic: Statistic { distance: 0, duration: 0 },
    };
    assert_eq!(
        check_routing(&context(vec![tour])),
        Err(vec![RoutingError::UnknownProfile { vehicle_id: "v3".to_string(), profile: 2 }])
    );
    let ok = Tour { profile: 0, ..good_tour() };
    let mut one_stop = ok.clone();
    one_stop.stops.truncate(1);
    one_stop.statistic = Statistic { distance: 0, duration: 0 };
    assert_eq!(check_routing(&context(vec![one_stop])), Ok(()));
}
