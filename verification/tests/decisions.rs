//! Decisions on given measurements.
use route_deviation::binary64::Binary64;
use route_deviation::deviation_detection::{
    RouteDeviation, RouteDeviationDetector, RouteDeviationTracking, StepReport,
    DEVIATION_STEP_WINDOW,
};
use route_deviation::models::{
    CourseOverGround, GeographicCoordinate, Route, RouteStep, Speed, Timestamp, TripState,
    UserLocation,
};
use std::sync::Arc;

struct Unreachable {}

impl RouteDeviationDetector for Unreachable {
    fn check_route_deviation(&self, _route: Route, _trip_state: TripState) -> RouteDeviation {
        unreachable!()
    }
}

type Tracking = RouteDeviationTracking<Unreachable>;

fn wrap(x: f64) -> Binary64 {
    Binary64 { bits: x.to_bits() }
}

fn off(x: f64) -> RouteDeviation {
    RouteDeviation::OffRoute { deviation_from_route_line: wrap(x) }
}

fn by_distance(max_acceptable_deviation: f64) -> Tracking {
    RouteDeviationTracking::StaticThreshold {
        minimum_horizontal_accuracy: 15,
        max_acceptable_deviation: wrap(max_acceptable_deviation),
    }
}

fn by_heading(max_acceptable_deviation: f64) -> Tracking {
    RouteDeviationTracking::StaticThresholdWithHeading {
        minimum_horizontal_accuracy: 15,
        max_acceptable_deviation: wrap(max_acceptable_deviation),
        max_heading_deviation_degrees: wrap(110.0),
        min_speed_for_heading_check: wrap(2.0),
    }
}

fn user(accuracy: f64, course: Option<u16>, speed: Option<f64>) -> UserLocation {
    UserLocation {
        coordinates: GeographicCoordinate { lat: wrap(47.5), lng: wrap(8.25) },
        horizontal_accuracy: wrap(accuracy),
        course_over_ground: course.map(|degrees| CourseOverGround { degrees, accuracy: None }),
        timestamp: Timestamp { seconds: 0, nanoseconds: 0 },
        speed: speed.map(|value| Speed { value: wrap(value), accuracy: None }),
        altitude: None,
        vertical_accuracy: None,
    }
}

fn step(points: usize) -> RouteStep {
    RouteStep { geometry: vec![GeographicCoordinate { lat: wrap(1.0), lng: wrap(2.0) }; points] }
}

fn route() -> Route {
    Route { geometry: Vec::new(), steps: Vec::new() }
}

fn report(deviation: Option<f64>, bearings: &[f64]) -> StepReport {
    StepReport {
        deviation: deviation.map(wrap),
        bearings: bearings.iter().map(|b| wrap(*b)).collect(),
    }
}

fn navigating(user_location: UserLocation, points: &[usize]) -> TripState {
    TripState::Navigating {
        user_location,
        remaining_steps: points.iter().map(|n| step(*n)).collect(),
        deviation: RouteDeviation::NoDeviation,
    }
}

/// Runs a check on steps with a segment each, at the given distances.
fn at_distances(tracking: &Tracking, distances: &[Option<f64>]) -> RouteDeviation {
    let trip_state = navigating(user(5.0, None, None), &vec![2; distances.len()]);
    let reports = distances.iter().map(|d| report(*d, &[])).collect();
    tracking.check_route_deviation(&route(), &trip_state, &reports)
}

/// Runs a check on one step at the given distance, with the given bearings nearby.
fn on_course(user_location: UserLocation, distance: f64, bearings: &[f64]) -> RouteDeviation {
    let trip_state = navigating(user_location, &[2]);
    by_heading(50.0).check_route_deviation(
        &route(),
        &trip_state,
        &vec![report(Some(distance), bearings)],
    )
}

#[test]
fn window_has_four_steps() {
    assert_eq!(DEVIATION_STEP_WINDOW, 4);
}

#[test]
fn only_idle_and_completed_trips_are_never_off_route() {
    let here = user(5.0, Some(270), Some(10.0));
    for tracking in [by_distance(0.0), by_heading(0.0)] {
        for trip_state in [
            TripState::Idle { user_location: None },
            TripState::Idle { user_location: Some(here) },
            TripState::Complete { user_location: here },
        ] {
            assert!(tracking.inquiry(&trip_state, 0).is_none());
            assert_eq!(
                tracking.check_route_deviation(&route(), &trip_state, &Vec::new()),
                RouteDeviation::NoDeviation
            );
        }
    }
    assert_eq!(at_distances(&by_distance(0.0), &[Some(0.25)]), off(0.25));
}

#[test]
fn off_route_means_beyond_the_threshold_of_every_step() {
    for tracking in [by_distance(50.0), by_heading(50.0)] {
        assert_eq!(at_distances(&tracking, &[Some(60.0), Some(55.5), Some(70.0)]), off(55.5));
        assert_eq!(
            at_distances(&tracking, &[Some(60.0), Some(49.5), Some(70.0)]),
            RouteDeviation::NoDeviation
        );
        assert_eq!(at_distances(&tracking, &[None, Some(51.0), None]), off(51.0));
        assert_eq!(at_distances(&tracking, &[None, None]), RouteDeviation::NoDeviation);
        assert_eq!(at_distances(&tracking, &[]), RouteDeviation::NoDeviation);
    }
}

#[test]
fn the_threshold_itself_is_acceptable() {
    for tracking in [by_distance(50.0), by_heading(50.0)] {
        assert_eq!(at_distances(&tracking, &[Some(50.0)]), RouteDeviation::NoDeviation);
        assert_eq!(at_distances(&tracking, &[Some(50.00000000000001)]), off(50.00000000000001));
    }
}

#[test]
fn a_user_on_the_line_is_on_route_unless_the_threshold_is_negative() {
    for max in [-0.0, 0.0, 5.0, f64::NAN] {
        for distance in [0.0, -0.0] {
            assert_eq!(
                at_distances(&by_distance(max), &[Some(90.0), Some(distance)]),
                RouteDeviation::NoDeviation
            );
        }
    }
    for tracking in [by_distance(-1.0), by_heading(-1.0)] {
        assert_eq!(at_distances(&tracking, &[Some(0.0)]), off(0.0));
        assert_eq!(at_distances(&tracking, &[Some(90.0), Some(-1.0)]), RouteDeviation::NoDeviation);
    }
}

#[test]
fn steps_beyond_the_window_are_not_inspected() {
    let far = [Some(60.0), Some(60.0), Some(60.0), Some(60.0), Some(0.0)];
    assert_eq!(at_distances(&by_distance(50.0), &far), off(60.0));
    let near = [Some(60.0), Some(60.0), Some(60.0), Some(0.0), Some(60.0)];
    assert_eq!(at_distances(&by_distance(50.0), &near), RouteDeviation::NoDeviation);
}

#[test]
fn steps_without_a_segment_are_not_inspected() {
    let trip_state = navigating(user(5.0, None, None), &[1, 0, 2]);
    let reports = vec![report(Some(0.0), &[]), report(Some(0.0), &[]), report(Some(75.0), &[])];
    let tracking = by_distance(50.0);
    assert_eq!(tracking.check_route_deviation(&route(), &trip_state, &reports), off(75.0));
    assert!(tracking.inquiry(&trip_state, 0).is_none());
    assert!(tracking.inquiry(&trip_state, 1).is_none());
    assert!(tracking.inquiry(&trip_state, 2).is_some());
    assert!(tracking.inquiry(&trip_state, 3).is_none());
}

#[test]
fn a_nan_distance_undercuts_nothing() {
    let tracking = by_distance(50.0);
    assert_eq!(at_distances(&tracking, &[Some(f64::NAN), Some(60.0)]), RouteDeviation::NoDeviation);
    assert_eq!(at_distances(&tracking, &[Some(60.0), Some(f64::NAN)]), off(60.0));
    assert_eq!(at_distances(&by_distance(f64::NAN), &[Some(60.0)]), RouteDeviation::NoDeviation);
}

#[test]
fn accuracy_at_the_minimum_is_enough() {
    for (accuracy, expected) in [
        (15.0, off(60.0)),
        (15.000000000000002, RouteDeviation::NoDeviation),
        (f64::INFINITY, RouteDeviation::NoDeviation),
        (f64::NAN, off(60.0)),
    ] {
        let trip_state = navigating(user(accuracy, None, None), &[2]);
        for tracking in [by_distance(50.0), by_heading(50.0)] {
            let reports = vec![report(Some(60.0), &[])];
            assert_eq!(tracking.check_route_deviation(&route(), &trip_state, &reports), expected);
            assert_eq!(
                tracking.inquiry(&trip_state, 0).is_some(),
                expected != RouteDeviation::NoDeviation
            );
        }
    }
}

#[test]
fn travel_against_every_segment_is_off_route() {
    let west = user(5.0, Some(270), Some(10.0));
    assert_eq!(on_course(west, 0.0, &[90.0]), off(1.0));
    assert_eq!(on_course(west, 12.5, &[90.0, 85.0]), off(12.5));
    assert_eq!(on_course(west, 60.0, &[]), off(60.0));
}

#[test]
fn alignment_with_any_segment_is_on_course() {
    for course in [90, 270] {
        let moving = user(5.0, Some(course), Some(10.0));
        assert_eq!(on_course(moving, 11.0, &[90.0, 270.0]), RouteDeviation::NoDeviation);
    }
    let west = user(5.0, Some(270), Some(10.0));
    assert_eq!(on_course(west, 0.0, &[]), RouteDeviation::NoDeviation);
    assert_eq!(on_course(west, 0.0, &[90.0, f64::NAN]), RouteDeviation::NoDeviation);
}

#[test]
fn bearings_of_all_window_steps_count() {
    let west = user(5.0, Some(270), Some(10.0));
    let tracking = by_heading(50.0);
    let against = || report(Some(3.0), &[90.0]);
    let along = || report(Some(3.0), &[-90.0]);
    let trip_state = navigating(west, &[2, 2, 2, 2, 2]);
    let reports = vec![against(), against(), against(), along(), against()];
    assert_eq!(
        tracking.check_route_deviation(&route(), &trip_state, &reports),
        RouteDeviation::NoDeviation
    );
    let reports = vec![against(), against(), against(), against(), along()];
    assert_eq!(tracking.check_route_deviation(&route(), &trip_state, &reports), off(3.0));
    let trip_state = navigating(west, &[2, 1]);
    let reports = vec![against(), along()];
    assert_eq!(tracking.check_route_deviation(&route(), &trip_state, &reports), off(3.0));
}

#[test]
fn the_heading_limit_itself_disagrees() {
    // 110 degrees from north, both ways, and just short of it.
    for (bearing, expected) in [
        (110.0, off(1.0)),
        (250.0, off(1.0)),
        (109.0, RouteDeviation::NoDeviation),
        (251.0, RouteDeviation::NoDeviation),
    ] {
        assert_eq!(on_course(user(5.0, Some(0), Some(10.0)), 0.5, &[bearing]), expected);
        assert_eq!(on_course(user(5.0, Some(360), Some(10.0)), 0.5, &[bearing]), expected);
    }
}

#[test]
fn a_heading_limit_beyond_half_a_turn_never_trips() {
    let tracking: Tracking = RouteDeviationTracking::StaticThresholdWithHeading {
        minimum_horizontal_accuracy: 15,
        max_acceptable_deviation: wrap(50.0),
        max_heading_deviation_degrees: wrap(180.00000000000003),
        min_speed_for_heading_check: wrap(2.0),
    };
    let trip_state = navigating(user(5.0, Some(270), Some(10.0)), &[2]);
    for bearing in [90.0, 89.99999999999999, 0.0, f64::INFINITY] {
        let reports = vec![report(Some(1.0), &[bearing])];
        assert_eq!(
            tracking.check_route_deviation(&route(), &trip_state, &reports),
            RouteDeviation::NoDeviation
        );
    }
}

#[test]
fn slow_travel_is_judged_by_distance() {
    assert_eq!(on_course(user(5.0, Some(270), Some(2.0)), 0.0, &[90.0]), off(1.0));
    for slow in [
        user(5.0, Some(270), Some(1.9999999999999998)),
        user(5.0, Some(270), None),
        user(5.0, Some(270), Some(f64::NAN)),
        user(5.0, None, Some(10.0)),
    ] {
        assert_eq!(on_course(slow, 0.0, &[90.0]), RouteDeviation::NoDeviation);
        assert_eq!(on_course(slow, 51.0, &[90.0]), off(51.0));
    }
}

#[test]
fn inquiries_carry_position_line_and_tolerance() {
    let trip_state = navigating(user(5.0, Some(270), Some(10.0)), &[2, 3]);
    let tracking = by_heading(50.0);
    let inquiry = tracking.inquiry(&trip_state, 1).unwrap();
    assert_eq!(inquiry.point.lat, wrap(47.5));
    assert_eq!(inquiry.point.lng, wrap(8.25));
    assert_eq!(inquiry.line.len(), 3);
    assert_eq!(inquiry.bearing_tolerance, Some(wrap(50.0)));
    assert_eq!(by_distance(50.0).inquiry(&trip_state, 1).unwrap().bearing_tolerance, None);
    let slow = navigating(user(5.0, Some(270), Some(1.0)), &[2]);
    assert_eq!(tracking.inquiry(&slow, 0).unwrap().bearing_tolerance, None);
    let disabled: Tracking = RouteDeviationTracking::Disabled;
    assert!(disabled.inquiry(&trip_state, 0).is_none());
    let custom = RouteDeviationTracking::Custom { detector: Arc::new(Unreachable {}) };
    assert!(custom.inquiry(&trip_state, 0).is_none());
}

#[test]
fn max_deviation_distance_is_the_configured_threshold() {
    assert_eq!(by_distance(12.5).max_deviation_distance(), Some(wrap(12.5)));
    assert_eq!(by_heading(50.0).max_deviation_distance(), Some(wrap(50.0)));
    let disabled: Tracking = RouteDeviationTracking::Disabled;
    assert_eq!(disabled.max_deviation_distance(), None);
    let custom = RouteDeviationTracking::Custom { detector: Arc::new(Unreachable {}) };
    assert_eq!(custom.max_deviation_distance(), None);
    assert_eq!(by_heading(50.0).clone().max_deviation_distance(), Some(wrap(50.0)));
}

#[test]
fn minimum_deviation_is_taken_over_the_window() {
    let steps: Vec<RouteStep> = [2, 1, 2, 2, 2].iter().map(|n| step(*n)).collect();
    let reports: Vec<StepReport> = [Some(8.0), Some(1.0), None, Some(4.0), Some(2.0)]
        .iter()
        .map(|d| report(*d, &[]))
        .collect();
    assert_eq!(Tracking::min_deviation_over_step_window(&steps, &reports), Some(wrap(4.0)));
    assert_eq!(Tracking::min_deviation_over_step_window(&Vec::new(), &Vec::new()), None);
}

#[test]
fn deviations_compare_as_numbers_do() {
    assert_eq!(off(0.0), off(-0.0));
    assert_ne!(off(f64::NAN), off(f64::NAN));
    assert_ne!(off(0.0), RouteDeviation::NoDeviation);
}
