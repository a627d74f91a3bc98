//! Deviation checks on routes, with the geometry measured on the sphere.
use geo::{Bearing, Closest, Coord, Distance, Haversine, HaversineClosestPoint, LineString, Point};
use route_deviation::binary64::Binary64;
use route_deviation::deviation_detection::{
    RouteDeviation, RouteDeviationDetector, RouteDeviationTracking, StepReport,
    DEVIATION_STEP_WINDOW,
};
use route_deviation::models::{
    CourseOverGround, GeographicCoordinate, Route, RouteStep, Speed, Timestamp, TripState,
    UserLocation,
};
use std::sync::Arc;
use std::time::{SystemTime, UNIX_EPOCH};

fn wrap(x: f64) -> Binary64 {
    Binary64 { bits: x.to_bits() }
}

fn unwrap(x: Binary64) -> f64 {
    f64::from_bits(x.bits)
}

fn coordinate(lng: f64, lat: f64) -> GeographicCoordinate {
    GeographicCoordinate { lat: wrap(lat), lng: wrap(lng) }
}

fn point(c: &GeographicCoordinate) -> Point {
    Point::new(unwrap(c.lng), unwrap(c.lat))
}

fn line_string(line: &Vec<GeographicCoordinate>) -> LineString {
    LineString::new(line.iter().map(|c| Coord { x: unwrap(c.lng), y: unwrap(c.lat) }).collect())
}

fn deviation_from_line(point: &Point, line: &LineString) -> Option<f64> {
    let snapped = match line.haversine_closest_point(point) {
        Closest::Intersection(snapped) | Closest::SinglePoint(snapped) => snapped,
        Closest::Indeterminate => return None,
    };
    let distance = Haversine.distance(snapped, *point);
    if distance.is_finite() {
        Some(distance)
    } else {
        None
    }
}

fn segment_bearings_within(point: &Point, line: &LineString, tolerance: f64) -> Vec<f64> {
    line.lines()
        .filter(|segment| segment.start != segment.end)
        .filter(|segment| {
            let segment = LineString::new(vec![segment.start, segment.end]);
            deviation_from_line(point, &segment).is_some_and(|d| d <= tolerance)
        })
        .map(|segment| Haversine.bearing(segment.start_point(), segment.end_point()))
        .collect()
}

/// Answers what the check asks and runs it.
fn check<D: RouteDeviationDetector>(
    tracking: &RouteDeviationTracking<D>,
    route: &Route,
    trip_state: &TripState,
) -> RouteDeviation {
    let reports: Vec<StepReport> = (0..DEVIATION_STEP_WINDOW)
        .map(|i| match tracking.inquiry(trip_state, i) {
            Some(inquiry) => {
                let user = point(&inquiry.point);
                let line = line_string(inquiry.line);
                StepReport {
                    deviation: deviation_from_line(&user, &line).map(wrap),
                    bearings: match inquiry.bearing_tolerance {
                        Some(tolerance) => {
                            segment_bearings_within(&user, &line, unwrap(tolerance))
                                .into_iter()
                                .map(wrap)
                                .collect()
                        }
                        None => Vec::new(),
                    },
                }
            }
            None => StepReport { deviation: None, bearings: Vec::new() },
        })
        .collect();
    tracking.check_route_deviation(route, trip_state, &reports)
}

struct NeverDetector {}

impl RouteDeviationDetector for NeverDetector {
    fn check_route_deviation(&self, _route: Route, _trip_state: TripState) -> RouteDeviation {
        RouteDeviation::NoDeviation
    }
}

struct AlwaysDetector {}

impl RouteDeviationDetector for AlwaysDetector {
    fn check_route_deviation(&self, _route: Route, _trip_state: TripState) -> RouteDeviation {
        RouteDeviation::OffRoute { deviation_from_route_line: wrap(7.0) }
    }
}

fn gen_route_step_with_coords(coords: Vec<(f64, f64)>) -> RouteStep {
    RouteStep { geometry: coords.into_iter().map(|(lng, lat)| coordinate(lng, lat)).collect() }
}

fn gen_dummy_route_step(x1: f64, y1: f64, x2: f64, y2: f64) -> RouteStep {
    gen_route_step_with_coords(vec![(x1, y1), (x2, y2)])
}

fn gen_route_from_steps(steps: Vec<RouteStep>) -> Route {
    Route { geometry: steps.iter().flat_map(|step| step.geometry.clone()).collect(), steps }
}

fn get_navigating_trip_state(user_location: UserLocation, steps: Vec<RouteStep>) -> TripState {
    TripState::Navigating {
        user_location,
        remaining_steps: steps,
        deviation: RouteDeviation::NoDeviation,
    }
}

fn tracking() -> RouteDeviationTracking<NeverDetector> {
    RouteDeviationTracking::StaticThresholdWithHeading {
        minimum_horizontal_accuracy: 15,
        max_acceptable_deviation: wrap(50.0),
        max_heading_deviation_degrees: wrap(110.0),
        min_speed_for_heading_check: wrap(2.0),
    }
}

fn now() -> Timestamp {
    let since = SystemTime::now().duration_since(UNIX_EPOCH).unwrap();
    Timestamp { seconds: since.as_secs() as i64, nanoseconds: since.subsec_nanos() }
}

fn located(lng: f64, lat: f64, horizontal_accuracy: f64) -> UserLocation {
    UserLocation {
        coordinates: coordinate(lng, lat),
        horizontal_accuracy: wrap(horizontal_accuracy),
        course_over_ground: None,
        timestamp: now(),
        speed: None,
        altitude: None,
        vertical_accuracy: None,
    }
}

fn location(lng: f64, lat: f64, course_deg: Option<u16>, speed_mps: Option<f64>) -> UserLocation {
    UserLocation {
        coordinates: coordinate(lng, lat),
        horizontal_accuracy: wrap(5.0),
        course_over_ground: course_deg.map(|degrees| CourseOverGround { degrees, accuracy: None }),
        timestamp: now(),
        speed: speed_mps.map(|value| Speed { value: wrap(value), accuracy: None }),
        altitude: None,
        vertical_accuracy: None,
    }
}

/// Triples of positions, some of them no positions on earth at all.
fn samples() -> Vec<[f64; 6]> {
    vec![
        [0.0, 0.0, 0.01, 0.0, 0.005, 0.001],
        [-122.4194, 37.7749, -122.4094, 37.7849, -122.0, 37.0],
        [179.99, -45.0, -179.99, -45.0, 0.0, 0.0],
        [10.0, 89.9, 20.0, 89.9, 15.0, 90.0],
        [7.5, 46.2, 7.5, 46.2, 7.6, 46.3],
        [1e300, -1e300, 1e-300, 5e-324, 3.0, 4.0],
        [1000.0, 1000.0, -1000.0, 123.0, 77.0, -3.0],
        [0.0, 0.0, 1.0, 1.0, 0.5, 0.5],
    ]
}

/// A user physically on the NEXT step must not be off-route just because
/// the current step is far behind them (short steps, GPS matched ahead).
#[test]
fn window_allows_user_on_future_step() {
    let step0 = gen_dummy_route_step(0.0, 0.0, 0.005, 0.0);
    let step1 = gen_dummy_route_step(0.005, 0.0, 0.01, 0.0);
    let route = gen_route_from_steps(vec![step0.clone(), step1.clone()]);

    // ~278 m past step0's end, ~11 m from step1's line.
    let user = location(0.0075, 0.0001, None, None);
    let trip_state = get_navigating_trip_state(user, vec![step0, step1]);

    assert_eq!(check(&tracking(), &route, &trip_state), RouteDeviation::NoDeviation);
}

/// A user far from every window step is still flagged, and the reported
/// deviation is the true distance to the nearest window step.
#[test]
fn window_flags_genuine_deviation_with_true_distance() {
    let step0 = gen_dummy_route_step(0.0, 0.0, 0.005, 0.0);
    let step1 = gen_dummy_route_step(0.005, 0.0, 0.01, 0.0);
    let route = gen_route_from_steps(vec![step0.clone(), step1.clone()]);

    // ~550 m north of the whole route.
    let user = location(0.0075, 0.005, None, None);
    let trip_state = get_navigating_trip_state(user, vec![step0, step1]);

    match check(&tracking(), &route, &trip_state) {
        RouteDeviation::OffRoute { deviation_from_route_line } => {
            let deviation_from_route_line = unwrap(deviation_from_route_line);
            assert!(
                deviation_from_route_line > 500.0,
                "expected the true distance (~550 m), got {deviation_from_route_line:.1}"
            );
        }
        RouteDeviation::NoDeviation => panic!("expected OffRoute"),
    }
}

/// On an out-and-back (anti-parallel legs within GPS noise of each other),
/// travel in EITHER direction counts as on-course: comparing against only
/// the single nearest segment would flip arbitrarily.
#[test]
fn heading_allows_both_directions_on_overlapping_legs() {
    let step = gen_route_step_with_coords(vec![
        (0.0, 0.0),
        (0.004, 0.0),
        (0.004, 0.0002),
        (0.0, 0.0002),
    ]);
    let route = gen_route_from_steps(vec![step.clone()]);

    for course in [90u16, 270u16] {
        let user = location(0.002, 0.0001, Some(course), Some(10.0));
        let trip_state = get_navigating_trip_state(user, vec![step.clone()]);
        assert_eq!(
            check(&tracking(), &route, &trip_state),
            RouteDeviation::NoDeviation,
            "course {course}° should be on-course between anti-parallel legs"
        );
    }
}

/// On a plain one-way line, wrong-direction travel is still flagged.
#[test]
fn heading_flags_wrong_way_on_simple_line() {
    let step = gen_dummy_route_step(0.0, 0.0, 0.004, 0.0);
    let route = gen_route_from_steps(vec![step.clone()]);

    let user = location(0.002, 0.0, Some(270), Some(10.0));
    let trip_state = get_navigating_trip_state(user, vec![step]);

    match check(&tracking(), &route, &trip_state) {
        RouteDeviation::OffRoute { deviation_from_route_line } => {
            // Heading trips report the 1 m floor (true perpendicular
            // distance is ~0 here).
            assert!(unwrap(deviation_from_route_line) >= 1.0);
        }
        RouteDeviation::NoDeviation => panic!("expected wrong-way OffRoute"),
    }
}

/// Disabled tracking never reports that the user is off route, even when they obviously are.
#[test]
fn no_deviation_tracking() {
    for [x1, y1, x2, y2, x3, y3] in samples() {
        let tracking: RouteDeviationTracking<NeverDetector> = RouteDeviationTracking::Disabled;
        let step = gen_dummy_route_step(x1, y1, x2, y2);
        let route = gen_route_from_steps(vec![step.clone()]);
        for user in [located(x1, y1, 0.0), located(x3, y3, 0.0)] {
            let trip_state = get_navigating_trip_state(user, vec![step.clone()]);
            assert_eq!(check(&tracking, &route, &trip_state), RouteDeviation::NoDeviation);
        }
    }
}

/// The same behavior as disabled tracking, with user-supplied code.
#[test]
fn custom_no_deviation_mode() {
    for [x1, y1, x2, y2, x3, y3] in samples() {
        let tracking = RouteDeviationTracking::Custom { detector: Arc::new(NeverDetector {}) };
        let step = gen_dummy_route_step(x1, y1, x2, y2);
        let route = gen_route_from_steps(vec![step.clone()]);
        for user in [located(x1, y1, 0.0), located(x3, y3, 0.0)] {
            let trip_state = get_navigating_trip_state(user, vec![step.clone()]);
            assert_eq!(check(&tracking, &route, &trip_state), RouteDeviation::NoDeviation);
        }
    }
}

/// Custom behavior claiming that the user is always off the route.
#[test]
fn custom_always_off_route() {
    for [x1, y1, x2, y2, x3, y3] in samples() {
        let tracking = RouteDeviationTracking::Custom { detector: Arc::new(AlwaysDetector {}) };
        let step = gen_dummy_route_step(x1, y1, x2, y2);
        let route = gen_route_from_steps(vec![step.clone()]);
        for user in [located(x1, y1, 0.0), located(x3, y3, 0.0)] {
            let trip_state = get_navigating_trip_state(user, vec![step.clone()]);
            assert_eq!(
                check(&tracking, &route, &trip_state),
                RouteDeviation::OffRoute { deviation_from_route_line: wrap(7.0) }
            );
        }
    }
}

/// A detector is handed the route and the trip state as they are.
#[test]
fn custom_detector_sees_route_and_trip() {
    struct Inspector {}

    impl RouteDeviationDetector for Inspector {
        fn check_route_deviation(&self, route: Route, trip_state: TripState) -> RouteDeviation {
            assert_eq!(route.steps.len(), 2);
            assert_eq!(route.geometry.len(), 4);
            assert_eq!(unwrap(route.steps[1].geometry[1].lng), 3.0);
            match trip_state {
                TripState::Navigating { user_location, remaining_steps, deviation } => {
                    assert_eq!(unwrap(user_location.coordinates.lat), 0.25);
                    assert_eq!(user_location.timestamp.seconds, -2);
                    assert_eq!(user_location.timestamp.nanoseconds, 500);
                    assert_eq!(user_location.altitude, Some(wrap(432.5)));
                    assert_eq!(user_location.vertical_accuracy, Some(wrap(3.0)));
                    assert_eq!(remaining_steps.len(), 1);
                    assert_eq!(deviation, RouteDeviation::NoDeviation);
                    RouteDeviation::OffRoute {
                        deviation_from_route_line: remaining_steps[0].geometry[0].lng,
                    }
                }
                _ => panic!("expected a trip under way"),
            }
        }
    }

    let step0 = gen_dummy_route_step(0.0, 0.0, 1.0, 0.0);
    let step1 = gen_dummy_route_step(2.0, 0.0, 3.0, 0.0);
    let route = gen_route_from_steps(vec![step0, step1.clone()]);
    let user = UserLocation {
        timestamp: Timestamp { seconds: -2, nanoseconds: 500 },
        altitude: Some(wrap(432.5)),
        vertical_accuracy: Some(wrap(3.0)),
        ..located(0.5, 0.25, 1.0)
    };
    let trip_state = get_navigating_trip_state(user, vec![step1]);
    let tracking = RouteDeviationTracking::Custom { detector: Arc::new(Inspector {}) };
    assert_eq!(
        check(&tracking, &route, &trip_state),
        RouteDeviation::OffRoute { deviation_from_route_line: wrap(2.0) }
    );
}

/// A distance greater than the threshold is flagged, even where the threshold is negative.
#[test]
fn negative_threshold_flags_a_user_on_the_line() {
    let tracking: RouteDeviationTracking<NeverDetector> = RouteDeviationTracking::StaticThreshold {
        minimum_horizontal_accuracy: 15,
        max_acceptable_deviation: wrap(-1.0),
    };
    let step = gen_dummy_route_step(0.0, 0.0, 0.005, 0.0);
    let route = gen_route_from_steps(vec![step.clone()]);
    let trip_state = get_navigating_trip_state(location(0.0, 0.0, None, None), vec![step]);
    assert_eq!(
        check(&tracking, &route, &trip_state),
        RouteDeviation::OffRoute { deviation_from_route_line: wrap(0.0) }
    );
}

/// The static threshold against the distance to the line as an oracle.
#[test]
fn static_threshold_oracle_test() {
    for [x1, y1, x2, y2, x3, y3] in samples() {
        for max_acceptable_deviation in [0.0, 0.5, 50.0, 5000.0, 1e9, f64::INFINITY] {
            for (minimum_horizontal_accuracy, horizontal_accuracy) in
                [(0u16, 0.0), (15, 5.0), (15, 500.0), (u16::MAX, 1e10)]
            {
                let tracking: RouteDeviationTracking<NeverDetector> =
                    RouteDeviationTracking::StaticThreshold {
                        minimum_horizontal_accuracy,
                        max_acceptable_deviation: wrap(max_acceptable_deviation),
                    };
                let step = gen_dummy_route_step(x1, y1, x2, y2);
                let route = gen_route_from_steps(vec![step.clone()]);

                // The start of the step is clearly on the route.
                let trip_state = get_navigating_trip_state(
                    located(x1, y1, horizontal_accuracy),
                    vec![step.clone()],
                );
                assert_eq!(check(&tracking, &route, &trip_state), RouteDeviation::NoDeviation);

                // This may be well off route.
                let trip_state =
                    get_navigating_trip_state(located(x3, y3, 0.0), vec![step.clone()]);
                let deviation =
                    deviation_from_line(&Point::new(x3, y3), &line_string(&step.geometry));
                match check(&tracking, &route, &trip_state) {
                    RouteDeviation::NoDeviation => {
                        if let Some(calculated) = deviation {
                            assert!(calculated <= max_acceptable_deviation);
                        }
                    }
                    RouteDeviation::OffRoute { deviation_from_route_line } => {
                        assert_eq!(unwrap(deviation_from_route_line), deviation.unwrap());
                    }
                }
            }
        }
    }
}

/// Places at which a step of about a kilometer leads due east.
fn eastward_steps() -> Vec<(f64, f64)> {
    let mut all = Vec::new();
    for x in [-170.0, -122.4, -33.3, 0.0, 8.55, 103.8, 169.9] {
        for y in [-79.5, -45.0, -0.1, 0.0, 12.25, 47.37, 79.5] {
            all.push((x, y));
        }
    }
    all
}

/// The user is near the step line (deviation is small) but heading in the opposite direction.
#[test]
fn heading_check_detects_backward_travel() {
    for (x1, y1) in eastward_steps() {
        let step = gen_dummy_route_step(x1, y1, x1 + 0.01, y1);
        let route = gen_route_from_steps(vec![step.clone()]);
        let user = location((x1 + (x1 + 0.01)) / 2.0, y1, Some(270), Some(10.0));
        let trip_state = get_navigating_trip_state(user, vec![step]);
        assert!(matches!(check(&tracking(), &route, &trip_state), RouteDeviation::OffRoute { .. }));
    }
}

/// Traveling forward is not flagged.
#[test]
fn heading_check_allows_forward_travel() {
    for (x1, y1) in eastward_steps() {
        let step = gen_dummy_route_step(x1, y1, x1 + 0.01, y1);
        let route = gen_route_from_steps(vec![step.clone()]);
        let user = location((x1 + (x1 + 0.01)) / 2.0, y1, Some(90), Some(10.0));
        let trip_state = get_navigating_trip_state(user, vec![step]);
        assert_eq!(check(&tracking(), &route, &trip_state), RouteDeviation::NoDeviation);
    }
}

/// Locations that are not accurate enough are ignored.
#[test]
fn static_threshold_ignores_inaccurate_location_updates() {
    for [x1, y1, x2, y2, x3, y3] in samples() {
        for horizontal_accuracy in [1u16, 2, 15, 1000, u16::MAX] {
            for max_acceptable_deviation in [-1.0, 0.0, 50.0, f64::NAN] {
                let tracking: RouteDeviationTracking<NeverDetector> =
                    RouteDeviationTracking::StaticThreshold {
                        minimum_horizontal_accuracy: horizontal_accuracy - 1,
                        max_acceptable_deviation: wrap(max_acceptable_deviation),
                    };
                let step = gen_dummy_route_step(x1, y1, x2, y2);
                let route = gen_route_from_steps(vec![step.clone()]);
                let trip_state = get_navigating_trip_state(
                    located(x3, y3, horizontal_accuracy as f64),
                    vec![step],
                );
                assert_eq!(check(&tracking, &route, &trip_state), RouteDeviation::NoDeviation);
            }
        }
    }
}
