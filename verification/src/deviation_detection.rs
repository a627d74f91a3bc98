//! Deciding whether the user has deviated from the route.
use std::sync::Arc;

use crate::angles;
use crate::angles::{normalize_deg, smallest_angle_diff_deg};
use crate::binary64::Binary64;
use crate::models;
use crate::models::{GeographicCoordinate, Route, RouteStep, TripState, TripStateView, UserLocation};
use crate::verdict;
use crate::verdict::{StepInquiryView, StepReportView, ONE_METER_BITS};
use vstd::prelude::*;

verus! {

/// How many remaining steps (current + upcoming) the deviation check inspects.
///
/// Large enough that a user matched one or two steps ahead (short steps around a maneuver, GPS
/// noise, self-intersections) is not falsely off-route; small enough that a parallel but unrelated
/// road far ahead cannot mask a genuine deviation for long.
pub const DEVIATION_STEP_WINDOW: usize = 4;

/// Status information that describes whether the user is proceeding according to the route or not.
///
/// Note that the name is intentionally a bit generic to allow for expansion of other states.
/// For example, we could conceivably add a "wrong way" status in the future.
#[derive(Debug, Clone, Copy)]
pub enum RouteDeviation {
    /// The user is proceeding on course within the expected tolerances; everything is normal.
    NoDeviation,
    /// The user is off the expected route.
    OffRoute {
        /// The deviation from the route line, in meters.
        deviation_from_route_line: Binary64,
    },
}

impl PartialEq for RouteDeviation {
    fn eq(&self, other: &RouteDeviation) -> (r: bool) {
        match (self, other) {
            (RouteDeviation::NoDeviation, RouteDeviation::NoDeviation) => true,
            (
                RouteDeviation::OffRoute { deviation_from_route_line: a },
                RouteDeviation::OffRoute { deviation_from_route_line: b },
            ) => *a == *b,
            _ => false,
        }
    }
}

impl vstd::std_specs::cmp::PartialEqSpecImpl for RouteDeviation {
    open spec fn obeys_eq_spec() -> bool {
        true
    }

    open spec fn eq_spec(&self, other: &RouteDeviation) -> bool {
        match (self, other) {
            (RouteDeviation::NoDeviation, RouteDeviation::NoDeviation) => true,
            (
                RouteDeviation::OffRoute { deviation_from_route_line: a },
                RouteDeviation::OffRoute { deviation_from_route_line: b },
            ) => a.equals(*b),
            _ => false,
        }
    }
}

/// A custom deviation detector (for extending the behavior of [`RouteDeviationTracking`]).
///
/// This allows for arbitrarily complex implementations when the provided ones are not enough.
/// For example, detecting that the user is proceeding the wrong direction by keeping a ring buffer
/// of recent locations, or perform local map matching.
pub trait RouteDeviationDetector: Send + Sync {
    /// Determines whether the user is following the route correctly or not.
    ///
    /// NOTE: This function has a single responsibility.
    /// Side-effects like whether to recalculate a route are left to higher levels,
    /// and implementations should only be concerned with determining the facts.
    ///
    /// IMPORTANT: If steps can be skipped, you must always fall back to checking the deviation
    /// from the full route line.
    #[must_use]
    fn check_route_deviation(&self, route: Route, trip_state: TripState) -> RouteDeviation;
}

/// A question about where the line of a step lies.
///
/// The distance between `point` and `line` is always asked for, and the bearings of segments only
/// with a tolerance.
#[derive(Debug)]
pub struct StepInquiry<'a> {
    /// The user's position.
    pub point: GeographicCoordinate,
    /// The line of the step.
    pub line: &'a Vec<GeographicCoordinate>,
    /// How near a segment has to be, in meters, for its bearing to be asked for, if bearings are.
    pub bearing_tolerance: Option<Binary64>,
}

impl<'a> View for StepInquiry<'a> {
    type V = StepInquiryView;

    open spec fn view(&self) -> StepInquiryView {
        StepInquiryView {
            point: self.point,
            line: self.line@,
            bearing_tolerance: self.bearing_tolerance,
        }
    }
}

/// The answer to a [`StepInquiry`].
#[derive(Debug)]
pub struct StepReport {
    /// The distance between the position and the line, in meters, if there is one.
    pub deviation: Option<Binary64>,
    /// The bearing, in degrees, of every segment of the line within the tolerance.
    pub bearings: Vec<Binary64>,
}

impl View for StepReport {
    type V = StepReportView;

    open spec fn view(&self) -> StepReportView {
        StepReportView { deviation: self.deviation, bearings: self.bearings@ }
    }
}

/// The reports on the remaining steps, in the order of the steps.
pub open spec fn report_views(reports: Seq<StepReport>) -> Seq<StepReportView> {
    reports.map_values(|report: StepReport| report@)
}

/// Determines if the user has deviated from the expected route.
pub enum RouteDeviationTracking<D: RouteDeviationDetector> {
    /// No checks will be done, and we assume the user is always following the route.
    Disabled,
    /// Detects deviation from the route using a configurable static distance threshold from the
    /// route line.
    ///
    /// The distance is measured against a short forward window of steps
    /// ([`DEVIATION_STEP_WINDOW`]): the user is off-route only when farther than the threshold from
    /// EVERY step in the window. Checking the current step alone would report false off-route
    /// whenever the user is matched slightly ahead of it.
    StaticThreshold {
        /// The minimum required horizontal accuracy of the user location, in meters.
        /// Values larger than this will not trigger route deviation warnings.
        minimum_horizontal_accuracy: u16,
        /// The maximum acceptable deviation from the route line, in meters.
        ///
        /// If the distance between the reported location and the expected route line
        /// is greater than this threshold, it will be flagged as an off route condition.
        max_acceptable_deviation: Binary64,
    },
    /// Detects deviation using distance from a short forward window of steps,
    /// with an additional heading check to catch wrong-direction travel.
    ///
    /// Distance: the user is off-route when they are farther than the threshold from EVERY step in
    /// the window (current + the next few).
    ///
    /// Heading: when moving fast enough, the user is flagged off-route if their course disagrees
    /// with EVERY window segment they are plausibly on. On overlapping geometry (out-and-back
    /// roads, U-turn bridges) several directions are legitimate at once and alignment with any of
    /// them counts as on-course.
    StaticThresholdWithHeading {
        /// The minimum required horizontal accuracy of the user location, in meters.
        /// Values larger than this will not trigger route deviation warnings.
        minimum_horizontal_accuracy: u16,
        /// The maximum acceptable deviation from the route line, in meters.
        max_acceptable_deviation: Binary64,
        /// If the angle between the user's heading and a segment bearing is greater than or equal
        /// to this value (in degrees), the two disagree.
        /// A typical value is 90.0 to 120.0 degrees.
        max_heading_deviation_degrees: Binary64,
        /// The minimum speed (in m/s) required before the heading check is applied.
        /// Below this speed, only the distance check is used.
        /// This avoids false positives when the user is stationary or moving slowly
        /// (where course_over_ground is unreliable).
        min_speed_for_heading_check: Binary64,
    },
    /// An arbitrary user-defined implementation.
    /// You decide with your own [`RouteDeviationDetector`] implementation!
    Custom {
        /// The detector that decides.
        detector: Arc<D>,
    },
}

impl<D: RouteDeviationDetector> Clone for RouteDeviationTracking<D> {
    fn clone(&self) -> (copy: RouteDeviationTracking<D>)
        ensures
            copy == *self,
    {
        match self {
            RouteDeviationTracking::Disabled => RouteDeviationTracking::Disabled,
            RouteDeviationTracking::StaticThreshold {
                minimum_horizontal_accuracy,
                max_acceptable_deviation,
            } => RouteDeviationTracking::StaticThreshold {
                minimum_horizontal_accuracy: *minimum_horizontal_accuracy,
                max_acceptable_deviation: *max_acceptable_deviation,
            },
            RouteDeviationTracking::StaticThresholdWithHeading {
                minimum_horizontal_accuracy,
                max_acceptable_deviation,
                max_heading_deviation_degrees,
                min_speed_for_heading_check,
            } => RouteDeviationTracking::StaticThresholdWithHeading {
                minimum_horizontal_accuracy: *minimum_horizontal_accuracy,
                max_acceptable_deviation: *max_acceptable_deviation,
                max_heading_deviation_degrees: *max_heading_deviation_degrees,
                min_speed_for_heading_check: *min_speed_for_heading_check,
            },
            RouteDeviationTracking::Custom { detector } => RouteDeviationTracking::Custom {
                detector: detector.clone(),
            },
        }
    }
}

impl<D: RouteDeviationDetector> RouteDeviationTracking<D> {
    /// The question that has to be answered about the `i`th remaining step before a verdict is
    /// given on `trip`, if there is one.
    pub open spec fn asks(self, trip: TripStateView, i: int) -> Option<StepInquiryView> {
        match (self, trip) {
            (
                RouteDeviationTracking::StaticThreshold { minimum_horizontal_accuracy, .. },
                TripStateView::Navigating { user_location, remaining_steps, .. },
            ) => if verdict::accurate(user_location, minimum_horizontal_accuracy)
                && verdict::inspected(remaining_steps, i) {
                Some(
                    StepInquiryView {
                        point: user_location.coordinates,
                        line: remaining_steps[i],
                        bearing_tolerance: None,
                    },
                )
            } else {
                None
            },
            (
                RouteDeviationTracking::StaticThresholdWithHeading {
                    minimum_horizontal_accuracy,
                    max_acceptable_deviation,
                    min_speed_for_heading_check,
                    ..
                },
                TripStateView::Navigating { user_location, remaining_steps, .. },
            ) => if verdict::accurate(user_location, minimum_horizontal_accuracy)
                && verdict::inspected(remaining_steps, i) {
                Some(
                    StepInquiryView {
                        point: user_location.coordinates,
                        line: remaining_steps[i],
                        bearing_tolerance: if verdict::has_heading(
                            user_location,
                            min_speed_for_heading_check,
                        ) {
                            Some(max_acceptable_deviation)
                        } else {
                            None
                        },
                    },
                )
            } else {
                None
            },
            _ => None,
        }
    }

    /// The distance beyond which the user is off the route, if one is configured.
    pub open spec fn distance_limit(self) -> Option<Binary64> {
        match self {
            RouteDeviationTracking::Disabled | RouteDeviationTracking::Custom { .. } => None,
            RouteDeviationTracking::StaticThreshold { max_acceptable_deviation, .. } => Some(
                max_acceptable_deviation,
            ),
            RouteDeviationTracking::StaticThresholdWithHeading {
                max_acceptable_deviation,
                ..
            } => Some(max_acceptable_deviation),
        }
    }

    /// The verdict on `trip`, unless it is left to a detector.
    pub open spec fn verdict(
        self,
        trip: TripStateView,
        reports: Seq<StepReportView>,
    ) -> Option<RouteDeviation> {
        match self {
            RouteDeviationTracking::Disabled => Some(RouteDeviation::NoDeviation),
            RouteDeviationTracking::StaticThreshold {
                minimum_horizontal_accuracy,
                max_acceptable_deviation,
            } => Some(
                verdict::distance_verdict(
                    minimum_horizontal_accuracy,
                    max_acceptable_deviation,
                    trip,
                    reports,
                ),
            ),
            RouteDeviationTracking::StaticThresholdWithHeading {
                minimum_horizontal_accuracy,
                max_acceptable_deviation,
                max_heading_deviation_degrees,
                min_speed_for_heading_check,
            } => Some(
                verdict::heading_verdict(
                    minimum_horizontal_accuracy,
                    max_acceptable_deviation,
                    max_heading_deviation_degrees,
                    min_speed_for_heading_check,
                    trip,
                    reports,
                ),
            ),
            RouteDeviationTracking::Custom { .. } => None,
        }
    }

    /// Returns the max acceptable deviation distance (in meters) if configured, or `None`.
    ///
    /// This is used to guard speed-run step advancement:
    /// if the user would be farther than this distance from the new step, the advance is rejected.
    #[must_use]
    pub fn max_deviation_distance(&self) -> (distance: Option<Binary64>)
        ensures
            distance == self.distance_limit(),
            distance == match self {
                RouteDeviationTracking::Disabled | RouteDeviationTracking::Custom { .. } => None,
                RouteDeviationTracking::StaticThreshold { max_acceptable_deviation, .. } => Some(
                    *max_acceptable_deviation,
                ),
                RouteDeviationTracking::StaticThresholdWithHeading {
                    max_acceptable_deviation,
                    ..
                } => Some(*max_acceptable_deviation),
            },
    {
        match self {
            RouteDeviationTracking::Disabled | RouteDeviationTracking::Custom { .. } => None,
            RouteDeviationTracking::StaticThreshold { max_acceptable_deviation, .. } => Some(
                *max_acceptable_deviation,
            ),
            RouteDeviationTracking::StaticThresholdWithHeading {
                max_acceptable_deviation,
                ..
            } => Some(*max_acceptable_deviation),
        }
    }

    /// The question that has to be answered about a remaining step before the deviation can be
    /// checked, if there is one.
    pub fn inquiry<'a>(&self, trip_state: &'a TripState, step: usize) -> (inquiry: Option<
        StepInquiry<'a>,
    >)
        ensures
            match inquiry {
                Some(q) => self.asks(trip_state@, step as int) == Some(q@),
                None => self.asks(trip_state@, step as int) is None,
            },
    {
        let (user_location, remaining_steps) = match trip_state {
            TripState::Navigating { user_location, remaining_steps, .. } => (
                user_location,
                remaining_steps,
            ),
            _ => {
                return None;
            },
        };
        let (minimum_horizontal_accuracy, bearing_tolerance) = match self {
            RouteDeviationTracking::StaticThreshold { minimum_horizontal_accuracy, .. } => (
                *minimum_horizontal_accuracy,
                None,
            ),
            RouteDeviationTracking::StaticThresholdWithHeading {
                minimum_horizontal_accuracy,
                max_acceptable_deviation,
                min_speed_for_heading_check,
                ..
            } => (
                *minimum_horizontal_accuracy,
                match Self::reliable_course(user_location, *min_speed_for_heading_check) {
                    Some(_) => Some(*max_acceptable_deviation),
                    None => None,
                },
            ),
            _ => {
                return None;
            },
        };
        if !Self::is_accurate(user_location, minimum_horizontal_accuracy) || step
            >= DEVIATION_STEP_WINDOW || step >= remaining_steps.len() {
            return None;
        }
        let line = &remaining_steps[step].geometry;
        assert(models::lines(remaining_steps@)[step as int] == line@);
        if line.len() < 2 {
            return None;
        }
        Some(StepInquiry { point: user_location.coordinates, line, bearing_tolerance })
    }

    /// Whether a location is accurate enough to act on.
    fn is_accurate(location: &UserLocation, minimum_horizontal_accuracy: u16) -> (r: bool)
        ensures
            r == verdict::accurate(*location, minimum_horizontal_accuracy),
    {
        !(location.horizontal_accuracy > Binary64::from_u16(minimum_horizontal_accuracy))
    }

    /// The user's course, if it is known and they move fast enough for it to be relied on.
    fn reliable_course(location: &UserLocation, min_speed: Binary64) -> (course: Option<u16>)
        ensures
            course is Some == verdict::has_heading(*location, min_speed),
            course is Some ==> course->0 == location.course_over_ground->0.degrees,
    {
        let speed = match location.speed {
            Some(speed) => speed.value,
            None => Binary64 { bits: 0 },
        };
        if speed >= min_speed {
            match location.course_over_ground {
                Some(course) => Some(course.degrees),
                None => None,
            }
        } else {
            None
        }
    }

    /// Whether a course disagrees with every bearing that the user may be following, and there is
    /// one.
    fn disagrees_with_all(
        remaining_steps: &Vec<RouteStep>,
        reports: &Vec<StepReport>,
        course: u16,
        limit: Binary64,
    ) -> (r: bool)
        requires
            forall|i: int|
                verdict::inspected(models::lines(remaining_steps@), i) ==> i < reports@.len(),
        ensures
            r == verdict::wrong_way(
                models::lines(remaining_steps@),
                report_views(reports@),
                course,
                limit,
            ),
    {
        let ghost lines = models::lines(remaining_steps@);
        let ghost views = report_views(reports@);
        let user_heading = normalize_deg(Binary64::from_u16(course));
        let mut found: bool = false;
        let mut i: usize = 0;
        while i < remaining_steps.len() && i < DEVIATION_STEP_WINDOW
            invariant
                lines == models::lines(remaining_steps@),
                views == report_views(reports@),
                forall|i: int| verdict::inspected(lines, i) ==> i < reports@.len(),
                user_heading == angles::normalized(Binary64::whole(course as nat)),
                found == exists|k: int, j: int| k < i && verdict::candidate(lines, views, k, j),
                forall|k: int, j: int|
                    k < i && verdict::candidate(lines, views, k, j) ==> verdict::misaligned(
                        course,
                        #[trigger] views[k].bearings[j],
                        limit,
                    ),
            decreases remaining_steps.len() - i,
        {
            let step = &remaining_steps[i];
            assert(lines[i as int] == step@);
            if step.geometry.len() >= 2 {
                assert(verdict::inspected(lines, i as int));
                let bearings = &reports[i].bearings;
                assert(views[i as int].bearings == bearings@);
                let mut j: usize = 0;
                while j < bearings.len()
                    invariant
                        i < reports@.len(),
                        verdict::inspected(lines, i as int),
                        lines == models::lines(remaining_steps@),
                        views == report_views(reports@),
                        bearings == reports@[i as int].bearings,
                        views[i as int].bearings == bearings@,
                        user_heading == angles::normalized(Binary64::whole(course as nat)),
                        j <= bearings@.len(),
                        forall|h: int|
                            0 <= h < j ==> verdict::misaligned(
                                course,
                                #[trigger] views[i as int].bearings[h],
                                limit,
                            ),
                    decreases bearings.len() - j,
                {
                    let bearing = normalize_deg(bearings[j]);
                    if !(smallest_angle_diff_deg(user_heading, bearing) >= limit) {
                        proof {
                            assert(verdict::candidate(lines, views, i as int, j as int));
                            assert(!verdict::misaligned(
                                course,
                                views[i as int].bearings[j as int],
                                limit,
                            ));
                        }
                        return false;
                    }
                    j = j + 1;
                }
                if bearings.len() > 0 {
                    assert(verdict::candidate(lines, views, i as int, 0));
                    found = true;
                }
            }
            i = i + 1;
        }
        found
    }

    /// Determines whether the user is off the route.
    ///
    /// Every step that [`Self::inquiry`] asks about has to be reported on. The reports are in the
    /// order of the remaining steps; what they hold for steps that are not asked about does not
    /// matter.
    #[must_use]
    pub fn check_route_deviation(
        &self,
        route: &Route,
        trip_state: &TripState,
        reports: &Vec<StepReport>,
    ) -> (deviation: RouteDeviation)
        requires
            forall|i: int| self.asks(trip_state@, i) is Some ==> i < reports@.len(),
        ensures
            match self {
                RouteDeviationTracking::Custom { detector } => exists|r: Route, t: TripState|
                    {
                        &&& r@ == route@
                        &&& t@ == trip_state@
                        &&& #[trigger] call_ensures(
                            D::check_route_deviation,
                            (&**detector, r, t),
                            deviation,
                        )
                    },
                _ => self.verdict(trip_state@, report_views(reports@)) == Some(deviation),
            },
    {
        match self {
            RouteDeviationTracking::Disabled => RouteDeviation::NoDeviation,
            RouteDeviationTracking::StaticThreshold {
                minimum_horizontal_accuracy,
                max_acceptable_deviation,
            } => match trip_state {
                TripState::Idle { .. } | TripState::Complete { .. } => RouteDeviation::NoDeviation,
                TripState::Navigating { user_location, remaining_steps, .. } => {
                    if !Self::is_accurate(user_location, *minimum_horizontal_accuracy) {
                        return RouteDeviation::NoDeviation;
                    }
                    proof {
                        self.lemma_asked(trip_state@);
                    }
                    match Self::min_deviation_over_step_window(remaining_steps, reports) {
                        Some(deviation) => if deviation > *max_acceptable_deviation {
                            RouteDeviation::OffRoute { deviation_from_route_line: deviation }
                        } else {
                            RouteDeviation::NoDeviation
                        },
                        None => RouteDeviation::NoDeviation,
                    }
                },
            },
            RouteDeviationTracking::StaticThresholdWithHeading {
                minimum_horizontal_accuracy,
                max_acceptable_deviation,
                max_heading_deviation_degrees,
                min_speed_for_heading_check,
            } => match trip_state {
                TripState::Idle { .. } | TripState::Complete { .. } => RouteDeviation::NoDeviation,
                TripState::Navigating { user_location, remaining_steps, .. } => {
                    if !Self::is_accurate(user_location, *minimum_horizontal_accuracy) {
                        return RouteDeviation::NoDeviation;
                    }
                    proof {
                        self.lemma_asked(trip_state@);
                    }
                    let deviation = match Self::min_deviation_over_step_window(
                        remaining_steps,
                        reports,
                    ) {
                        Some(deviation) => deviation,
                        None => {
                            return RouteDeviation::NoDeviation;
                        },
                    };
                    if deviation > *max_acceptable_deviation {
                        return RouteDeviation::OffRoute { deviation_from_route_line: deviation };
                    }
                    if let Some(course) = Self::reliable_course(
                        user_location,
                        *min_speed_for_heading_check,
                    ) {
                        if Self::disagrees_with_all(
                            remaining_steps,
                            reports,
                            course,
                            *max_heading_deviation_degrees,
                        ) {
                            // The floor of one meter marks a verdict on heading: the true distance
                            // is near zero here.
                            return RouteDeviation::OffRoute {
                                deviation_from_route_line: deviation.max(
                                    Binary64 { bits: ONE_METER_BITS },
                                ),
                            };
                        }
                    }
                    RouteDeviation::NoDeviation
                },
            },
            RouteDeviationTracking::Custom { detector } => {
                detector.check_route_deviation(route.clone(), trip_state.clone())
            },
        }
    }

    /// Of an accurate location, every inspected step is asked about.
    proof fn lemma_asked(self, trip: TripStateView)
        ensures
            match (self, trip) {
                (
                    RouteDeviationTracking::StaticThreshold { minimum_horizontal_accuracy, .. },
                    TripStateView::Navigating { user_location, remaining_steps, .. },
                ) => verdict::accurate(user_location, minimum_horizontal_accuracy) ==> forall|
                    i: int,
                |
                    #[trigger]
                    verdict::inspected(remaining_steps, i) ==> self.asks(trip, i) is Some,
                (
                    RouteDeviationTracking::StaticThresholdWithHeading {
                        minimum_horizontal_accuracy,
                        ..
                    },
                    TripStateView::Navigating { user_location, remaining_steps, .. },
                ) => verdict::accurate(user_location, minimum_horizontal_accuracy) ==> forall|
                    i: int,
                |
                    #[trigger]
                    verdict::inspected(remaining_steps, i) ==> self.asks(trip, i) is Some,
                _ => true,
            },
    {
    }

    /// Minimum distance (in meters) from the user to any step in the forward deviation window
    /// ([`DEVIATION_STEP_WINDOW`]).
    ///
    /// Returns `None` when no step in the window has usable geometry.
    pub fn min_deviation_over_step_window(
        remaining_steps: &Vec<RouteStep>,
        reports: &Vec<StepReport>,
    ) -> (min_deviation: Option<Binary64>)
        requires
            forall|i: int|
                verdict::inspected(models::lines(remaining_steps@), i) ==> i < reports@.len(),
        ensures
            min_deviation == verdict::closest(
                verdict::distances(models::lines(remaining_steps@), report_views(reports@)),
            ),
            min_deviation is None <==> forall|i: int|
                verdict::inspected(models::lines(remaining_steps@), i) ==> (
                #[trigger] reports@[i]).deviation is None,
            min_deviation is Some ==> {
                &&& exists|i: int|
                    verdict::inspected(models::lines(remaining_steps@), i) && (
                    #[trigger] reports@[i]).deviation == min_deviation
                &&& forall|i: int|
                    verdict::inspected(models::lines(remaining_steps@), i) && (
                    #[trigger] reports@[i]).deviation is Some ==> !min_deviation->0.exceeds(
                        reports@[i].deviation->0,
                    )
            },
    {
        let ghost lines = models::lines(remaining_steps@);
        let ghost all = verdict::distances(lines, report_views(reports@));
        let mut min_deviation: Option<Binary64> = None;
        let mut i: usize = 0;
        while i < remaining_steps.len() && i < DEVIATION_STEP_WINDOW
            invariant
                lines == models::lines(remaining_steps@),
                all == verdict::distances(lines, report_views(reports@)),
                forall|i: int| verdict::inspected(lines, i) ==> i < reports@.len(),
                i <= all.len(),
                min_deviation == verdict::closest(all.take(i as int)),
            decreases remaining_steps.len() - i,
        {
            let step = &remaining_steps[i];
            proof {
                assert(all.take(i + 1).drop_last() =~= all.take(i as int));
                assert(lines[i as int] == step@);
            }
            if step.geometry.len() >= 2 {
                assert(verdict::inspected(lines, i as int));
                if let Some(d) = reports[i].deviation {
                    let closer = match min_deviation {
                        Some(m) => d < m,
                        None => true,
                    };
                    if closer {
                        min_deviation = Some(d);
                    }
                }
            }
            i = i + 1;
        }
        proof {
            assert(all.take(i as int) =~= all);
            verdict::lemma_closest(all);
            assert forall|k: int| 0 <= k < all.len() && #[trigger] all[k] is Some implies
                verdict::inspected(lines, k) && all[k] == reports@[k].deviation by {
                assert(verdict::inspected(lines, k));
                assert(report_views(reports@)[k] == reports@[k]@);
            }
            assert forall|k: int| verdict::inspected(lines, k) implies all[k] == (
            #[trigger] reports@[k]).deviation by {
                assert(report_views(reports@)[k] == reports@[k]@);
            }
        }
        min_deviation
    }
}

} // verus!
