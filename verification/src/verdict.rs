//! What deviation detection decides, stated over mathematical values.
use crate::angles;
use crate::binary64::Binary64;
use crate::deviation_detection::{RouteDeviation, DEVIATION_STEP_WINDOW};
use crate::models::{GeographicCoordinate, TripStateView, UserLocation};
use vstd::prelude::*;

verus! {

/// The bit pattern of one meter.
pub const ONE_METER_BITS: u64 = 0x3ff0_0000_0000_0000;

/// A question about where the line of a step lies, as a mathematical value.
pub struct StepInquiryView {
    /// The user's position.
    pub point: GeographicCoordinate,
    /// The line of the step.
    pub line: Seq<GeographicCoordinate>,
    /// How near a segment has to be for its bearing to be asked for, if bearings are.
    pub bearing_tolerance: Option<Binary64>,
}

/// The answer to a [`StepInquiryView`], as a mathematical value.
pub struct StepReportView {
    /// The distance between the position and the line, if there is one.
    pub deviation: Option<Binary64>,
    /// The bearing of every segment of the line within the tolerance.
    pub bearings: Seq<Binary64>,
}

/// How many of `n` remaining steps are inspected.
pub open spec fn window_len(n: nat) -> nat {
    if n < DEVIATION_STEP_WINDOW {
        n
    } else {
        DEVIATION_STEP_WINDOW as nat
    }
}

/// Whether a line has a segment.
pub open spec fn usable(line: Seq<GeographicCoordinate>) -> bool {
    line.len() >= 2
}

/// Whether the `i`th remaining step is inspected.
pub open spec fn inspected(lines: Seq<Seq<GeographicCoordinate>>, i: int) -> bool {
    0 <= i < window_len(lines.len()) && usable(lines[i])
}

/// Whether a location is accurate enough to act on.
pub open spec fn accurate(location: UserLocation, minimum_horizontal_accuracy: u16) -> bool {
    !location.horizontal_accuracy.exceeds(Binary64::whole(minimum_horizontal_accuracy as nat))
}

/// The distance to each step of the window, where there is one.
pub open spec fn distances(
    lines: Seq<Seq<GeographicCoordinate>>,
    reports: Seq<StepReportView>,
) -> Seq<Option<Binary64>> {
    Seq::new(
        window_len(lines.len()),
        |i: int|
            if usable(lines[i]) {
                reports[i].deviation
            } else {
                None
            },
    )
}

/// The first distance that no later one undercuts by the time all have been seen.
///
/// Without NaNs this is the least distance. A NaN undercuts nothing and nothing undercuts it, so
/// one that comes first stays and one that comes later is passed over.
pub open spec fn closest(distances: Seq<Option<Binary64>>) -> Option<Binary64>
    decreases distances.len(),
{
    if distances.len() == 0 {
        None
    } else {
        match (closest(distances.drop_last()), distances.last()) {
            (Some(m), Some(d)) => if m.exceeds(d) {
                Some(d)
            } else {
                Some(m)
            },
            (None, d) => d,
            (m, None) => m,
        }
    }
}

/// The closest distance is one of the distances, and no distance is less.
pub proof fn lemma_closest(distances: Seq<Option<Binary64>>)
    ensures
        closest(distances) is None <==> forall|i: int|
            0 <= i < distances.len() ==> (#[trigger] distances[i]) is None,
        closest(distances) is Some ==> {
            &&& exists|i: int| 0 <= i < distances.len() && #[trigger] distances[i] == closest(distances)
            &&& forall|i: int|
                0 <= i < distances.len() && (#[trigger] distances[i]) is Some ==> !closest(
                    distances,
                )->0.exceeds(distances[i]->0)
        },
    decreases distances.len(),
{
    if distances.len() > 0 {
        let before = distances.drop_last();
        let end = distances.len() - 1;
        lemma_closest(before);
        assert forall|i: int| 0 <= i < end implies before[i] == #[trigger] distances[i] by {}
        if closest(distances) is None {
            assert forall|i: int| 0 <= i < distances.len() implies (
            #[trigger] distances[i]) is None by {
                assert(i < end ==> before[i] is None);
            }
        } else {
            if closest(distances) == distances.last() {
                assert(distances[end] == closest(distances));
            } else {
                let i = choose|i: int| 0 <= i < before.len() && before[i] == closest(before);
                assert(distances[i] == closest(distances));
            }
            assert forall|i: int|
                0 <= i < distances.len() && (#[trigger] distances[i]) is Some implies !closest(
                distances,
            )->0.exceeds(distances[i]->0) by {
                assert(i < end ==> before[i] == distances[i]);
            }
        }
    }
}

/// The user's speed; an unknown speed counts as none.
pub open spec fn speed_of(location: UserLocation) -> Binary64 {
    match location.speed {
        Some(speed) => speed.value,
        None => Binary64 { bits: 0 },
    }
}

/// Whether the user's direction is known and they move fast enough for it to be relied on.
pub open spec fn has_heading(location: UserLocation, min_speed: Binary64) -> bool {
    speed_of(location).reaches(min_speed) && location.course_over_ground is Some
}

/// Whether a course and a bearing are at least `limit` degrees apart.
pub open spec fn misaligned(course: u16, bearing: Binary64, limit: Binary64) -> bool {
    angles::angle_between(
        angles::normalized(Binary64::whole(course as nat)),
        angles::normalized(bearing),
    ).reaches(limit)
}

/// Whether the `j`th bearing reported for the `i`th remaining step is one the user may be
/// following.
pub open spec fn candidate(
    lines: Seq<Seq<GeographicCoordinate>>,
    reports: Seq<StepReportView>,
    i: int,
    j: int,
) -> bool {
    inspected(lines, i) && 0 <= j < reports[i].bearings.len()
}

/// Whether a course disagrees with every bearing that the user may be following, and there is one.
pub open spec fn wrong_way(
    lines: Seq<Seq<GeographicCoordinate>>,
    reports: Seq<StepReportView>,
    course: u16,
    limit: Binary64,
) -> bool {
    &&& exists|i: int, j: int| candidate(lines, reports, i, j)
    &&& forall|i: int, j: int|
        candidate(lines, reports, i, j) ==> misaligned(
            course,
            #[trigger] reports[i].bearings[j],
            limit,
        )
}

/// The verdict on distance alone.
pub open spec fn distance_verdict(
    minimum_horizontal_accuracy: u16,
    max_acceptable_deviation: Binary64,
    trip: TripStateView,
    reports: Seq<StepReportView>,
) -> RouteDeviation {
    match trip {
        TripStateView::Navigating { user_location, remaining_steps, .. } => {
            if !accurate(user_location, minimum_horizontal_accuracy) {
                RouteDeviation::NoDeviation
            } else {
                match closest(distances(remaining_steps, reports)) {
                    Some(d) => if d.exceeds(max_acceptable_deviation) {
                        RouteDeviation::OffRoute { deviation_from_route_line: d }
                    } else {
                        RouteDeviation::NoDeviation
                    },
                    None => RouteDeviation::NoDeviation,
                }
            }
        },
        _ => RouteDeviation::NoDeviation,
    }
}

/// The verdict on distance and heading.
pub open spec fn heading_verdict(
    minimum_horizontal_accuracy: u16,
    max_acceptable_deviation: Binary64,
    max_heading_deviation_degrees: Binary64,
    min_speed_for_heading_check: Binary64,
    trip: TripStateView,
    reports: Seq<StepReportView>,
) -> RouteDeviation {
    match trip {
        TripStateView::Navigating { user_location, remaining_steps, .. } => {
            if !accurate(user_location, minimum_horizontal_accuracy) {
                RouteDeviation::NoDeviation
            } else {
                match closest(distances(remaining_steps, reports)) {
                    Some(d) => if d.exceeds(max_acceptable_deviation) {
                        RouteDeviation::OffRoute { deviation_from_route_line: d }
                    } else if has_heading(user_location, min_speed_for_heading_check) && wrong_way(
                        remaining_steps,
                        reports,
                        user_location.course_over_ground->0.degrees,
                        max_heading_deviation_degrees,
                    ) {
                        RouteDeviation::OffRoute {
                            deviation_from_route_line: d.maximum(
                                Binary64 { bits: ONE_METER_BITS },
                            ),
                        }
                    } else {
                        RouteDeviation::NoDeviation
                    },
                    None => RouteDeviation::NoDeviation,
                }
            }
        },
        _ => RouteDeviation::NoDeviation,
    }
}

} // verus!
