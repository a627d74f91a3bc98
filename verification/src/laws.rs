//! What holds of every deviation check.
use crate::angles;
use crate::arithmetic_laws;
use crate::binary64::Binary64;
use crate::deviation_detection::{RouteDeviation, RouteDeviationDetector, RouteDeviationTracking};
use crate::models::{GeographicCoordinate, TripStateView, UserLocation};
use crate::verdict;
use crate::verdict::{StepReportView, ONE_METER_BITS};
use vstd::prelude::*;

verus! {

/// Whether `d` is the distance reported for the `i`th remaining step, and the step is inspected.
pub open spec fn reported(
    lines: Seq<Seq<GeographicCoordinate>>,
    reports: Seq<StepReportView>,
    i: int,
    d: Binary64,
) -> bool {
    verdict::inspected(lines, i) && reports[i].deviation == Some(d)
}

/// The closest distance is one that is reported, if there is any, and no distance that is reported
/// is less.
pub proof fn law_closest_step(
    lines: Seq<Seq<GeographicCoordinate>>,
    reports: Seq<StepReportView>,
)
    ensures
        ({
            let nearest = verdict::closest(verdict::distances(lines, reports));
            &&& nearest is None <==> forall|i: int, d: Binary64| !reported(lines, reports, i, d)
            &&& nearest is Some ==> exists|i: int| reported(lines, reports, i, nearest->0)
            &&& nearest is Some ==> forall|i: int, d: Binary64|
                reported(lines, reports, i, d) ==> !nearest->0.exceeds(d)
        }),
{
    let all = verdict::distances(lines, reports);
    verdict::lemma_closest(all);
    assert forall|i: int, d: Binary64| reported(lines, reports, i, d) implies 0 <= i < all.len()
        && all[i] == Some(d) by {}
    if verdict::closest(all) is Some {
        let i = choose|i: int| 0 <= i < all.len() && all[i] == verdict::closest(all);
        assert(reported(lines, reports, i, verdict::closest(all)->0));
    }
}

/// Off the route means far from every step: where every reported distance exceeds the threshold,
/// and there is one, the user is off the route; and where the user is off the route, every
/// reported distance that is a number exceeds the threshold.
pub proof fn law_off_route_is_far_from_every_step(
    minimum_horizontal_accuracy: u16,
    max_acceptable_deviation: Binary64,
    user_location: UserLocation,
    lines: Seq<Seq<GeographicCoordinate>>,
    previous: RouteDeviation,
    reports: Seq<StepReportView>,
)
    requires
        verdict::accurate(user_location, minimum_horizontal_accuracy),
    ensures
        ({
            let off_route = verdict::distance_verdict(
                minimum_horizontal_accuracy,
                max_acceptable_deviation,
                TripStateView::Navigating {
                    user_location,
                    remaining_steps: lines,
                    deviation: previous,
                },
                reports,
            ) is OffRoute;
            &&& (exists|i: int, d: Binary64| reported(lines, reports, i, d)) && (forall|
                i: int,
                d: Binary64,
            |
                reported(lines, reports, i, d) ==> d.exceeds(max_acceptable_deviation))
                ==> off_route
            &&& off_route ==> (exists|i: int, d: Binary64| reported(lines, reports, i, d)) && (
            forall|i: int, d: Binary64|
                reported(lines, reports, i, d) && !d.nan() ==> d.exceeds(max_acceptable_deviation))
        }),
{
    law_closest_step(lines, reports);
}

/// Where distance puts the user off the route, the deviation is the distance to a step of the
/// window, exceeds the threshold, and no step of the window is nearer.
pub proof fn law_deviation_is_the_true_distance(
    minimum_horizontal_accuracy: u16,
    max_acceptable_deviation: Binary64,
    user_location: UserLocation,
    lines: Seq<Seq<GeographicCoordinate>>,
    previous: RouteDeviation,
    reports: Seq<StepReportView>,
)
    ensures
        verdict::distance_verdict(
            minimum_horizontal_accuracy,
            max_acceptable_deviation,
            TripStateView::Navigating { user_location, remaining_steps: lines, deviation: previous },
            reports,
        ) matches RouteDeviation::OffRoute { deviation_from_route_line: d } ==> {
            &&& exists|i: int| reported(lines, reports, i, d)
            &&& d.exceeds(max_acceptable_deviation)
            &&& forall|i: int, o: Binary64| reported(lines, reports, i, o) ==> !d.exceeds(o)
        },
{
    law_closest_step(lines, reports);
    let nearest = verdict::closest(verdict::distances(lines, reports));
    let trip = TripStateView::Navigating {
        user_location,
        remaining_steps: lines,
        deviation: previous,
    };
    let found = verdict::distance_verdict(
        minimum_horizontal_accuracy,
        max_acceptable_deviation,
        trip,
        reports,
    );
    if let RouteDeviation::OffRoute { deviation_from_route_line: d } = found {
        assert(nearest == Some(d));
        assert(exists|i: int| reported(lines, reports, i, d));
    }
}

/// A user within the threshold of any step of the window is on the route, however far behind the
/// current step lies. With a heading check the same holds of a user who is too slow for it or
/// whose course is not known.
pub proof fn law_near_any_step_is_on_route(
    minimum_horizontal_accuracy: u16,
    max_acceptable_deviation: Binary64,
    max_heading_deviation_degrees: Binary64,
    min_speed_for_heading_check: Binary64,
    user_location: UserLocation,
    lines: Seq<Seq<GeographicCoordinate>>,
    previous: RouteDeviation,
    reports: Seq<StepReportView>,
    i: int,
    d: Binary64,
)
    requires
        reported(lines, reports, i, d),
        !d.nan(),
        !d.exceeds(max_acceptable_deviation),
    ensures
        ({
            let trip = TripStateView::Navigating {
                user_location,
                remaining_steps: lines,
                deviation: previous,
            };
            &&& verdict::distance_verdict(
                minimum_horizontal_accuracy,
                max_acceptable_deviation,
                trip,
                reports,
            ) == RouteDeviation::NoDeviation
            &&& !verdict::has_heading(user_location, min_speed_for_heading_check)
                ==> verdict::heading_verdict(
                minimum_horizontal_accuracy,
                max_acceptable_deviation,
                max_heading_deviation_degrees,
                min_speed_for_heading_check,
                trip,
                reports,
            ) == RouteDeviation::NoDeviation
        }),
{
    law_closest_step(lines, reports);
}

/// A user beyond the threshold of every step of the window is off the route with a heading check
/// too, whatever their course, and the deviation is the distance to the nearest step.
pub proof fn law_far_from_every_step_is_off_route_on_any_course(
    minimum_horizontal_accuracy: u16,
    max_acceptable_deviation: Binary64,
    max_heading_deviation_degrees: Binary64,
    min_speed_for_heading_check: Binary64,
    user_location: UserLocation,
    lines: Seq<Seq<GeographicCoordinate>>,
    previous: RouteDeviation,
    reports: Seq<StepReportView>,
)
    requires
        verdict::accurate(user_location, minimum_horizontal_accuracy),
        exists|i: int, d: Binary64| reported(lines, reports, i, d),
        forall|i: int, d: Binary64|
            reported(lines, reports, i, d) ==> d.exceeds(max_acceptable_deviation),
    ensures
        exists|i: int, d: Binary64|
            {
                &&& reported(lines, reports, i, d)
                &&& forall|j: int, o: Binary64| reported(lines, reports, j, o) ==> o.reaches(d)
                &&& verdict::heading_verdict(
                    minimum_horizontal_accuracy,
                    max_acceptable_deviation,
                    max_heading_deviation_degrees,
                    min_speed_for_heading_check,
                    TripStateView::Navigating {
                        user_location,
                        remaining_steps: lines,
                        deviation: previous,
                    },
                    reports,
                ) == (RouteDeviation::OffRoute { deviation_from_route_line: d })
            },
{
    law_closest_step(lines, reports);
    let d = verdict::closest(verdict::distances(lines, reports))->0;
    let nearest = choose|i: int| reported(lines, reports, i, d);
    assert(reported(lines, reports, nearest, d));
    assert(d.exceeds(max_acceptable_deviation));
    assert forall|i: int, o: Binary64| reported(lines, reports, i, o) implies o.reaches(d) by {
        assert(o.exceeds(max_acceptable_deviation));
    }
}

/// A user whose distance to any step of the window is zero is on the route, unless the threshold is
/// negative.
pub proof fn law_on_the_line_is_on_route(
    minimum_horizontal_accuracy: u16,
    max_acceptable_deviation: Binary64,
    user_location: UserLocation,
    lines: Seq<Seq<GeographicCoordinate>>,
    previous: RouteDeviation,
    reports: Seq<StepReportView>,
    i: int,
    d: Binary64,
)
    requires
        reported(lines, reports, i, d),
        d.equals(Binary64 { bits: 0 }),
        !(Binary64 { bits: 0 }).exceeds(max_acceptable_deviation),
    ensures
        verdict::distance_verdict(
            minimum_horizontal_accuracy,
            max_acceptable_deviation,
            TripStateView::Navigating { user_location, remaining_steps: lines, deviation: previous },
            reports,
        ) == RouteDeviation::NoDeviation,
{
    law_closest_step(lines, reports);
}

/// Outside navigation no verdict finds a deviation.
pub proof fn law_only_navigation_deviates<D: RouteDeviationDetector>(
    tracking: RouteDeviationTracking<D>,
    trip: TripStateView,
    reports: Seq<StepReportView>,
)
    requires
        !(tracking is Custom),
        !(trip is Navigating),
    ensures
        tracking.verdict(trip, reports) == Some(RouteDeviation::NoDeviation),
{
}

/// Without a usable line in the window no verdict finds a deviation.
pub proof fn law_no_geometry_no_deviation<D: RouteDeviationDetector>(
    tracking: RouteDeviationTracking<D>,
    user_location: UserLocation,
    lines: Seq<Seq<GeographicCoordinate>>,
    previous: RouteDeviation,
    reports: Seq<StepReportView>,
)
    requires
        !(tracking is Custom),
        forall|i: int| !verdict::inspected(lines, i),
    ensures
        tracking.verdict(
            TripStateView::Navigating { user_location, remaining_steps: lines, deviation: previous },
            reports,
        ) == Some(RouteDeviation::NoDeviation),
{
    law_closest_step(lines, reports);
}

/// A location that is less accurate than required never puts the user off the route, neither by
/// distance nor by heading.
pub proof fn law_inaccurate_location_is_ignored(
    minimum_horizontal_accuracy: u16,
    max_acceptable_deviation: Binary64,
    max_heading_deviation_degrees: Binary64,
    min_speed_for_heading_check: Binary64,
    user_location: UserLocation,
    lines: Seq<Seq<GeographicCoordinate>>,
    previous: RouteDeviation,
    reports: Seq<StepReportView>,
)
    requires
        user_location.horizontal_accuracy.exceeds(
            Binary64::whole(minimum_horizontal_accuracy as nat),
        ),
    ensures
        ({
            let trip = TripStateView::Navigating {
                user_location,
                remaining_steps: lines,
                deviation: previous,
            };
            &&& verdict::distance_verdict(
                minimum_horizontal_accuracy,
                max_acceptable_deviation,
                trip,
                reports,
            ) == RouteDeviation::NoDeviation
            &&& verdict::heading_verdict(
                minimum_horizontal_accuracy,
                max_acceptable_deviation,
                max_heading_deviation_degrees,
                min_speed_for_heading_check,
                trip,
                reports,
            ) == RouteDeviation::NoDeviation
        }),
{
}

/// The verdict depends on nothing but the answers to what was asked: not on steps beyond the
/// window, not on steps without a usable line, and not on bearings that were not asked for.
pub proof fn law_only_asked_reports_matter<D: RouteDeviationDetector>(
    tracking: RouteDeviationTracking<D>,
    trip: TripStateView,
    reports: Seq<StepReportView>,
    others: Seq<StepReportView>,
)
    requires
        forall|i: int|
            (#[trigger] tracking.asks(trip, i)) is Some ==> {
                &&& reports[i].deviation == others[i].deviation
                &&& tracking.asks(trip, i)->0.bearing_tolerance is Some ==> reports[i].bearings
                    == others[i].bearings
            },
    ensures
        tracking.verdict(trip, reports) == tracking.verdict(trip, others),
{
    if let TripStateView::Navigating { user_location, remaining_steps: lines, .. } = trip {
        let asked = match tracking {
            RouteDeviationTracking::StaticThreshold { minimum_horizontal_accuracy, .. } => {
                verdict::accurate(user_location, minimum_horizontal_accuracy)
            },
            RouteDeviationTracking::StaticThresholdWithHeading {
                minimum_horizontal_accuracy,
                ..
            } => verdict::accurate(user_location, minimum_horizontal_accuracy),
            _ => false,
        };
        if asked {
            assert forall|i: int| verdict::inspected(lines, i) implies tracking.asks(
                trip,
                i,
            ) is Some by {}
            assert(verdict::distances(lines, reports) =~= verdict::distances(lines, others)) by {
                assert forall|i: int| 0 <= i < verdict::window_len(lines.len()) implies (
                #[trigger] verdict::distances(lines, reports)[i]) == verdict::distances(
                    lines,
                    others,
                )[i] by {
                    assert(verdict::inspected(lines, i) ==> tracking.asks(trip, i) is Some);
                }
            }
            if let RouteDeviationTracking::StaticThresholdWithHeading {
                max_heading_deviation_degrees: limit,
                min_speed_for_heading_check,
                ..
            } = tracking {
                if verdict::has_heading(user_location, min_speed_for_heading_check) {
                    lemma_same_bearings(
                        lines,
                        reports,
                        others,
                        user_location.course_over_ground->0.degrees,
                        limit,
                    );
                    lemma_same_bearings(
                        lines,
                        others,
                        reports,
                        user_location.course_over_ground->0.degrees,
                        limit,
                    );
                }
            }
        }
    }
}

/// Reports with the same bearings are the wrong way alike.
proof fn lemma_same_bearings(
    lines: Seq<Seq<GeographicCoordinate>>,
    reports: Seq<StepReportView>,
    others: Seq<StepReportView>,
    course: u16,
    limit: Binary64,
)
    requires
        forall|i: int|
            verdict::inspected(lines, i) ==> (#[trigger] reports[i]).bearings == others[i].bearings,
    ensures
        verdict::wrong_way(lines, reports, course, limit) ==> verdict::wrong_way(
            lines,
            others,
            course,
            limit,
        ),
{
    if verdict::wrong_way(lines, reports, course, limit) {
        let (i, j) = choose|i: int, j: int| verdict::candidate(lines, reports, i, j);
        assert(reports[i].bearings == others[i].bearings);
        assert(verdict::candidate(lines, others, i, j));
        assert forall|i: int, j: int| verdict::candidate(lines, others, i, j) implies
            verdict::misaligned(course, #[trigger] others[i].bearings[j], limit) by {
            assert(reports[i].bearings == others[i].bearings);
            assert(verdict::candidate(lines, reports, i, j));
        }
    }
}

/// What lies beyond the window does not matter: trips whose inspected steps have the same lines
/// get the same verdict.
pub proof fn law_steps_beyond_the_window_do_not_matter<D: RouteDeviationDetector>(
    tracking: RouteDeviationTracking<D>,
    user_location: UserLocation,
    lines: Seq<Seq<GeographicCoordinate>>,
    other_lines: Seq<Seq<GeographicCoordinate>>,
    previous: RouteDeviation,
    reports: Seq<StepReportView>,
)
    requires
        verdict::window_len(lines.len()) == verdict::window_len(other_lines.len()),
        forall|i: int|
            0 <= i < verdict::window_len(lines.len()) ==> #[trigger] lines[i] == other_lines[i],
    ensures
        tracking.verdict(
            TripStateView::Navigating { user_location, remaining_steps: lines, deviation: previous },
            reports,
        ) == tracking.verdict(
            TripStateView::Navigating {
                user_location,
                remaining_steps: other_lines,
                deviation: previous,
            },
            reports,
        ),
{
    assert(verdict::distances(lines, reports) =~= verdict::distances(other_lines, reports));
    assert forall|i: int, j: int|
        verdict::candidate(lines, reports, i, j) == verdict::candidate(
            other_lines,
            reports,
            i,
            j,
        ) by {
        assert(0 <= i < verdict::window_len(lines.len()) ==> lines[i] == other_lines[i]);
    }
    if let Some(course) = user_location.course_over_ground {
        if let RouteDeviationTracking::StaticThresholdWithHeading {
            max_heading_deviation_degrees: limit,
            ..
        } = tracking {
            assert(verdict::wrong_way(lines, reports, course.degrees, limit) == verdict::wrong_way(
                other_lines,
                reports,
                course.degrees,
                limit,
            ));
        }
    }
}

/// Alignment with any segment that the user may be on counts as on course: within the threshold
/// of the line, one segment that agrees with the course is enough.
pub proof fn law_aligned_with_any_segment_is_on_course(
    minimum_horizontal_accuracy: u16,
    max_acceptable_deviation: Binary64,
    max_heading_deviation_degrees: Binary64,
    min_speed_for_heading_check: Binary64,
    user_location: UserLocation,
    lines: Seq<Seq<GeographicCoordinate>>,
    previous: RouteDeviation,
    reports: Seq<StepReportView>,
    near: int,
    d: Binary64,
    i: int,
    j: int,
)
    requires
        reported(lines, reports, near, d),
        !d.nan(),
        !d.exceeds(max_acceptable_deviation),
        user_location.course_over_ground is Some,
        verdict::candidate(lines, reports, i, j),
        !verdict::misaligned(
            user_location.course_over_ground->0.degrees,
            reports[i].bearings[j],
            max_heading_deviation_degrees,
        ),
    ensures
        verdict::heading_verdict(
            minimum_horizontal_accuracy,
            max_acceptable_deviation,
            max_heading_deviation_degrees,
            min_speed_for_heading_check,
            TripStateView::Navigating { user_location, remaining_steps: lines, deviation: previous },
            reports,
        ) == RouteDeviation::NoDeviation,
{
    law_closest_step(lines, reports);
}

/// Travel against every segment that the user may be on is off the route, and is reported with a
/// deviation of at least one meter.
pub proof fn law_wrong_way_is_off_route(
    minimum_horizontal_accuracy: u16,
    max_acceptable_deviation: Binary64,
    max_heading_deviation_degrees: Binary64,
    min_speed_for_heading_check: Binary64,
    user_location: UserLocation,
    lines: Seq<Seq<GeographicCoordinate>>,
    previous: RouteDeviation,
    reports: Seq<StepReportView>,
    near: int,
    d: Binary64,
)
    requires
        verdict::accurate(user_location, minimum_horizontal_accuracy),
        verdict::has_heading(user_location, min_speed_for_heading_check),
        reported(lines, reports, near, d),
        !d.exceeds(max_acceptable_deviation),
        !d.nan(),
        verdict::wrong_way(
            lines,
            reports,
            user_location.course_over_ground->0.degrees,
            max_heading_deviation_degrees,
        ),
    ensures
        verdict::heading_verdict(
            minimum_horizontal_accuracy,
            max_acceptable_deviation,
            max_heading_deviation_degrees,
            min_speed_for_heading_check,
            TripStateView::Navigating { user_location, remaining_steps: lines, deviation: previous },
            reports,
        ) matches RouteDeviation::OffRoute { deviation_from_route_line: m } && m.reaches(
            Binary64 { bits: ONE_METER_BITS },
        ),
{
    law_closest_step(lines, reports);
}

/// Whatever distance finds, distance with heading finds too, with the same deviation.
pub proof fn law_heading_check_only_adds(
    minimum_horizontal_accuracy: u16,
    max_acceptable_deviation: Binary64,
    max_heading_deviation_degrees: Binary64,
    min_speed_for_heading_check: Binary64,
    trip: TripStateView,
    reports: Seq<StepReportView>,
)
    ensures
        ({
            let by_distance = verdict::distance_verdict(
                minimum_horizontal_accuracy,
                max_acceptable_deviation,
                trip,
                reports,
            );
            by_distance is OffRoute ==> verdict::heading_verdict(
                minimum_horizontal_accuracy,
                max_acceptable_deviation,
                max_heading_deviation_degrees,
                min_speed_for_heading_check,
                trip,
                reports,
            ) == by_distance
        }),
{
}

/// Of a user who is too slow, or whose course is not known, only the distance is checked.
pub proof fn law_slow_travel_is_judged_by_distance(
    minimum_horizontal_accuracy: u16,
    max_acceptable_deviation: Binary64,
    max_heading_deviation_degrees: Binary64,
    min_speed_for_heading_check: Binary64,
    user_location: UserLocation,
    lines: Seq<Seq<GeographicCoordinate>>,
    previous: RouteDeviation,
    reports: Seq<StepReportView>,
)
    requires
        !verdict::has_heading(user_location, min_speed_for_heading_check),
    ensures
        ({
            let trip = TripStateView::Navigating {
                user_location,
                remaining_steps: lines,
                deviation: previous,
            };
            verdict::heading_verdict(
                minimum_horizontal_accuracy,
                max_acceptable_deviation,
                max_heading_deviation_degrees,
                min_speed_for_heading_check,
                trip,
                reports,
            ) == verdict::distance_verdict(
                minimum_horizontal_accuracy,
                max_acceptable_deviation,
                trip,
                reports,
            )
        }),
{
}

/// No course is more than half a turn from any bearing, so a limit beyond that turns the heading
/// check off.
pub proof fn law_limit_beyond_half_a_turn_never_trips(
    course: u16,
    bearing: Binary64,
    limit: Binary64,
)
    requires
        limit.exceeds(angles::half_turn()),
    ensures
        !verdict::misaligned(course, bearing, limit),
{
    let heading = angles::normalized(Binary64::whole(course as nat));
    arithmetic_laws::law_whole_numbers_exact(course as nat);
    angles::law_normalized(Binary64::whole(course as nat));
    if bearing.finite() {
        angles::law_normalized(bearing);
        let direction = angles::normalized(bearing);
        angles::law_angle_between(heading, direction);
        angles::lemma_turns();
        arithmetic_laws::law_order_of_values(
            angles::angle_between(heading, direction),
            angles::half_turn(),
        );
    } else {
        angles::law_normalized_undefined(bearing);
    }
}

/// For whole degrees, negative ones among them, the check compares the exact distance on the circle
/// with the limit.
pub proof fn law_whole_degrees_misaligned(course: u16, bearing: Binary64, n: int, limit: nat)
    requires
        bearing.finite(),
        bearing.value() == n * arithmetic_laws::one(),
        limit < 0x20_0000_0000_0000,
    ensures
        verdict::misaligned(course, bearing, Binary64::whole(limit)) <==>
            angles::circular_distance((course % 360) as int, n % 360, 360) >= limit,
{
    let c = angles::circular_distance((course % 360) as int, n % 360, 360) as nat;
    arithmetic_laws::law_whole_numbers_exact(course as nat);
    angles::law_whole_degrees_normalized(Binary64::whole(course as nat), course as int);
    angles::law_whole_degrees_normalized(bearing, n);
    angles::law_whole_degrees_between((course % 360) as nat, (n % 360) as nat);
    arithmetic_laws::law_whole_numbers_exact(c);
    arithmetic_laws::law_whole_numbers_exact(limit);
    angles::lemma_turns();
    let one = arithmetic_laws::one();
    assert(c * one >= limit * one <==> c >= limit) by (nonlinear_arith)
        requires
            one > 0,
    ;
    arithmetic_laws::law_order_of_values(Binary64::whole(c), Binary64::whole(limit));
}

} // verus!
