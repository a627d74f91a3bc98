//! What a check comes to for the caller, stated on the fields that the caller fills in.
//!
//! The laws here speak of the location, the lines of the steps and the reports themselves, and of
//! the verdict that a check returns.
use crate::angles;
use crate::arithmetic_laws;
use crate::binary64::Binary64;
use crate::deviation_detection::{
    report_views, RouteDeviation, RouteDeviationDetector, RouteDeviationTracking, StepInquiry,
    StepReport,
};
use crate::models;
use crate::models::{Route, RouteStep, TripState, UserLocation};
use crate::verdict;
use vstd::prelude::*;
use vstd::std_specs::cmp::PartialEqSpec;

verus! {

/// Where the running minimum of distances comes from.
proof fn lemma_closest_index(all: Seq<Option<Binary64>>) -> (k: int)
    requires
        verdict::closest(all) is Some,
    ensures
        0 <= k < all.len(),
        all[k] == verdict::closest(all),
        forall|i: int|
            0 <= i < k && (#[trigger] all[i]) is Some ==> all[i]->0.exceeds(all[k]->0) || (
            all[i]->0.nan() && !all[k]->0.nan()),
        forall|f: int|
            0 <= f < all.len() && (#[trigger] all[f]) is Some && (forall|i: int|
                0 <= i < f ==> (#[trigger] all[i]) is None) ==> {
                &&& all[f]->0.nan() == all[k]->0.nan()
                &&& all[f]->0.nan() ==> f == k
            },
    decreases all.len(),
{
    let before = all.drop_last();
    let end = all.len() - 1;
    assert forall|i: int| 0 <= i < end implies before[i] == #[trigger] all[i] by {}
    verdict::lemma_closest(all);
    verdict::lemma_closest(before);
    if verdict::closest(before) is None {
        assert forall|i: int| 0 <= i < end implies (#[trigger] all[i]) is None by {
            assert(before[i] is None);
        }
        end
    } else {
        let j = lemma_closest_index(before);
        assert(all[j] == before[j]);
        let k = if verdict::closest(all) == verdict::closest(before) {
            j
        } else {
            end
        };
        assert forall|i: int| 0 <= i < k && (#[trigger] all[i]) is Some implies all[i]->0.exceeds(
            all[k]->0,
        ) || (all[i]->0.nan() && !all[k]->0.nan()) by {
            assert(before[i] == all[i]);
        }
        assert forall|f: int|
            0 <= f < all.len() && (#[trigger] all[f]) is Some && (forall|i: int|
                0 <= i < f ==> (#[trigger] all[i]) is None) implies all[f]->0.nan()
            == all[k]->0.nan() && (all[f]->0.nan() ==> f == k) by {
            if f == end {
                assert(all[j] is None);
            } else {
                assert(before[f] == all[f]);
                assert forall|i: int| 0 <= i < f implies (#[trigger] before[i]) is None by {
                    assert(all[i] is None);
                }
            }
        }
        k
    }
}

/// What is inspected, in plain numbers: of the first four remaining steps those whose line has two
/// points or more.
proof fn lemma_inspected(steps: Seq<RouteStep>)
    ensures
        forall|i: int|
            (#[trigger] verdict::inspected(models::lines(steps), i)) <==> (0 <= i < 4 && i
                < steps.len() && steps[i].geometry@.len() >= 2),
{
    let lines = models::lines(steps);
    assert forall|i: int|
        (#[trigger] verdict::inspected(lines, i)) <==> (0 <= i < 4 && i < steps.len()
            && steps[i].geometry@.len() >= 2) by {
        assert(0 <= i < steps.len() ==> lines[i] == steps[i].geometry@);
    }
}

/// The minimum deviation is over the first four remaining steps whose line has two points or more,
/// however many steps remain: there is none exactly if none of these has a distance, no distance
/// of theirs is less, and it is the first of equals. A NaN in front stays; any other is passed over.
pub proof fn law_minimum_over_first_four_steps(
    steps: Seq<RouteStep>,
    reports: Seq<StepReport>,
) -> (k: int)
    requires
        forall|i: int|
            0 <= i < 4 && i < steps.len() && (#[trigger] steps[i]).geometry@.len() >= 2 ==> i
                < reports.len(),
    ensures
        ({
            let least = verdict::closest(
                verdict::distances(models::lines(steps), report_views(reports)),
            );
            &&& least is None <==> forall|i: int|
                0 <= i < 4 && i < steps.len() && steps[i].geometry@.len() >= 2 ==> (
                #[trigger] reports[i]).deviation is None
            &&& least is Some ==> 0 <= k < 4 && k < steps.len() && steps[k].geometry@.len() >= 2
                && reports[k].deviation == least
            &&& least is Some ==> forall|i: int|
                0 <= i < 4 && i < steps.len() && steps[i].geometry@.len() >= 2 && (
                #[trigger] reports[i]).deviation is Some ==> {
                    &&& !least->0.exceeds(reports[i].deviation->0)
                    &&& i < k ==> reports[i].deviation->0.exceeds(least->0) || (
                    reports[i].deviation->0.nan() && !least->0.nan())
                }
            &&& least is Some ==> forall|f: int|
                0 <= f < 4 && f < steps.len() && steps[f].geometry@.len() >= 2 && (
                #[trigger] reports[f]).deviation is Some && (forall|i: int|
                    0 <= i < f && steps[i].geometry@.len() >= 2 ==> (
                    #[trigger] reports[i]).deviation is None) ==> {
                    &&& reports[f].deviation->0.nan() == least->0.nan()
                    &&& reports[f].deviation->0.nan() ==> f == k
                }
        }),
{
    let lines = models::lines(steps);
    let views = report_views(reports);
    let all = verdict::distances(lines, views);
    lemma_inspected(steps);
    verdict::lemma_closest(all);
    assert forall|i: int| 0 <= i < all.len() implies #[trigger] all[i] == (if verdict::inspected(
        lines,
        i,
    ) {
        reports[i].deviation
    } else {
        None
    }) by {
        if verdict::inspected(lines, i) {
            assert(steps[i].geometry@.len() >= 2);
            assert(views[i] == reports[i]@);
        }
    }
    assert forall|i: int| verdict::inspected(lines, i) implies 0 <= i < all.len() && all[i] == (
    #[trigger] reports[i]).deviation by {}
    assert forall|i: int|
        0 <= i < 4 && i < steps.len() && steps[i].geometry@.len() >= 2 implies 0 <= i < all.len()
        && all[i] == (#[trigger] reports[i]).deviation by {
        assert(verdict::inspected(lines, i));
    }
    if verdict::closest(all) is Some {
        let k = lemma_closest_index(all);
        assert(verdict::inspected(lines, k));
        assert forall|f: int|
            0 <= f < 4 && f < steps.len() && steps[f].geometry@.len() >= 2 && (
            #[trigger] reports[f]).deviation is Some && (forall|i: int|
                0 <= i < f && steps[i].geometry@.len() >= 2 ==> (
                #[trigger] reports[i]).deviation is None) implies reports[f].deviation->0.nan()
            == all[k]->0.nan() && (reports[f].deviation->0.nan() ==> f == k) by {
            assert(verdict::inspected(lines, f));
            assert(all[f] is Some);
            assert forall|i: int| 0 <= i < f implies (#[trigger] all[i]) is None by {
                assert(verdict::inspected(lines, i) ==> reports[i].deviation is None);
            }
        }
        k
    } else {
        assert forall|i: int|
            0 <= i < 4 && i < steps.len() && steps[i].geometry@.len() >= 2 implies (
        #[trigger] reports[i]).deviation is None by {
            assert(all[i] is None);
        }
        0
    }
}

/// Without a heading check, a location whose horizontal accuracy does not exceed the minimum is off the
/// route where every distance reported for the first four steps exceeds the threshold and there is
/// one, whatever else the location holds; the deviation is the first of the least distances.
pub proof fn law_far_from_every_step_is_flagged_by_distance_mode<D: RouteDeviationDetector>(
    minimum_horizontal_accuracy: u16,
    max_acceptable_deviation: Binary64,
    user_location: UserLocation,
    remaining_steps: Vec<RouteStep>,
    deviation: RouteDeviation,
    reports: Seq<StepReport>,
)
    requires
        forall|i: int|
            0 <= i < 4 && i < remaining_steps@.len() && (
            #[trigger] remaining_steps@[i]).geometry@.len() >= 2 ==> i < reports.len(),
        !user_location.horizontal_accuracy.exceeds(
            Binary64::whole(minimum_horizontal_accuracy as nat),
        ),
        exists|i: int|
            0 <= i < 4 && i < remaining_steps@.len() && remaining_steps@[i].geometry@.len() >= 2 && (
            #[trigger] reports[i]).deviation is Some,
        forall|i: int|
            0 <= i < 4 && i < remaining_steps@.len() && remaining_steps@[i].geometry@.len() >= 2 && (
            #[trigger] reports[i]).deviation is Some ==> reports[i].deviation->0.exceeds(max_acceptable_deviation),
    ensures
        ({
            let tracking = RouteDeviationTracking::<D>::StaticThreshold {
                minimum_horizontal_accuracy,
                max_acceptable_deviation,
            };
            let trip = TripState::Navigating { user_location, remaining_steps, deviation };
            let outcome = tracking.verdict(trip@, report_views(reports));
            let steps = remaining_steps@;
            exists|k: int|
                {
                    &&& 0 <= k < 4 && k < steps.len() && steps[k].geometry@.len() >= 2
                    &&& (#[trigger] reports[k]).deviation is Some
                    &&& outcome == Some(
                        RouteDeviation::OffRoute {
                            deviation_from_route_line: reports[k].deviation->0,
                        },
                    )
                    &&& forall|i: int|
                        0 <= i < 4 && i < steps.len() && steps[i].geometry@.len() >= 2 && (
            #[trigger] reports[i]).deviation is Some ==> {
                            &&& reports[i].deviation->0.reaches(reports[k].deviation->0)
                            &&& i < k ==> reports[i].deviation->0.exceeds(reports[k].deviation->0)
                        }
                }
        }),
{
    let k = law_minimum_over_first_four_steps(remaining_steps@, reports);
    assert(reports[k].deviation is Some);
}

/// With a heading check, a location whose horizontal accuracy does not exceed the minimum is off the
/// route where every distance reported for the first four steps exceeds the threshold and there is
/// one, whatever else the location holds; the deviation is the first of the least distances.
pub proof fn law_far_from_every_step_is_flagged_by_heading_mode<D: RouteDeviationDetector>(
    minimum_horizontal_accuracy: u16,
    max_acceptable_deviation: Binary64,
    max_heading_deviation_degrees: Binary64,
    min_speed_for_heading_check: Binary64,
    user_location: UserLocation,
    remaining_steps: Vec<RouteStep>,
    deviation: RouteDeviation,
    reports: Seq<StepReport>,
)
    requires
        forall|i: int|
            0 <= i < 4 && i < remaining_steps@.len() && (
            #[trigger] remaining_steps@[i]).geometry@.len() >= 2 ==> i < reports.len(),
        !user_location.horizontal_accuracy.exceeds(
            Binary64::whole(minimum_horizontal_accuracy as nat),
        ),
        exists|i: int|
            0 <= i < 4 && i < remaining_steps@.len() && remaining_steps@[i].geometry@.len() >= 2 && (
            #[trigger] reports[i]).deviation is Some,
        forall|i: int|
            0 <= i < 4 && i < remaining_steps@.len() && remaining_steps@[i].geometry@.len() >= 2 && (
            #[trigger] reports[i]).deviation is Some ==> reports[i].deviation->0.exceeds(max_acceptable_deviation),
    ensures
        ({
            let tracking = RouteDeviationTracking::<D>::StaticThresholdWithHeading {
                minimum_horizontal_accuracy,
                max_acceptable_deviation,
                max_heading_deviation_degrees,
                min_speed_for_heading_check,
            };
            let trip = TripState::Navigating { user_location, remaining_steps, deviation };
            let outcome = tracking.verdict(trip@, report_views(reports));
            let steps = remaining_steps@;
            exists|k: int|
                {
                    &&& 0 <= k < 4 && k < steps.len() && steps[k].geometry@.len() >= 2
                    &&& (#[trigger] reports[k]).deviation is Some
                    &&& outcome == Some(
                        RouteDeviation::OffRoute {
                            deviation_from_route_line: reports[k].deviation->0,
                        },
                    )
                    &&& forall|i: int|
                        0 <= i < 4 && i < steps.len() && steps[i].geometry@.len() >= 2 && (
            #[trigger] reports[i]).deviation is Some ==> {
                            &&& reports[i].deviation->0.reaches(reports[k].deviation->0)
                            &&& i < k ==> reports[i].deviation->0.exceeds(reports[k].deviation->0)
                        }
                }
        }),
{
    let k = law_minimum_over_first_four_steps(remaining_steps@, reports);
    assert(reports[k].deviation is Some);
}

/// Without a heading check, one number among the distances reported for the first four steps that
/// does not exceed the threshold keeps the user on the route.
pub proof fn law_near_step_is_passed_by_distance_mode<D: RouteDeviationDetector>(
    minimum_horizontal_accuracy: u16,
    max_acceptable_deviation: Binary64,
    user_location: UserLocation,
    remaining_steps: Vec<RouteStep>,
    deviation: RouteDeviation,
    reports: Seq<StepReport>,
    near: int,
)
    requires
        forall|i: int|
            0 <= i < 4 && i < remaining_steps@.len() && (
            #[trigger] remaining_steps@[i]).geometry@.len() >= 2 ==> i < reports.len(),
        0 <= near < 4 && near < remaining_steps@.len() && remaining_steps@[near].geometry@.len() >= 2,
        reports[near].deviation is Some,
        !reports[near].deviation->0.nan(),
        !reports[near].deviation->0.exceeds(max_acceptable_deviation),
    ensures
        ({
            let tracking = RouteDeviationTracking::<D>::StaticThreshold {
                minimum_horizontal_accuracy,
                max_acceptable_deviation,
            };
            let trip = TripState::Navigating { user_location, remaining_steps, deviation };
            let outcome = tracking.verdict(trip@, report_views(reports));
            outcome == Some(RouteDeviation::NoDeviation)
        }),
{
    let k = law_minimum_over_first_four_steps(remaining_steps@, reports);
}

/// A location whose horizontal accuracy exceeds the minimum keeps the user on the route.
pub proof fn law_inaccurate_location_is_passed_by_both_modes<D: RouteDeviationDetector>(
    minimum_horizontal_accuracy: u16,
    max_acceptable_deviation: Binary64,
    max_heading_deviation_degrees: Binary64,
    min_speed_for_heading_check: Binary64,
    user_location: UserLocation,
    remaining_steps: Vec<RouteStep>,
    deviation: RouteDeviation,
    reports: Seq<StepReport>,
)
    requires
        forall|i: int|
            0 <= i < 4 && i < remaining_steps@.len() && (
            #[trigger] remaining_steps@[i]).geometry@.len() >= 2 ==> i < reports.len(),
        user_location.horizontal_accuracy.exceeds(
            Binary64::whole(minimum_horizontal_accuracy as nat),
        ),
    ensures
        ({
            let tracking = RouteDeviationTracking::<D>::StaticThresholdWithHeading {
                minimum_horizontal_accuracy,
                max_acceptable_deviation,
                max_heading_deviation_degrees,
                min_speed_for_heading_check,
            };
            let trip = TripState::Navigating { user_location, remaining_steps, deviation };
            let outcome = tracking.verdict(trip@, report_views(reports));
            let steps = remaining_steps@;
            let plain = RouteDeviationTracking::<D>::StaticThreshold {
                minimum_horizontal_accuracy,
                max_acceptable_deviation,
            };
            &&& outcome == Some(RouteDeviation::NoDeviation)
            &&& plain.verdict(trip@, report_views(reports)) == Some(RouteDeviation::NoDeviation)
        }),
{
}

/// Without a distance for any of the first four steps the user is on the route.
pub proof fn law_no_distance_is_passed_by_both_modes<D: RouteDeviationDetector>(
    minimum_horizontal_accuracy: u16,
    max_acceptable_deviation: Binary64,
    max_heading_deviation_degrees: Binary64,
    min_speed_for_heading_check: Binary64,
    user_location: UserLocation,
    remaining_steps: Vec<RouteStep>,
    deviation: RouteDeviation,
    reports: Seq<StepReport>,
)
    requires
        forall|i: int|
            0 <= i < 4 && i < remaining_steps@.len() && (
            #[trigger] remaining_steps@[i]).geometry@.len() >= 2 ==> i < reports.len(),
        forall|i: int|
            0 <= i < 4 && i < remaining_steps@.len() && remaining_steps@[i].geometry@.len() >= 2 ==> (
            #[trigger] reports[i]).deviation is None,
    ensures
        ({
            let tracking = RouteDeviationTracking::<D>::StaticThresholdWithHeading {
                minimum_horizontal_accuracy,
                max_acceptable_deviation,
                max_heading_deviation_degrees,
                min_speed_for_heading_check,
            };
            let trip = TripState::Navigating { user_location, remaining_steps, deviation };
            let outcome = tracking.verdict(trip@, report_views(reports));
            let steps = remaining_steps@;
            let plain = RouteDeviationTracking::<D>::StaticThreshold {
                minimum_horizontal_accuracy,
                max_acceptable_deviation,
            };
            &&& outcome == Some(RouteDeviation::NoDeviation)
            &&& plain.verdict(trip@, report_views(reports)) == Some(RouteDeviation::NoDeviation)
        }),
{
    let k = law_minimum_over_first_four_steps(remaining_steps@, reports);
}

/// Where the first distance is a NaN the user is on the route as far as distance goes. Where it is a
/// number, later NaNs are passed over: the user is off the route, in both modes, where every number
/// exceeds the threshold, by the first of the least numbers.
pub proof fn law_first_distance_decides_about_nans<D: RouteDeviationDetector>(
    minimum_horizontal_accuracy: u16,
    max_acceptable_deviation: Binary64,
    max_heading_deviation_degrees: Binary64,
    min_speed_for_heading_check: Binary64,
    user_location: UserLocation,
    remaining_steps: Vec<RouteStep>,
    deviation: RouteDeviation,
    reports: Seq<StepReport>,
    first: int,
)
    requires
        forall|i: int|
            0 <= i < 4 && i < remaining_steps@.len() && (
            #[trigger] remaining_steps@[i]).geometry@.len() >= 2 ==> i < reports.len(),
        !user_location.horizontal_accuracy.exceeds(
            Binary64::whole(minimum_horizontal_accuracy as nat),
        ),
        0 <= first < 4 && first < remaining_steps@.len() && remaining_steps@[first].geometry@.len() >= 2,
        reports[first].deviation is Some,
        forall|i: int|
            0 <= i < first && remaining_steps@[i].geometry@.len() >= 2 ==> (
            #[trigger] reports[i]).deviation is None,
    ensures
        ({
            let tracking = RouteDeviationTracking::<D>::StaticThresholdWithHeading {
                minimum_horizontal_accuracy,
                max_acceptable_deviation,
                max_heading_deviation_degrees,
                min_speed_for_heading_check,
            };
            let trip = TripState::Navigating { user_location, remaining_steps, deviation };
            let outcome = tracking.verdict(trip@, report_views(reports));
            let steps = remaining_steps@;
            let plain = RouteDeviationTracking::<D>::StaticThreshold {
                minimum_horizontal_accuracy,
                max_acceptable_deviation,
            }.verdict(trip@, report_views(reports));
            &&& reports[first].deviation->0.nan() ==> plain == Some(RouteDeviation::NoDeviation)
            &&& !reports[first].deviation->0.nan() && (forall|i: int|
                0 <= i < 4 && i < steps.len() && steps[i].geometry@.len() >= 2 && (
            #[trigger] reports[i]).deviation is Some && !reports[i].deviation->0.nan()
                    ==> reports[i].deviation->0.exceeds(max_acceptable_deviation)) ==> outcome
                == plain && exists|k: int|
                {
                    &&& 0 <= k < 4 && k < steps.len() && steps[k].geometry@.len() >= 2
                    &&& (#[trigger] reports[k]).deviation is Some
                    &&& outcome == Some(
                        RouteDeviation::OffRoute {
                            deviation_from_route_line: reports[k].deviation->0,
                        },
                    )
                    &&& forall|i: int|
                        0 <= i < 4 && i < steps.len() && steps[i].geometry@.len() >= 2 && (
            #[trigger] reports[i]).deviation is Some && !reports[i].deviation->0.nan() ==> {
                            &&& reports[i].deviation->0.reaches(reports[k].deviation->0)
                            &&& i < k ==> reports[i].deviation->0.exceeds(reports[k].deviation->0)
                        }
                }
        }),
{
    let k = law_minimum_over_first_four_steps(remaining_steps@, reports);
    assert(reports[k].deviation is Some);
    assert(reports[first].deviation is Some);
}

/// What it takes to be the wrong way, on the reports themselves.
proof fn lemma_wrong_way(
    steps: Seq<RouteStep>,
    reports: Seq<StepReport>,
    course: u16,
    limit: Binary64,
)
    requires
        forall|i: int|
            0 <= i < 4 && i < steps.len() && (#[trigger] steps[i]).geometry@.len() >= 2 ==> i
                < reports.len(),
    ensures
        verdict::wrong_way(models::lines(steps), report_views(reports), course, limit) <==> {
            &&& exists|i: int|
                0 <= i < 4 && i < steps.len() && steps[i].geometry@.len() >= 2 && (
                #[trigger] reports[i]).bearings@.len() > 0
            &&& forall|i: int, j: int|
                0 <= i < 4 && i < steps.len() && steps[i].geometry@.len() >= 2 && 0 <= j
                    < reports[i].bearings@.len() ==> verdict::misaligned(
                    course,
                    #[trigger] reports[i].bearings@[j],
                    limit,
                )
        },
{
    let lines = models::lines(steps);
    let views = report_views(reports);
    lemma_inspected(steps);
    assert forall|i: int| verdict::inspected(lines, i) implies (#[trigger] views[i]).bearings
        == reports[i].bearings@ by {
        assert(steps[i].geometry@.len() >= 2);
    }
    assert forall|i: int, j: int| #[trigger] verdict::candidate(lines, views, i, j) implies
        0 <= i < 4 && i < steps.len() && steps[i].geometry@.len() >= 2 && 0 <= j < reports[i].bearings@.len()
        && views[i].bearings[j] == reports[i].bearings@[j] by {
        assert(views[i].bearings == reports[i].bearings@);
    }
    assert forall|i: int, j: int|
        #![trigger reports[i].bearings@[j]]
        0 <= i < 4 && i < steps.len() && steps[i].geometry@.len() >= 2 && 0 <= j < reports[i].bearings@.len()
        implies verdict::candidate(lines, views, i, j) && views[i].bearings[j]
        == reports[i].bearings@[j] by {
        assert(verdict::inspected(lines, i));
        assert(views[i].bearings == reports[i].bearings@);
    }
    if verdict::wrong_way(lines, views, course, limit) {
        let (i, j) = choose|i: int, j: int| verdict::candidate(lines, views, i, j);
        assert(reports[i].bearings@[j] == views[i].bearings[j]);
        assert forall|i: int, j: int|
            0 <= i < 4 && i < steps.len() && steps[i].geometry@.len() >= 2 && 0 <= j
                < reports[i].bearings@.len() implies verdict::misaligned(
            course,
            #[trigger] reports[i].bearings@[j],
            limit,
        ) by {
            assert(verdict::candidate(lines, views, i, j));
        }
    } else if exists|i: int|
        0 <= i < 4 && i < steps.len() && steps[i].geometry@.len() >= 2 && (
        #[trigger] reports[i]).bearings@.len() > 0 {
        let a = choose|i: int|
            0 <= i < 4 && i < steps.len() && steps[i].geometry@.len() >= 2 && (
            #[trigger] reports[i]).bearings@.len() > 0;
        assert(verdict::inspected(lines, a));
        assert(views[a].bearings == reports[a].bearings@);
        assert(verdict::candidate(lines, views, a, 0));
        let (i, j) = choose|i: int, j: int|
            verdict::candidate(lines, views, i, j) && !verdict::misaligned(
                course,
                #[trigger] views[i].bearings[j],
                limit,
            );
        assert(!verdict::misaligned(course, reports[i].bearings@[j], limit));
    }
}

/// With a known course, a speed that reaches the minimum, a location accurate enough and a step
/// within the threshold, the user is off the route where a bearing is reported for any of the first
/// four steps and every bearing reported for any of them is at least the limit away from the course,
/// whatever the accuracies of course and speed.
///
/// The deviation is exactly one meter where a step is reported within a meter; otherwise, unless the
/// first distance is a NaN, it is the first of the least numbers.
pub proof fn law_wrong_way_is_flagged_on_any_step<D: RouteDeviationDetector>(
    minimum_horizontal_accuracy: u16,
    max_acceptable_deviation: Binary64,
    max_heading_deviation_degrees: Binary64,
    min_speed_for_heading_check: Binary64,
    user_location: UserLocation,
    remaining_steps: Vec<RouteStep>,
    deviation: RouteDeviation,
    reports: Seq<StepReport>,
    near: int,
    with_bearing: int,
)
    requires
        forall|i: int|
            0 <= i < 4 && i < remaining_steps@.len() && (
            #[trigger] remaining_steps@[i]).geometry@.len() >= 2 ==> i < reports.len(),
        !user_location.horizontal_accuracy.exceeds(
            Binary64::whole(minimum_horizontal_accuracy as nat),
        ),
        0 <= near < 4 && near < remaining_steps@.len() && remaining_steps@[near].geometry@.len() >= 2,
        reports[near].deviation is Some,
        !reports[near].deviation->0.nan(),
        !reports[near].deviation->0.exceeds(max_acceptable_deviation),
        user_location.course_over_ground is Some,
        (match user_location.speed {
            Some(speed) => speed.value,
            None => Binary64 { bits: 0 },
        }).reaches(min_speed_for_heading_check),
        0 <= with_bearing < 4 && with_bearing < remaining_steps@.len() && remaining_steps@[with_bearing].geometry@.len() >= 2,
        reports[with_bearing].bearings@.len() > 0,
        forall|i: int, j: int|
            0 <= i < 4 && i < remaining_steps@.len() && remaining_steps@[i].geometry@.len() >= 2 && 0 <= j
                < reports[i].bearings@.len() ==> angles::angle_between(
                angles::normalized(Binary64::whole(user_location.course_over_ground->0.degrees as nat)),
                angles::normalized(#[trigger] reports[i].bearings@[j]),
            ).reaches(max_heading_deviation_degrees),
    ensures
        ({
            let tracking = RouteDeviationTracking::<D>::StaticThresholdWithHeading {
                minimum_horizontal_accuracy,
                max_acceptable_deviation,
                max_heading_deviation_degrees,
                min_speed_for_heading_check,
            };
            let trip = TripState::Navigating { user_location, remaining_steps, deviation };
            let outcome = tracking.verdict(trip@, report_views(reports));
            let steps = remaining_steps@;
            &&& outcome is Some && outcome->0 is OffRoute
            &&& (exists|i: int|
                0 <= i < 4 && i < steps.len() && steps[i].geometry@.len() >= 2 && (
            #[trigger] reports[i]).deviation is Some && !reports[i].deviation->0.nan()
                    && !reports[i].deviation->0.exceeds(Binary64 { bits: 0x3ff0_0000_0000_0000 }))
                ==> outcome == Some(
                RouteDeviation::OffRoute {
                    deviation_from_route_line: Binary64 { bits: 0x3ff0_0000_0000_0000 },
                },
            )
            &&& (forall|f: int|
                0 <= f < 4 && f < steps.len() && steps[f].geometry@.len() >= 2 && (
                #[trigger] reports[f]).deviation is Some && (forall|i: int|
                    0 <= i < f && steps[i].geometry@.len() >= 2 ==> (
                    #[trigger] reports[i]).deviation is None) ==> !reports[f].deviation->0.nan())
                && (forall|i: int|
                0 <= i < 4 && i < steps.len() && steps[i].geometry@.len() >= 2 && (
                #[trigger] reports[i]).deviation is Some && !reports[i].deviation->0.nan()
                    ==> reports[i].deviation->0.exceeds(Binary64 { bits: 0x3ff0_0000_0000_0000 }))
                ==> exists|k: int|
                {
                    &&& 0 <= k < 4 && k < steps.len() && steps[k].geometry@.len() >= 2
                    &&& (#[trigger] reports[k]).deviation is Some
                    &&& outcome == Some(
                        RouteDeviation::OffRoute {
                            deviation_from_route_line: reports[k].deviation->0,
                        },
                    )
                    &&& forall|i: int|
                        0 <= i < 4 && i < steps.len() && steps[i].geometry@.len() >= 2 && (
                        #[trigger] reports[i]).deviation is Some && !reports[i].deviation->0.nan() ==> {
                            &&& reports[i].deviation->0.reaches(reports[k].deviation->0)
                            &&& i < k ==> reports[i].deviation->0.exceeds(reports[k].deviation->0)
                        }
                }
        }),
{
    let k = law_minimum_over_first_four_steps(remaining_steps@, reports);
    assert(reports[k].deviation is Some);
    lemma_wrong_way(
        remaining_steps@,
        reports,
        user_location.course_over_ground->0.degrees,
        max_heading_deviation_degrees,
    );
    assert(reports[with_bearing].bearings@.len() > 0);
    assert(reports[near].deviation is Some);
    if reports[k].deviation->0.nan() {
        assert(reports[k].deviation->0.maximum(Binary64 { bits: 0x3ff0_0000_0000_0000 }) == Binary64 {
            bits: 0x3ff0_0000_0000_0000,
        });
    }
}

/// Where the first distance is a NaN, only the heading can put the user off the route, and the
/// deviation is then one meter.
pub proof fn law_wrong_way_with_a_nan_in_front_is_one_meter<D: RouteDeviationDetector>(
    minimum_horizontal_accuracy: u16,
    max_acceptable_deviation: Binary64,
    max_heading_deviation_degrees: Binary64,
    min_speed_for_heading_check: Binary64,
    user_location: UserLocation,
    remaining_steps: Vec<RouteStep>,
    deviation: RouteDeviation,
    reports: Seq<StepReport>,
    first: int,
)
    requires
        forall|i: int|
            0 <= i < 4 && i < remaining_steps@.len() && (
            #[trigger] remaining_steps@[i]).geometry@.len() >= 2 ==> i < reports.len(),
        !user_location.horizontal_accuracy.exceeds(
            Binary64::whole(minimum_horizontal_accuracy as nat),
        ),
        0 <= first < 4 && first < remaining_steps@.len() && remaining_steps@[first].geometry@.len() >= 2,
        reports[first].deviation is Some,
        forall|i: int|
            0 <= i < first && remaining_steps@[i].geometry@.len() >= 2 ==> (
            #[trigger] reports[i]).deviation is None,
        reports[first].deviation->0.nan(),
    ensures
        ({
            let tracking = RouteDeviationTracking::<D>::StaticThresholdWithHeading {
                minimum_horizontal_accuracy,
                max_acceptable_deviation,
                max_heading_deviation_degrees,
                min_speed_for_heading_check,
            };
            let trip = TripState::Navigating { user_location, remaining_steps, deviation };
            let outcome = tracking.verdict(trip@, report_views(reports));
            let steps = remaining_steps@;
            let known = user_location.course_over_ground is Some && (match user_location.speed {
                Some(speed) => speed.value,
                None => Binary64 { bits: 0 },
            }).reaches(min_speed_for_heading_check);
            let against = (exists|i: int|
                0 <= i < 4 && i < steps.len() && steps[i].geometry@.len() >= 2 && (
                #[trigger] reports[i]).bearings@.len() > 0) && (forall|i: int, j: int|
                0 <= i < 4 && i < steps.len() && steps[i].geometry@.len() >= 2 && 0 <= j
                    < reports[i].bearings@.len() ==> angles::angle_between(
                angles::normalized(Binary64::whole(user_location.course_over_ground->0.degrees as nat)),
                angles::normalized(#[trigger] reports[i].bearings@[j]),
            ).reaches(max_heading_deviation_degrees));
            outcome == Some(
                if known && against {
                    RouteDeviation::OffRoute {
                        deviation_from_route_line: Binary64 { bits: 0x3ff0_0000_0000_0000 },
                    }
                } else {
                    RouteDeviation::NoDeviation
                },
            )
        }),
{
    let k = law_minimum_over_first_four_steps(remaining_steps@, reports);
    assert(reports[k].deviation is Some);
    assert(reports[first].deviation is Some);
    lemma_wrong_way(
        remaining_steps@,
        reports,
        user_location.course_over_ground->0.degrees,
        max_heading_deviation_degrees,
    );
}

/// Within the threshold of a step, the heading does not put the user off the route where the course
/// is not known, where the speed is below the minimum or not known and the minimum is above zero, or
/// where no bearing is reported for the first four steps.
pub proof fn law_heading_check_does_not_apply<D: RouteDeviationDetector>(
    minimum_horizontal_accuracy: u16,
    max_acceptable_deviation: Binary64,
    max_heading_deviation_degrees: Binary64,
    min_speed_for_heading_check: Binary64,
    user_location: UserLocation,
    remaining_steps: Vec<RouteStep>,
    deviation: RouteDeviation,
    reports: Seq<StepReport>,
    near: int,
)
    requires
        forall|i: int|
            0 <= i < 4 && i < remaining_steps@.len() && (
            #[trigger] remaining_steps@[i]).geometry@.len() >= 2 ==> i < reports.len(),
        0 <= near < 4 && near < remaining_steps@.len() && remaining_steps@[near].geometry@.len() >= 2,
        reports[near].deviation is Some,
        !reports[near].deviation->0.nan(),
        !reports[near].deviation->0.exceeds(max_acceptable_deviation),
        user_location.course_over_ground is None || !(match user_location.speed {
            Some(speed) => speed.value,
            None => Binary64 { bits: 0 },
        }).reaches(min_speed_for_heading_check) || (forall|i: int|
            0 <= i < 4 && i < remaining_steps@.len() && remaining_steps@[i].geometry@.len() >= 2 ==> (
            #[trigger] reports[i]).bearings@.len() == 0),
    ensures
        ({
            let tracking = RouteDeviationTracking::<D>::StaticThresholdWithHeading {
                minimum_horizontal_accuracy,
                max_acceptable_deviation,
                max_heading_deviation_degrees,
                min_speed_for_heading_check,
            };
            let trip = TripState::Navigating { user_location, remaining_steps, deviation };
            let outcome = tracking.verdict(trip@, report_views(reports));
            outcome == Some(RouteDeviation::NoDeviation)
        }),
{
    let k = law_minimum_over_first_four_steps(remaining_steps@, reports);
    if verdict::has_heading(user_location, min_speed_for_heading_check) {
        lemma_wrong_way(
            remaining_steps@,
            reports,
            user_location.course_over_ground->0.degrees,
            max_heading_deviation_degrees,
        );
    }
}

/// Within the threshold of a step, one bearing among those reported for the first four steps that is
/// less than the limit away from the course keeps the user on the route.
pub proof fn law_one_aligned_bearing_is_on_course<D: RouteDeviationDetector>(
    minimum_horizontal_accuracy: u16,
    max_acceptable_deviation: Binary64,
    max_heading_deviation_degrees: Binary64,
    min_speed_for_heading_check: Binary64,
    user_location: UserLocation,
    remaining_steps: Vec<RouteStep>,
    deviation: RouteDeviation,
    reports: Seq<StepReport>,
    near: int,
    with_bearing: int,
    bearing: int,
)
    requires
        forall|i: int|
            0 <= i < 4 && i < remaining_steps@.len() && (
            #[trigger] remaining_steps@[i]).geometry@.len() >= 2 ==> i < reports.len(),
        0 <= near < 4 && near < remaining_steps@.len() && remaining_steps@[near].geometry@.len() >= 2,
        reports[near].deviation is Some,
        !reports[near].deviation->0.nan(),
        !reports[near].deviation->0.exceeds(max_acceptable_deviation),
        user_location.course_over_ground is Some,
        0 <= with_bearing < 4 && with_bearing < remaining_steps@.len() && remaining_steps@[with_bearing].geometry@.len() >= 2,
        0 <= bearing < reports[with_bearing].bearings@.len(),
        !angles::angle_between(
                angles::normalized(Binary64::whole(user_location.course_over_ground->0.degrees as nat)),
                angles::normalized(reports[with_bearing].bearings@[bearing]),
            ).reaches(max_heading_deviation_degrees),
    ensures
        ({
            let tracking = RouteDeviationTracking::<D>::StaticThresholdWithHeading {
                minimum_horizontal_accuracy,
                max_acceptable_deviation,
                max_heading_deviation_degrees,
                min_speed_for_heading_check,
            };
            let trip = TripState::Navigating { user_location, remaining_steps, deviation };
            let outcome = tracking.verdict(trip@, report_views(reports));
            outcome == Some(RouteDeviation::NoDeviation)
        }),
{
    let k = law_minimum_over_first_four_steps(remaining_steps@, reports);
    lemma_wrong_way(
        remaining_steps@,
        reports,
        user_location.course_over_ground->0.degrees,
        max_heading_deviation_degrees,
    );
    assert(!verdict::misaligned(
        user_location.course_over_ground->0.degrees,
        reports[with_bearing].bearings@[bearing],
        max_heading_deviation_degrees,
    ));
}

/// Disabled tracking never finds a deviation, and custom tracking leaves the verdict to the detector.
pub proof fn law_modes_without_a_threshold<D: RouteDeviationDetector>(
    tracking: RouteDeviationTracking<D>,
    trip: TripState,
    reports: Seq<StepReport>,
)
    ensures
        tracking matches RouteDeviationTracking::Disabled ==> tracking.verdict(
            trip@,
            report_views(reports),
        ) == Some(RouteDeviation::NoDeviation),
        (tracking matches RouteDeviationTracking::Custom { .. }) <==> tracking.verdict(
            trip@,
            report_views(reports),
        ) is None,
{
}

/// Before the trip has begun and after it has ended no mode with a verdict of its own finds a
/// deviation.
pub proof fn law_only_trips_under_way_deviate<D: RouteDeviationDetector>(
    tracking: RouteDeviationTracking<D>,
    trip: TripState,
    reports: Seq<StepReport>,
)
    requires
        (trip matches TripState::Idle { .. }) || (trip matches TripState::Complete { .. }),
        !(tracking matches RouteDeviationTracking::Custom { .. }),
    ensures
        tracking.verdict(trip@, report_views(reports)) == Some(RouteDeviation::NoDeviation),
{
}

/// What is measured: for a location accurate enough, each of the first four remaining steps whose
/// line has two points or more, and no other step; from the user's position, along the step's own
/// line. Bearings are asked for within the threshold, and only where the heading is checked.
pub proof fn law_what_is_measured<D: RouteDeviationDetector>(
    tracking: RouteDeviationTracking<D>,
    user_location: UserLocation,
    remaining_steps: Vec<RouteStep>,
    deviation: RouteDeviation,
    i: int,
)
    ensures
        ({
            let trip = TripState::Navigating { user_location, remaining_steps, deviation };
            let question = tracking.asks(trip@, i);
            let steps = remaining_steps@;
            match tracking {
                RouteDeviationTracking::StaticThreshold { minimum_horizontal_accuracy, .. } => {
                    &&& question is Some <==> {
                        &&& !user_location.horizontal_accuracy.exceeds(
                            Binary64::whole(minimum_horizontal_accuracy as nat),
                        )
                        &&& 0 <= i < 4
                        &&& i < steps.len()
                        &&& steps[i].geometry@.len() >= 2
                    }
                    &&& question is Some ==> {
                        &&& question->0.point == user_location.coordinates
                        &&& question->0.line == steps[i].geometry@
                        &&& question->0.bearing_tolerance is None
                    }
                },
                RouteDeviationTracking::StaticThresholdWithHeading {
                    minimum_horizontal_accuracy,
                    max_acceptable_deviation,
                    min_speed_for_heading_check,
                    ..
                } => {
                    &&& question is Some <==> {
                        &&& !user_location.horizontal_accuracy.exceeds(
                            Binary64::whole(minimum_horizontal_accuracy as nat),
                        )
                        &&& 0 <= i < 4
                        &&& i < steps.len()
                        &&& steps[i].geometry@.len() >= 2
                    }
                    &&& question is Some ==> {
                        &&& question->0.point == user_location.coordinates
                        &&& question->0.line == steps[i].geometry@
                        &&& question->0.bearing_tolerance == if user_location.course_over_ground
                            is Some && (match user_location.speed {
                            Some(speed) => speed.value,
                            None => Binary64 { bits: 0 },
                        }).reaches(min_speed_for_heading_check) {
                            Some(max_acceptable_deviation)
                        } else {
                            None
                        }
                    }
                },
                _ => question is None,
            }
        }),
{
    lemma_inspected(remaining_steps@);
    assert(0 <= i < remaining_steps@.len() ==> models::lines(remaining_steps@)[i]
        == remaining_steps@[i].geometry@);
}

/// Nothing is measured before the trip has begun or after it has ended.
pub proof fn law_only_trips_under_way_are_measured<D: RouteDeviationDetector>(
    tracking: RouteDeviationTracking<D>,
    trip: TripState,
    i: int,
)
    requires
        (trip matches TripState::Idle { .. }) || (trip matches TripState::Complete { .. }),
    ensures
        tracking.asks(trip@, i) is None,
{
}

/// The configured distance is the one that decides: where there is one, a user without a known
/// course is off the route exactly if the distance to the only step exceeds it; where there is
/// none, no verdict finds a deviation.
pub proof fn law_configured_distance_decides<D: RouteDeviationDetector>(
    tracking: RouteDeviationTracking<D>,
    user_location: UserLocation,
    remaining_steps: Vec<RouteStep>,
    deviation: RouteDeviation,
    reports: Seq<StepReport>,
    d: Binary64,
)
    requires
        user_location.horizontal_accuracy == (Binary64 { bits: 0 }),
        user_location.course_over_ground is None,
        remaining_steps@.len() == 1,
        remaining_steps@[0].geometry@.len() >= 2,
        reports.len() >= 1,
        reports[0].deviation == Some(d),
    ensures
        ({
            let trip = TripState::Navigating { user_location, remaining_steps, deviation };
            let outcome = tracking.verdict(trip@, report_views(reports));
            match tracking.distance_limit() {
                Some(limit) => {
                    &&& outcome == Some(
                        RouteDeviation::OffRoute { deviation_from_route_line: d },
                    ) <==> d.exceeds(limit)
                    &&& outcome == Some(RouteDeviation::NoDeviation) <==> !d.exceeds(limit)
                },
                None => outcome is None || outcome == Some(RouteDeviation::NoDeviation),
            }
        }),
{
    let k = law_minimum_over_first_four_steps(remaining_steps@, reports);
    assert(reports[0].deviation is Some);
    match tracking {
        RouteDeviationTracking::StaticThreshold { minimum_horizontal_accuracy, .. } => {
            arithmetic_laws::law_whole_numbers_exact(minimum_horizontal_accuracy as nat);
        },
        RouteDeviationTracking::StaticThresholdWithHeading { minimum_horizontal_accuracy, .. } => {
            arithmetic_laws::law_whole_numbers_exact(minimum_horizontal_accuracy as nat);
        },
        _ => {},
    }
}

/// A route is told by its view: routes with the same view have the same line and the same lines of
/// steps.
pub proof fn law_view_tells_route(a: Route, b: Route)
    requires
        a@ == b@,
    ensures
        a.geometry@ == b.geometry@,
        a.steps@.len() == b.steps@.len(),
        forall|i: int|
            0 <= i < a.steps@.len() ==> (#[trigger] a.steps@[i]).geometry@
                == b.steps@[i].geometry@,
{
    lemma_view_tells_steps(a.steps@, b.steps@);
}

/// A step is told by its view.
pub proof fn law_view_tells_step(a: RouteStep, b: RouteStep)
    requires
        a@ == b@,
    ensures
        a.geometry@ == b.geometry@,
{
}

/// Steps with the same lines have the same lines one by one.
proof fn lemma_view_tells_steps(a: Seq<RouteStep>, b: Seq<RouteStep>)
    requires
        models::lines(a) == models::lines(b),
    ensures
        a.len() == b.len(),
        forall|i: int| 0 <= i < a.len() ==> (#[trigger] a[i]).geometry@ == b[i].geometry@,
{
    assert(models::lines(a).len() == a.len());
    assert(models::lines(b).len() == b.len());
    assert forall|i: int| 0 <= i < a.len() implies (#[trigger] a[i]).geometry@
        == b[i].geometry@ by {
        assert(models::lines(a)[i] == a[i].geometry@);
        assert(models::lines(b)[i] == b[i].geometry@);
    }
}

/// A trip state is told by its view: states with the same view are in the same phase, with the same
/// location, the same lines of steps and the same last deviation.
pub proof fn law_view_tells_trip_state(a: TripState, b: TripState)
    requires
        a@ == b@,
    ensures
        match (a, b) {
            (
                TripState::Idle { user_location: here },
                TripState::Idle { user_location: there },
            ) => here == there,
            (
                TripState::Navigating {
                    user_location: here,
                    remaining_steps: left,
                    deviation: last,
                },
                TripState::Navigating {
                    user_location: there,
                    remaining_steps: other_left,
                    deviation: other_last,
                },
            ) => {
                &&& here == there
                &&& last == other_last
                &&& left@.len() == other_left@.len()
                &&& forall|i: int|
                    0 <= i < left@.len() ==> (#[trigger] left@[i]).geometry@
                        == other_left@[i].geometry@
            },
            (
                TripState::Complete { user_location: here },
                TripState::Complete { user_location: there },
            ) => here == there,
            _ => false,
        },
{
    if let (
        TripState::Navigating { remaining_steps: left, .. },
        TripState::Navigating { remaining_steps: other_left, .. },
    ) = (a, b) {
        lemma_view_tells_steps(left@, other_left@);
    }
}

/// The view of a question and of an answer shows what they hold.
pub proof fn law_view_shows_question_and_answer(question: StepInquiry, answer: StepReport)
    ensures
        question@.point == question.point,
        question@.line == question.line@,
        question@.bearing_tolerance == question.bearing_tolerance,
        answer@.deviation == answer.deviation,
        answer@.bearings == answer.bearings@,
{
}

/// Deviations are equal if both are none, or if both are off the route by numbers that are equal.
pub proof fn law_equal_deviations(a: RouteDeviation, b: RouteDeviation)
    ensures
        RouteDeviation::obeys_eq_spec(),
        a.eq_spec(&b) <==> match (a, b) {
            (RouteDeviation::NoDeviation, RouteDeviation::NoDeviation) => true,
            (
                RouteDeviation::OffRoute { deviation_from_route_line: x },
                RouteDeviation::OffRoute { deviation_from_route_line: y },
            ) => x.equals(y),
            _ => false,
        },
{
}

} // verus!
