//! The route and the trip, as far as deviation detection looks at them.
use crate::binary64::Binary64;
use crate::deviation_detection::RouteDeviation;
use vstd::prelude::*;

verus! {

/// A position on the earth, in degrees.
#[derive(Debug, Clone, Copy)]
pub struct GeographicCoordinate {
    /// The latitude.
    pub lat: Binary64,
    /// The longitude.
    pub lng: Binary64,
}

/// The direction in which the user is moving.
#[derive(Debug, Clone, Copy)]
pub struct CourseOverGround {
    /// The direction in degrees clockwise from true north.
    pub degrees: u16,
    /// The accuracy of the direction, in degrees.
    pub accuracy: Option<u16>,
}

/// The speed at which the user is moving.
#[derive(Debug, Clone, Copy)]
pub struct Speed {
    /// The speed in meters per second.
    pub value: Binary64,
    /// The accuracy of the speed, in meters per second.
    pub accuracy: Option<Binary64>,
}

/// A moment, counted from the start of the year 1970 in coordinated universal time.
#[derive(Debug, Clone, Copy)]
pub struct Timestamp {
    /// The whole seconds that have passed; negative before that start.
    pub seconds: i64,
    /// The nanoseconds that have passed since the last whole second.
    pub nanoseconds: u32,
}

/// Where the user is and how they are moving.
#[derive(Debug, Clone, Copy)]
pub struct UserLocation {
    /// The position.
    pub coordinates: GeographicCoordinate,
    /// The accuracy of the position, in meters; a smaller number is a better position.
    pub horizontal_accuracy: Binary64,
    /// The direction of movement, if it is known.
    pub course_over_ground: Option<CourseOverGround>,
    /// When the location was determined.
    pub timestamp: Timestamp,
    /// The speed, if it is known.
    pub speed: Option<Speed>,
    /// The altitude in meters, if it is known.
    pub altitude: Option<Binary64>,
    /// The accuracy of the altitude, in meters, if it is known.
    pub vertical_accuracy: Option<Binary64>,
}

/// A step of a route.
#[derive(Debug)]
pub struct RouteStep {
    /// The line that the step follows.
    pub geometry: Vec<GeographicCoordinate>,
}

/// A route.
#[derive(Debug)]
pub struct Route {
    /// The line that the route follows.
    pub geometry: Vec<GeographicCoordinate>,
    /// The steps of the route, from start to end.
    pub steps: Vec<RouteStep>,
}

/// The state of a trip along a route.
#[derive(Debug)]
#[allow(inconsistent_fields)]
pub enum TripState {
    /// The trip has not begun.
    Idle {
        /// Where the user is, if it is known.
        user_location: Option<UserLocation>,
    },
    /// The user is on the way.
    Navigating {
        /// Where the user is.
        user_location: UserLocation,
        /// The steps that are not completed, starting with the current one.
        remaining_steps: Vec<RouteStep>,
        /// The deviation that was found last.
        deviation: RouteDeviation,
    },
    /// The user has arrived.
    Complete {
        /// Where the user is.
        user_location: UserLocation,
    },
}

/// A route as a mathematical value: a line, and the line of each step.
pub struct RouteView {
    /// The line that the route follows.
    pub geometry: Seq<GeographicCoordinate>,
    /// The line of each step.
    pub steps: Seq<Seq<GeographicCoordinate>>,
}

/// A trip state as a mathematical value.
#[allow(inconsistent_fields)]
pub enum TripStateView {
    /// The trip has not begun.
    Idle {
        /// Where the user is, if it is known.
        user_location: Option<UserLocation>,
    },
    /// The user is on the way.
    Navigating {
        /// Where the user is.
        user_location: UserLocation,
        /// The line of each step that is not completed.
        remaining_steps: Seq<Seq<GeographicCoordinate>>,
        /// The deviation that was found last.
        deviation: RouteDeviation,
    },
    /// The user has arrived.
    Complete {
        /// Where the user is.
        user_location: UserLocation,
    },
}

/// The lines of a sequence of steps.
pub open spec fn lines(steps: Seq<RouteStep>) -> Seq<Seq<GeographicCoordinate>> {
    steps.map_values(|step: RouteStep| step@)
}

impl View for RouteStep {
    type V = Seq<GeographicCoordinate>;

    open spec fn view(&self) -> Seq<GeographicCoordinate> {
        self.geometry@
    }
}

impl View for Route {
    type V = RouteView;

    open spec fn view(&self) -> RouteView {
        RouteView { geometry: self.geometry@, steps: lines(self.steps@) }
    }
}

impl View for TripState {
    type V = TripStateView;

    open spec fn view(&self) -> TripStateView {
        match self {
            TripState::Idle { user_location } => TripStateView::Idle {
                user_location: *user_location,
            },
            TripState::Navigating { user_location, remaining_steps, deviation } => {
                TripStateView::Navigating {
                    user_location: *user_location,
                    remaining_steps: lines(remaining_steps@),
                    deviation: *deviation,
                }
            },
            TripState::Complete { user_location } => TripStateView::Complete {
                user_location: *user_location,
            },
        }
    }
}

impl Clone for RouteStep {
    fn clone(&self) -> (copy: RouteStep)
        ensures
            copy@ == self@,
    {
        RouteStep { geometry: self.geometry.clone() }
    }
}

/// Copies steps.
fn clone_steps(steps: &Vec<RouteStep>) -> (copy: Vec<RouteStep>)
    ensures
        lines(copy@) == lines(steps@),
{
    let mut copy: Vec<RouteStep> = Vec::new();
    for i in 0..steps.len()
        invariant
            copy@.len() == i,
            forall|j: int| 0 <= j < i ==> (#[trigger] copy@[j])@ == steps@[j]@,
    {
        copy.push(steps[i].clone());
    }
    copy
}

impl Clone for Route {
    fn clone(&self) -> (copy: Route)
        ensures
            copy@ == self@,
    {
        Route { geometry: self.geometry.clone(), steps: clone_steps(&self.steps) }
    }
}

impl Clone for TripState {
    fn clone(&self) -> (copy: TripState)
        ensures
            copy@ == self@,
    {
        match self {
            TripState::Idle { user_location } => TripState::Idle { user_location: *user_location },
            TripState::Navigating { user_location, remaining_steps, deviation } => {
                TripState::Navigating {
                    user_location: *user_location,
                    remaining_steps: clone_steps(remaining_steps),
                    deviation: *deviation,
                }
            },
            TripState::Complete { user_location } => TripState::Complete {
                user_location: *user_location,
            },
        }
    }
}

} // verus!
