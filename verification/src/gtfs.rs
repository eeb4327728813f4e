//! Route classes of the GTFS schedule reference.

use vstd::prelude::*;
use vstd::std_specs::convert::FromSpecImpl;

verus! {

/// The `route_type` of a GTFS route.
#[derive(Copy, Clone, Debug, Eq, PartialEq)]
pub enum RouteType {
    Tram,
    Subway,
    Rail,
    Bus,
    Ferry,
    CableTram,
    AerialLift,
    Funicular,
    TrolleyBus,
    Monorail,
}

impl RouteType {
    /// The number that the GTFS reference assigns to this route class.
    pub open spec fn code(self) -> i16 {
        match self {
            RouteType::Tram => 0,
            RouteType::Subway => 1,
            RouteType::Rail => 2,
            RouteType::Bus => 3,
            RouteType::Ferry => 4,
            RouteType::CableTram => 5,
            RouteType::AerialLift => 6,
            RouteType::Funicular => 7,
            RouteType::TrolleyBus => 8,
            RouteType::Monorail => 9,
        }
    }
}

impl From<RouteType> for i16 {
    fn from(value: RouteType) -> (code: i16) {
        match value {
            RouteType::Tram => 0,
            RouteType::Subway => 1,
            RouteType::Rail => 2,
            RouteType::Bus => 3,
            RouteType::Ferry => 4,
            RouteType::CableTram => 5,
            RouteType::AerialLift => 6,
            RouteType::Funicular => 7,
            RouteType::TrolleyBus => 8,
            RouteType::Monorail => 9,
        }
    }
}

impl FromSpecImpl<RouteType> for i16 {
    open spec fn obeys_from_spec() -> bool {
        true
    }

    open spec fn from_spec(value: RouteType) -> i16 {
        value.code()
    }
}

} // verus!
