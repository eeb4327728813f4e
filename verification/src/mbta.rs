//! The request that asks the transit service for its subway alerts.

use vstd::prelude::*;

use crate::gtfs::RouteType;
use crate::text::digit;

verus! {

/// The root of the transit service's interface.
pub const API_URL: &'static str = "https://api-v3.mbta.com";

/// The collection that holds the alerts.
pub const ALERTS: &'static str = "alerts";

/// The query parameter that narrows the alerts to one route class.
pub const ROUTE_TYPE_FILTER: &'static str = "filter[route_type]";

/// The address of the alerts: the root, a slash and the collection.
pub fn alerts_url() -> (url: String)
    ensures
        url@ == API_URL@ + "/"@ + ALERTS@,
{
    let mut url = API_URL.to_owned();
    url.append("/");
    url.append(ALERTS);
    url
}

/// The decimal numeral of a route class's code.
pub fn route_type_text(route_type: RouteType) -> (text: &'static str)
    ensures
        text@ == seq![digit(route_type.code() as int)],
{
    proof {
        reveal_strlit("0");
        reveal_strlit("1");
        reveal_strlit("2");
        reveal_strlit("3");
        reveal_strlit("4");
        reveal_strlit("5");
        reveal_strlit("6");
        reveal_strlit("7");
        reveal_strlit("8");
        reveal_strlit("9");
    }
    let text = match route_type {
        RouteType::Tram => "0",
        RouteType::Subway => "1",
        RouteType::Rail => "2",
        RouteType::Bus => "3",
        RouteType::Ferry => "4",
        RouteType::CableTram => "5",
        RouteType::AerialLift => "6",
        RouteType::Funicular => "7",
        RouteType::TrolleyBus => "8",
        RouteType::Monorail => "9",
    };
    assert(text@ =~= seq![digit(route_type.code() as int)]);
    text
}

/// The query parameter that narrows the alerts to the subway: its name and
/// its value.
pub fn subway_filter() -> (parameter: (&'static str, &'static str))
    ensures
        parameter.0@ == ROUTE_TYPE_FILTER@,
        parameter.1@ == seq!['1'],
{
    (ROUTE_TYPE_FILTER, route_type_text(RouteType::Subway))
}

} // verus!
