//! Mirrors transit service alerts into a calendar.
//!
//! The crate holds the decisions of one synchronisation pass: how an alert
//! header is condensed into an event title, how an alert becomes an event
//! payload, and which calendar events are created, refreshed or removed.

use vstd::prelude::*;

pub mod calendar;
pub mod date;
pub mod event;
pub mod gtfs;
pub mod mbta;
pub mod passes;
pub mod reconcile;
pub mod summary;
pub mod text;
pub mod types;

use crate::text::{matches_at, occurs_at, same_text, to_chars};
use crate::types::{Alert, AlertView, InformedEntityView};

verus! {

pub const APP_NAME: &'static str = "mbtalerts";

/// The rider-facing name of the line that `route` belongs to.
pub open spec fn route_line(route: Seq<char>) -> Seq<char> {
    if route == "Red"@ {
        "Red Line"@
    } else if route == "Orange"@ {
        "Orange Line"@
    } else if occurs_at(route, "Green"@, 0) {
        "Green Line"@
    } else {
        "MBTA"@
    }
}

/// The line named by the first of `entities` that has a route, or the
/// name of the whole network when none has one.
pub open spec fn entities_line(entities: Seq<InformedEntityView>) -> Seq<char>
    decreases entities.len(),
{
    if entities.len() == 0 {
        "MBTA"@
    } else {
        match entities.first().route {
            Some(route) => route_line(route),
            None => entities_line(entities.drop_first()),
        }
    }
}

impl AlertView {
    /// The rider-facing name of the line that the alert concerns.
    pub open spec fn line_name(self) -> Seq<char> {
        entities_line(self.attributes.informed_entity)
    }
}

/// The rider-facing name of the line that `route` belongs to: each branch
/// of the Green Line counts as the Green Line, and a route that is neither
/// Red, Orange nor Green gets the name of the whole network.
pub fn line_of_route(route: &str) -> (name: &'static str)
    ensures
        name@ == route_line(route@),
{
    if same_text(route, "Red") {
        "Red Line"
    } else if same_text(route, "Orange") {
        "Orange Line"
    } else {
        let chars = to_chars(route);
        let green = to_chars("Green");
        if matches_at(chars.as_slice(), green.as_slice(), 0) {
            "Green Line"
        } else {
            "MBTA"
        }
    }
}

/// The rider-facing name of the line that `alert` concerns, taken from the
/// first informed entity that names a route.
pub fn line_name(alert: &Alert) -> (name: &str)
    ensures
        name@ == alert@.line_name(),
{
    let entities = &alert.attributes.informed_entity;
    let ghost all = alert@.attributes.informed_entity;
    let mut i: usize = 0;
    assert(all.skip(0) =~= all);
    while i < entities.len()
        invariant
            i <= entities.len(),
            all == alert@.attributes.informed_entity,
            entities == &alert.attributes.informed_entity,
            entities_line(all.skip(i as int)) == alert@.line_name(),
        decreases entities.len() - i,
    {
        assert(all.skip(i as int).first() == entities@[i as int]@);
        assert(all.skip(i as int).drop_first() =~= all.skip(i + 1));
        match &entities[i].route {
            Some(route) => {
                return line_of_route(route.as_str());
            },
            None => {},
        }
        i += 1;
    }
    "MBTA"
}

} // verus!
