//! Calendar events as the calendar service lists them.
//!
//! An event may carry private properties, a list of key and value pairs. The
//! property that holds an alert id is the ownership tag: only events that
//! carry it were made from alerts.

use vstd::prelude::*;

use crate::text::same_text;
use crate::types::slice_text;

verus! {

/// The private property that holds the id of the alert an event was made from.
pub const ALERT_ID_KEY: &'static str = "mbta_alert_id";

/// The private property that marks an event as made from an alert.
pub const ALERT_SOURCE_KEY: &'static str = "mbta_alert_source";

/// The value of the marker property.
pub const ALERT_SOURCE_VALUE: &'static str = "true";

/// The root of the calendar service's interface.
pub const CAL_API: &'static str = "https://www.googleapis.com/calendar/v3/calendars";

/// The query parameter by which a listing is narrowed to events that carry a
/// private property.
pub const PRIVATE_PROPERTY_FILTER: &'static str = "privateExtendedProperty";

/// The properties attached to an event.
#[derive(Clone, Debug, Eq, PartialEq)]
pub struct ExtendedProperties {
    pub private: Option<Vec<(String, String)>>,
}

/// An event of the calendar.
#[derive(Clone, Debug, Eq, PartialEq)]
pub struct CalendarEvent {
    pub id: String,
    pub extended_properties: Option<ExtendedProperties>,
}

/// One page of the calendar's event listing.
#[derive(Clone, Debug, Eq, PartialEq)]
pub struct EventList {
    pub items: Vec<CalendarEvent>,
    pub next_page_token: Option<String>,
}

/// The mathematical content of a [`CalendarEvent`]: its id and its private
/// properties in the order listed, none where the event has none.
pub struct CalendarEventView {
    pub id: Seq<char>,
    pub private: Seq<(Seq<char>, Seq<char>)>,
}

/// The mathematical content of a list of properties.
pub open spec fn properties_view(properties: Seq<(String, String)>) -> Seq<(Seq<char>, Seq<char>)> {
    properties.map_values(|p: (String, String)| (p.0@, p.1@))
}

/// The value that `properties` gives to `key`: that of the last pair with
/// this key.
pub open spec fn property_value(properties: Seq<(Seq<char>, Seq<char>)>, key: Seq<char>) -> Option<
    Seq<char>,
>
    decreases properties.len(),
{
    if properties.len() == 0 {
        None
    } else if properties.last().0 == key {
        Some(properties.last().1)
    } else {
        property_value(properties.drop_last(), key)
    }
}

impl View for ExtendedProperties {
    type V = Seq<(Seq<char>, Seq<char>)>;

    open spec fn view(&self) -> Seq<(Seq<char>, Seq<char>)> {
        match self.private {
            Some(properties) => properties_view(properties@),
            None => Seq::empty(),
        }
    }
}

impl View for CalendarEvent {
    type V = CalendarEventView;

    open spec fn view(&self) -> CalendarEventView {
        CalendarEventView {
            id: self.id@,
            private: match self.extended_properties {
                Some(extended) => extended@,
                None => Seq::empty(),
            },
        }
    }
}

impl CalendarEventView {
    /// The id of the alert that the event was made from, if it carries the
    /// ownership tag.
    pub open spec fn alert_id(self) -> Option<Seq<char>> {
        property_value(self.private, ALERT_ID_KEY@)
    }
}

/// The mathematical content of a list of events.
pub open spec fn events_view(events: Seq<CalendarEvent>) -> Seq<CalendarEventView> {
    events.map_values(|e: CalendarEvent| e@)
}

/// Looks `key` up in a list of properties.
pub fn property<'a>(properties: &'a Vec<(String, String)>, key: &str) -> (value: Option<&'a str>)
    ensures
        slice_text(value) == property_value(properties_view(properties@), key@),
{
    let ghost all = properties_view(properties@);
    let mut n: usize = properties.len();
    assert(all.take(n as int) =~= all);
    while n > 0
        invariant
            n <= properties.len(),
            all == properties_view(properties@),
            property_value(all.take(n as int), key@) == property_value(all, key@),
        decreases n,
    {
        assert(all.take(n as int).drop_last() =~= all.take(n - 1));
        assert(all.take(n as int).last() == (properties@[n - 1].0@, properties@[n - 1].1@));
        let pair = &properties[n - 1];
        if same_text(pair.0.as_str(), key) {
            return Some(pair.1.as_str());
        }
        n -= 1;
    }
    None
}

impl CalendarEvent {
    /// The id of the alert that this event was made from, if it carries the
    /// ownership tag.
    pub fn alert_id(&self) -> (id: Option<&str>)
        ensures
            slice_text(id) == self@.alert_id(),
    {
        match &self.extended_properties {
            Some(extended) => match &extended.private {
                Some(properties) => property(properties, ALERT_ID_KEY),
                None => None,
            },
            None => None,
        }
    }
}

/// The address of the events of a calendar.
pub open spec fn events_url_text(calendar_id: Seq<char>) -> Seq<char> {
    CAL_API@ + "/"@ + calendar_id + "/events"@
}

/// The address of the events of a calendar: where events are listed and
/// where new ones are sent.
pub fn events_url(calendar_id: &str) -> (url: String)
    ensures
        url@ == events_url_text(calendar_id@),
{
    let mut url = CAL_API.to_owned();
    url.append("/");
    url.append(calendar_id);
    url.append("/events");
    url
}

/// The address of one event of a calendar: where it is refreshed and
/// removed.
pub fn event_url(calendar_id: &str, event_id: &str) -> (url: String)
    ensures
        url@ == events_url_text(calendar_id@) + "/"@ + event_id@,
{
    let mut url = events_url(calendar_id);
    url.append("/");
    url.append(event_id);
    url
}

/// The query parameter that narrows a listing to the events made from
/// alerts: its name, and the marker property with its value.
pub fn source_filter() -> (parameter: (&'static str, String))
    ensures
        parameter.0@ == PRIVATE_PROPERTY_FILTER@,
        parameter.1@ == ALERT_SOURCE_KEY@ + "="@ + ALERT_SOURCE_VALUE@,
{
    let mut marker = ALERT_SOURCE_KEY.to_owned();
    marker.append("=");
    marker.append(ALERT_SOURCE_VALUE);
    (PRIVATE_PROPERTY_FILTER, marker)
}

impl EventList {
    /// Moves the events of this page to the end of `events` and says where the
    /// listing goes on: with the token of the next page, or nowhere.
    pub fn drain_into(self, events: &mut Vec<CalendarEvent>) -> (next: Option<String>)
        ensures
            final(events)@ == old(events)@ + self.items@,
            next == self.next_page_token,
    {
        let mut page = self;
        events.append(&mut page.items);
        page.next_page_token
    }
}

} // verus!
