//! Turns an alert into the calendar event that stands for it.

use vstd::prelude::*;
use vstd::string::StringSliceAdditionalSpecFns;
use vstd::utf8::{
    decode_utf8, encode_utf8, encode_utf8_decode_utf8, encode_utf8_valid_utf8, is_ascii_chars,
    is_ascii_chars_encode_utf8, is_char_boundary, is_char_boundary_iff_not_is_continuation_byte,
    is_char_boundary_start_end_of_seq,
};

use crate::calendar::{
    property_value, properties_view, ALERT_ID_KEY, ALERT_SOURCE_KEY, ALERT_SOURCE_VALUE,
};
use crate::date::{day_text, format_date, next_date, next_date_text, utc_today, CalendarDate};
use crate::summary::{event_summary, summary_text};
use crate::types::{slice_text, text_of, Alert, AlertView};

verus! {

/// The number of bytes that a day takes at the start of a timestamp.
pub const DAY_LEN: usize = 10;

/// One end of an event's window.
#[derive(Clone, Debug, Eq, PartialEq)]
pub enum EventTime {
    /// A moment, as a timestamp.
    DateTime(String),
    /// A whole day.
    Date(String),
}

/// The mathematical content of an [`EventTime`].
pub enum EventTimeView {
    DateTime(Seq<char>),
    Date(Seq<char>),
}

impl View for EventTime {
    type V = EventTimeView;

    open spec fn view(&self) -> EventTimeView {
        match self {
            EventTime::DateTime(moment) => EventTimeView::DateTime(moment@),
            EventTime::Date(day) => EventTimeView::Date(day@),
        }
    }
}

/// What the calendar is sent for an alert.
#[derive(Clone, Debug, Eq, PartialEq)]
pub struct EventPayload {
    pub summary: String,
    pub description: Option<String>,
    pub start: EventTime,
    pub end: EventTime,
    /// The private properties: the marker and the ownership tag.
    pub private: Vec<(String, String)>,
}

/// The mathematical content of an [`EventPayload`].
pub struct EventPayloadView {
    pub summary: Seq<char>,
    pub description: Option<Seq<char>>,
    pub start: EventTimeView,
    pub end: EventTimeView,
    pub private: Seq<(Seq<char>, Seq<char>)>,
}

impl View for EventPayload {
    type V = EventPayloadView;

    open spec fn view(&self) -> EventPayloadView {
        EventPayloadView {
            summary: self.summary@,
            description: text_of(self.description),
            start: self.start@,
            end: self.end@,
            private: properties_view(self.private@),
        }
    }
}

/// The day of a timestamp: the characters that its first ten bytes encode.
/// A text is taken whole where it has fewer than ten bytes or where its
/// tenth byte does not end a character.
pub open spec fn day_part(moment: Seq<char>) -> Seq<char> {
    let bytes = encode_utf8(moment);
    if bytes.len() >= DAY_LEN && is_char_boundary(bytes, DAY_LEN as int) {
        decode_utf8(bytes.subrange(0, DAY_LEN as int))
    } else {
        moment
    }
}

/// The window of a whole day: from the day to the day after it, which the
/// calendar does not count in.
pub open spec fn all_day_window(day: Seq<char>) -> (EventTimeView, EventTimeView) {
    (EventTimeView::Date(day), EventTimeView::Date(next_date_text(day)))
}

/// The window of an alert that has a start: from start to end where it has
/// an end, and the whole day of the start where it has none.
pub open spec fn started_window(start: Seq<char>, end: Option<Seq<char>>) -> (
    EventTimeView,
    EventTimeView,
) {
    match end {
        Some(end) => (EventTimeView::DateTime(start), EventTimeView::DateTime(end)),
        None => all_day_window(day_part(start)),
    }
}

/// The window of an alert on the day `today`: an alert without a start
/// takes the whole of today.
pub open spec fn window_on(start: Option<Seq<char>>, end: Option<Seq<char>>, today: Seq<char>) -> (
    EventTimeView,
    EventTimeView,
) {
    match start {
        Some(start) => started_window(start, end),
        None => all_day_window(today),
    }
}

/// The private properties of the event for an alert: the marker, then the
/// ownership tag with the alert's id.
pub open spec fn tag_properties(alert_id: Seq<char>) -> Seq<(Seq<char>, Seq<char>)> {
    seq![(ALERT_SOURCE_KEY@, ALERT_SOURCE_VALUE@), (ALERT_ID_KEY@, alert_id)]
}

/// The payload for an alert on the day `today`. Only the first active period
/// of the alert counts.
pub open spec fn payload_on(alert: AlertView, today: Seq<char>) -> EventPayloadView {
    let window = window_on(alert.period_start(), alert.period_end(), today);
    EventPayloadView {
        summary: summary_text(alert),
        description: alert.attributes.description,
        start: window.0,
        end: window.1,
        private: tag_properties(alert.id),
    }
}

/// The day of a timestamp.
pub fn day_of(moment: &str) -> (day: &str)
    ensures
        day@ == day_part(moment@),
{
    if moment.as_bytes().len() >= DAY_LEN && moment.is_char_boundary(DAY_LEN) {
        let parts = moment.split_at(DAY_LEN);
        proof {
            assert(encode_utf8(parts.0@) == parts.0.spec_bytes());
            assert(encode_utf8(moment@) == moment.spec_bytes());
            encode_utf8_decode_utf8(parts.0@);
        }
        parts.0
    } else {
        moment
    }
}

/// In a text of one-byte characters, as a timestamp is, the day is the first
/// ten characters, or the whole text where it has fewer.
pub proof fn lemma_day_part_of_ascii(moment: Seq<char>)
    requires
        is_ascii_chars(moment),
    ensures
        day_part(moment) == if moment.len() >= DAY_LEN {
            moment.take(DAY_LEN as int)
        } else {
            moment
        },
{
    let bytes = encode_utf8(moment);
    is_ascii_chars_encode_utf8(moment);
    encode_utf8_valid_utf8(moment);
    if moment.len() >= DAY_LEN {
        let head = moment.take(DAY_LEN as int);
        if moment.len() == DAY_LEN {
            is_char_boundary_start_end_of_seq(bytes);
        } else {
            is_char_boundary_iff_not_is_continuation_byte(bytes, DAY_LEN as int);
        }
        is_ascii_chars_encode_utf8(head);
        assert(bytes.subrange(0, DAY_LEN as int) =~= encode_utf8(head));
        encode_utf8_decode_utf8(head);
    }
}

/// The window of a whole day.
pub fn all_day(day: &str) -> (window: (EventTime, EventTime))
    ensures
        (window.0@, window.1@) == all_day_window(day@),
{
    (EventTime::Date(day.to_owned()), EventTime::Date(next_date(day)))
}

/// The window of an alert that has a start.
pub fn started_times(start: &str, end: Option<&str>) -> (window: (EventTime, EventTime))
    ensures
        (window.0@, window.1@) == started_window(start@, slice_text(end)),
{
    match end {
        Some(end) => (EventTime::DateTime(start.to_owned()), EventTime::DateTime(end.to_owned())),
        None => all_day(day_of(start)),
    }
}

/// The window of an alert, where `today` is the present day.
pub fn event_times_on(start: Option<&str>, end: Option<&str>, today: &str) -> (window: (
    EventTime,
    EventTime,
))
    ensures
        (window.0@, window.1@) == window_on(slice_text(start), slice_text(end), today@),
{
    match start {
        Some(start) => started_times(start, end),
        None => all_day(today),
    }
}

/// The window of an alert. An alert without a start takes the whole of the
/// present day in UTC, so the result then depends on when the call is made.
pub fn event_times(start: Option<&str>, end: Option<&str>) -> (window: (EventTime, EventTime))
    ensures
        start matches Some(start) ==> (window.0@, window.1@) == started_window(
            start@,
            slice_text(end),
        ),
        start is None ==> exists|today: CalendarDate|
            today.wf() && (window.0@, window.1@) == all_day_window(#[trigger] day_text(today)),
{
    match start {
        Some(start) => started_times(start, end),
        None => {
            let today = utc_today();
            let text = format_date(today);
            let window = all_day(text.as_str());
            assert((window.0@, window.1@) == all_day_window(day_text(today)));
            window
        },
    }
}

/// A copy of an optional text.
fn copy_text(text: &Option<String>) -> (copy: Option<String>)
    ensures
        text_of(copy) == text_of(*text),
{
    match text {
        Some(t) => Some(t.clone()),
        None => None,
    }
}

/// The private properties of the event for the alert with this id.
pub fn tag(alert_id: &str) -> (properties: Vec<(String, String)>)
    ensures
        properties_view(properties@) == tag_properties(alert_id@),
{
    let mut properties: Vec<(String, String)> = Vec::new();
    properties.push((ALERT_SOURCE_KEY.to_owned(), ALERT_SOURCE_VALUE.to_owned()));
    properties.push((ALERT_ID_KEY.to_owned(), alert_id.to_owned()));
    assert(properties_view(properties@) =~= tag_properties(alert_id@));
    properties
}

/// The payload for `alert`, where `today` is the present day.
pub fn event_body_on(alert: &Alert, today: &str) -> (payload: EventPayload)
    ensures
        payload@ == payload_on(alert@, today@),
{
    let window = event_times_on(alert.period_start(), alert.period_end(), today);
    EventPayload {
        summary: event_summary(alert),
        description: copy_text(&alert.attributes.description),
        start: window.0,
        end: window.1,
        private: tag(alert.id.as_str()),
    }
}

/// The payload for `alert`. For an alert without a start it depends on when
/// the call is made: the event then takes the whole of the present day.
pub fn event_body(alert: &Alert) -> (payload: EventPayload)
    ensures
        alert@.period_start() is Some ==> forall|today: Seq<char>|
            payload@ == #[trigger] payload_on(alert@, today),
        alert@.period_start() is None ==> exists|today: CalendarDate|
            today.wf() && payload@ == payload_on(alert@, #[trigger] day_text(today)),
{
    let window = event_times(alert.period_start(), alert.period_end());
    EventPayload {
        summary: event_summary(alert),
        description: copy_text(&alert.attributes.description),
        start: window.0,
        end: window.1,
        private: tag(alert.id.as_str()),
    }
}

/// An event that carries the private properties of an alert's payload is
/// tagged with the id of that alert, and marked as made from an alert.
pub proof fn lemma_payload_is_tagged(alert: AlertView, today: Seq<char>)
    ensures
        property_value(payload_on(alert, today).private, ALERT_ID_KEY@) == Some(alert.id),
        property_value(payload_on(alert, today).private, ALERT_SOURCE_KEY@) == Some(
            ALERT_SOURCE_VALUE@,
        ),
{
    reveal_strlit("mbta_alert_id");
    reveal_strlit("mbta_alert_source");
    let properties = tag_properties(alert.id);
    assert(properties.last() == (ALERT_ID_KEY@, alert.id));
    assert(ALERT_ID_KEY@.len() != ALERT_SOURCE_KEY@.len());
    assert(properties.drop_last().last() == (ALERT_SOURCE_KEY@, ALERT_SOURCE_VALUE@));
    reveal_with_fuel(property_value, 3);
}

} // verus!
