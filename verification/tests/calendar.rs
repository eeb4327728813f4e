use mbtalerts::calendar::{
    event_url, events_url, property, source_filter, CalendarEvent, EventList, ExtendedProperties,
    ALERT_ID_KEY, ALERT_SOURCE_KEY, ALERT_SOURCE_VALUE,
};

fn pair(key: &str, value: &str) -> (String, String) {
    (key.to_owned(), value.to_owned())
}

fn event(id: &str, private: Option<Vec<(String, String)>>) -> CalendarEvent {
    CalendarEvent { id: id.to_owned(), extended_properties: Some(ExtendedProperties { private }) }
}

// --- CalendarEvent::alert_id ---

#[test]
fn test_calendar_event_alert_id_present() {
    let mut private = Vec::new();
    private.push(("mbta_alert_id".to_owned(), "alert-123".to_owned()));
    let event = CalendarEvent {
        id: "event-1".to_owned(),
        extended_properties: Some(ExtendedProperties { private: Some(private) }),
    };
    assert_eq!(event.alert_id(), Some("alert-123"));
}

#[test]
fn test_calendar_event_alert_id_missing_key() {
    let private = Vec::new();
    let event = CalendarEvent {
        id: "event-1".to_owned(),
        extended_properties: Some(ExtendedProperties { private: Some(private) }),
    };
    assert_eq!(event.alert_id(), None);
}

#[test]
fn test_calendar_event_alert_id_no_extended_properties() {
    let event = CalendarEvent { id: "event-1".to_owned(), extended_properties: None };
    assert_eq!(event.alert_id(), None);
}

#[test]
fn test_calendar_event_alert_id_no_private() {
    let event = CalendarEvent {
        id: "event-1".to_owned(),
        extended_properties: Some(ExtendedProperties { private: None }),
    };
    assert_eq!(event.alert_id(), None);
}

#[test]
fn test_calendar_event_alert_id_among_other_properties() {
    let tagged = event(
        "event-1",
        Some(vec![pair("a", "1"), pair("mbta_alert_id", "alert-5"), pair("mbta_alert_source", "true")]),
    );
    assert_eq!(tagged.alert_id(), Some("alert-5"));
    let other = event("event-2", Some(vec![pair("mbta_alert_source", "true"), pair("id", "x")]));
    assert_eq!(other.alert_id(), None);
    let similar = event("event-3", Some(vec![pair("mbta_alert_id ", "x"), pair("MBTA_ALERT_ID", "y")]));
    assert_eq!(similar.alert_id(), None);
}

#[test]
fn test_property_last_pair_wins() {
    let properties = vec![pair("k", "first"), pair("other", "x"), pair("k", "last")];
    assert_eq!(property(&properties, "k"), Some("last"));
    assert_eq!(property(&properties, "other"), Some("x"));
    assert_eq!(property(&properties, "none"), None);
    assert_eq!(property(&Vec::new(), "k"), None);
}

#[test]
fn test_property_keys() {
    assert_eq!(ALERT_ID_KEY, "mbta_alert_id");
    assert_eq!(ALERT_SOURCE_KEY, "mbta_alert_source");
    assert_eq!(ALERT_SOURCE_VALUE, "true");
}

#[test]
fn test_drain_into_collects_pages() {
    let mut events = vec![event("event-1", None)];
    let page = EventList {
        items: vec![event("event-2", None), event("event-3", None)],
        next_page_token: Some("page-2".to_owned()),
    };
    assert_eq!(page.drain_into(&mut events), Some("page-2".to_owned()));
    let last = EventList { items: vec![event("event-4", None)], next_page_token: None };
    assert_eq!(last.drain_into(&mut events), None);
    let ids: Vec<&str> = events.iter().map(|e| e.id.as_str()).collect();
    assert_eq!(ids, vec!["event-1", "event-2", "event-3", "event-4"]);
    let empty = EventList { items: vec![], next_page_token: None };
    assert_eq!(empty.drain_into(&mut events), None);
    assert_eq!(events.len(), 4);
}

#[test]
fn test_event_addresses() {
    assert_eq!(
        events_url("primary"),
        "https://www.googleapis.com/calendar/v3/calendars/primary/events"
    );
    assert_eq!(
        event_url("primary", "event-1"),
        "https://www.googleapis.com/calendar/v3/calendars/primary/events/event-1"
    );
    assert_eq!(events_url(""), "https://www.googleapis.com/calendar/v3/calendars//events");
}

#[test]
fn test_source_filter_names_the_marker() {
    assert_eq!(
        source_filter(),
        ("privateExtendedProperty", "mbta_alert_source=true".to_owned())
    );
}
