use mbtalerts::line_name;
use mbtalerts::types::{Alert, AlertAttributes, InformedEntity};

fn make_alert(route: &str) -> Alert {
    Alert {
        id: "test-id".to_owned(),
        attributes: AlertAttributes {
            header: "Test header".to_owned(),
            description: None,
            url: None,
            active_period: vec![],
            effect: "DELAY".to_owned(),
            informed_entity: vec![InformedEntity { route: Some(route.to_owned()) }],
        },
    }
}

fn make_alert_no_entities() -> Alert {
    Alert {
        id: "test-id".to_owned(),
        attributes: AlertAttributes {
            header: "Test header".to_owned(),
            description: None,
            url: None,
            active_period: vec![],
            effect: "DELAY".to_owned(),
            informed_entity: vec![],
        },
    }
}

fn make_alert_null_route() -> Alert {
    Alert {
        id: "test-id".to_owned(),
        attributes: AlertAttributes {
            header: "Test header".to_owned(),
            description: None,
            url: None,
            active_period: vec![],
            effect: "DELAY".to_owned(),
            informed_entity: vec![InformedEntity { route: None }],
        },
    }
}

#[test]
fn test_line_name_red() {
    assert_eq!(line_name(&make_alert("Red")), "Red Line");
}

#[test]
fn test_line_name_orange() {
    assert_eq!(line_name(&make_alert("Orange")), "Orange Line");
}

#[test]
fn test_line_name_green() {
    assert_eq!(line_name(&make_alert("Green")), "Green Line");
}

#[test]
fn test_line_name_green_b() {
    assert_eq!(line_name(&make_alert("Green-B")), "Green Line");
}

#[test]
fn test_line_name_green_c() {
    assert_eq!(line_name(&make_alert("Green-C")), "Green Line");
}

#[test]
fn test_line_name_green_d() {
    assert_eq!(line_name(&make_alert("Green-D")), "Green Line");
}

#[test]
fn test_line_name_green_e() {
    assert_eq!(line_name(&make_alert("Green-E")), "Green Line");
}

#[test]
fn test_line_name_unknown_route() {
    assert_eq!(line_name(&make_alert("Blue")), "MBTA");
}

#[test]
fn test_line_name_no_entities() {
    assert_eq!(line_name(&make_alert_no_entities()), "MBTA");
}

#[test]
fn test_line_name_null_route() {
    assert_eq!(line_name(&make_alert_null_route()), "MBTA");
}

#[test]
fn test_line_name_first_route_decides() {
    let mut alert = make_alert_null_route();
    alert.attributes.informed_entity.push(InformedEntity { route: Some("Orange".to_owned()) });
    alert.attributes.informed_entity.push(InformedEntity { route: Some("Red".to_owned()) });
    assert_eq!(line_name(&alert), "Orange Line");
}

#[test]
fn test_line_name_is_case_sensitive() {
    assert_eq!(line_name(&make_alert("red")), "MBTA");
    assert_eq!(line_name(&make_alert("Redd")), "MBTA");
    assert_eq!(line_name(&make_alert("Gree")), "MBTA");
    assert_eq!(line_name(&make_alert("")), "MBTA");
}

#[test]
fn test_app_name() {
    assert_eq!(mbtalerts::APP_NAME, "mbtalerts");
}
