use mbtalerts::summary::{
    brief_content, effect_label, event_summary, location_phrase, strip_line_prefix,
    LOCATION_STOP_MARKERS, RATIONALE_MARKERS,
};
use mbtalerts::types::{ActivePeriod, Alert, AlertAttributes, InformedEntity};

fn brief_header(header: &str) -> String {
    brief_content(strip_line_prefix(header))
}

fn make_alert(route: &str, effect: &str, header: &str) -> Alert {
    Alert {
        id: "alert-42".to_owned(),
        attributes: AlertAttributes {
            header: header.to_owned(),
            description: Some("Test description".to_owned()),
            url: None,
            active_period: vec![ActivePeriod { start: None, end: None }],
            effect: effect.to_owned(),
            informed_entity: vec![InformedEntity { route: Some(route.to_owned()) }],
        },
    }
}

// --- brief_header ---

#[test]
fn test_brief_header_strips_red_line_prefix() {
    assert_eq!(
        brief_header(
            "Red Line: Shuttle buses replace service from JFK/UMass through Ashmont (and Mattapan), April 1 - 9, to allow for critical track work."
        ),
        "Shuttle buses replace service from JFK/UMass through Ashmont (and Mattapan)"
    );
}

#[test]
fn test_brief_header_strips_branch_prefix() {
    assert_eq!(
        brief_header(
            "Green Line B Branch: Service will originate / terminate at the Lake Street platform, just outside of Boston College Station, from 8:45 PM on Friday."
        ),
        "Service will originate / terminate at the Lake Street platform"
    );
}

#[test]
fn test_brief_header_truncates_at_to_allow() {
    assert_eq!(
        brief_header(
            "Red Line Ashmont Branch: Service between JFK/UMass and Ashmont will operate with two shuttle trains from April 10 - 30 to allow for critical track work."
        ),
        "Service between JFK/UMass and Ashmont will operate with two shuttle trains from April 10 - 30"
    );
}

#[test]
fn test_brief_header_truncates_at_comma_after_location() {
    assert_eq!(
        brief_header(
            "Red Line: Shuttle buses will replace service between JFK/UMass and Braintree, the weekend of Mar 29 - 30, for signal upgrades."
        ),
        "Shuttle buses will replace service between JFK/UMass and Braintree"
    );
}

#[test]
fn test_brief_header_no_prefix_no_truncation() {
    assert_eq!(
        brief_header("Delays expected on the Orange Line due to an earlier incident."),
        "Delays expected on the Orange Line due to an earlier incident"
    );
}

#[test]
fn test_brief_header_attention_passengers_prefix_not_stripped() {
    // "Attention Passengers" doesn't contain "Line", so it should not be stripped
    assert_eq!(
        brief_header("Attention Passengers: Some service change is in effect."),
        "Attention Passengers: Some service change is in effect"
    );
}

// --- strip_line_prefix ---

#[test]
fn test_strip_line_prefix_drops_label_and_whitespace() {
    assert_eq!(strip_line_prefix("Red Line: Delays of 10 minutes"), "Delays of 10 minutes");
    assert_eq!(strip_line_prefix("Red Line:    Delays"), "Delays");
    assert_eq!(strip_line_prefix("Red Line: \t\n Delays"), "Delays");
    assert_eq!(strip_line_prefix("Red Line: "), "");
}

#[test]
fn test_strip_line_prefix_keeps_header_without_label() {
    assert_eq!(strip_line_prefix("Delays of 10 minutes"), "Delays of 10 minutes");
    assert_eq!(strip_line_prefix("   Delays of 10 minutes"), "Delays of 10 minutes");
    assert_eq!(strip_line_prefix(""), "");
    assert_eq!(strip_line_prefix("   "), "");
    assert_eq!(strip_line_prefix("Attention: the Line is late"), "Attention: the Line is late");
    assert_eq!(strip_line_prefix("Red line: Delays"), "Red line: Delays");
}

#[test]
fn test_strip_line_prefix_label_ends_at_the_first_colon() {
    assert_eq!(strip_line_prefix("Red Line:Delays"), "Delays");
    assert_eq!(strip_line_prefix("Red Line:"), "");
    assert_eq!(strip_line_prefix("Line 8:45: Delays"), "45: Delays");
    assert_eq!(strip_line_prefix("Delays at 8:45 on the Red Line: more"), "Delays at 8:45 on the Red Line: more");
}

#[test]
fn test_strip_line_prefix_label_of_35_characters() {
    // 35 characters before the colon: stripped
    let at_limit = "Line 678901234567890123456789012345: rest";
    assert_eq!(strip_line_prefix(at_limit), "rest");
    // 36 characters before the colon: kept
    let over_limit = "Line 6789012345678901234567890123456: rest";
    assert_eq!(strip_line_prefix(over_limit), over_limit);
}

#[test]
fn test_strip_line_prefix_counts_characters() {
    // 35 characters, more than 35 bytes
    let header = "Line \u{e9}\u{e9}\u{e9}\u{e9}\u{e9}\u{e9}\u{e9}\u{e9}\u{e9}\u{e9}\u{e9}\u{e9}\u{e9}\u{e9}\u{e9}\u{e9}\u{e9}\u{e9}\u{e9}\u{e9}\u{e9}\u{e9}\u{e9}\u{e9}\u{e9}\u{e9}\u{e9}\u{e9}\u{e9}\u{e9}: rest";
    assert_eq!(header.chars().take_while(|c| *c != ':').count(), 35);
    assert_eq!(strip_line_prefix(header), "rest");
}

#[test]
fn test_strip_line_prefix_only_first_separator_counts() {
    assert_eq!(
        strip_line_prefix("Attention Passengers: Red Line: Delays"),
        "Attention Passengers: Red Line: Delays"
    );
    assert_eq!(strip_line_prefix("Red Line: Orange Line: Delays"), "Orange Line: Delays");
}

// --- location_phrase ---

#[test]
fn test_location_phrase_between_truncates_at_this() {
    assert_eq!(
        location_phrase(
            "Shuttle buses will replace service between Broadway and Ashmont this weekend."
        ),
        Some("between Broadway and Ashmont".to_string())
    );
}

#[test]
fn test_location_phrase_between_truncates_at_comma() {
    assert_eq!(
        location_phrase(
            "Shuttle buses will replace service between JFK/UMass and Braintree, the weekend of Mar 29 - 30."
        ),
        Some("between JFK/UMass and Braintree".to_string())
    );
}

#[test]
fn test_location_phrase_between_truncates_at_will() {
    assert_eq!(
        location_phrase(
            "Service between JFK/UMass and Ashmont will operate with two shuttle trains."
        ),
        Some("between JFK/UMass and Ashmont".to_string())
    );
}

#[test]
fn test_location_phrase_from_through() {
    assert_eq!(
        location_phrase(
            "Shuttle buses replace service from JFK/UMass through Ashmont (and Mattapan), April 1 - 9."
        ),
        Some("from JFK/UMass through Ashmont (and Mattapan)".to_string())
    );
}

#[test]
fn test_location_phrase_between_truncates_at_from_date() {
    assert_eq!(
        location_phrase(
            "Shuttle buses replace service between Back Bay and Forest Hills from February 28 - March 8 to allow for track work."
        ),
        Some("between Back Bay and Forest Hills".to_string())
    );
}

#[test]
fn test_location_phrase_from_to_without_through_returns_none() {
    assert_eq!(
        location_phrase("Shuttle buses replace service from North Station to Anderson/Woburn."),
        None
    );
}

#[test]
fn test_location_phrase_none_when_no_pattern() {
    assert_eq!(
        location_phrase("Service will originate / terminate at the Lake Street platform."),
        None
    );
}

#[test]
fn test_location_phrase_between_wins_over_from() {
    assert_eq!(
        location_phrase("Trains from Alewife through Ashmont run between Park and Kendall."),
        Some("between Park and Kendall".to_string())
    );
}

#[test]
fn test_location_phrase_each_stop_marker() {
    assert_eq!(location_phrase("x between A and B that matter"), Some("between A and B".to_string()));
    assert_eq!(location_phrase("x between A and B to allow work"), Some("between A and B".to_string()));
    assert_eq!(location_phrase("x between A and B in order to work"), Some("between A and B".to_string()));
    assert_eq!(location_phrase("x between A and B starting now"), Some("between A and B".to_string()));
    assert_eq!(location_phrase("x between A and B during work"), Some("between A and B".to_string()));
    // the earliest marker decides, whichever it is
    assert_eq!(location_phrase("x between A during B, C will D"), Some("between A".to_string()));
}

#[test]
fn test_location_phrase_without_marker_runs_to_the_end() {
    assert_eq!(location_phrase("x between A and B..  ,"), Some("between A and B".to_string()));
    assert_eq!(location_phrase("x between A and B"), Some("between A and B".to_string()));
}

#[test]
fn test_location_phrase_from_stops_at_second_from() {
    assert_eq!(
        location_phrase("Buses from A through B from Monday"),
        Some("from A through B".to_string())
    );
}

#[test]
fn test_location_phrase_needs_leading_space() {
    assert_eq!(location_phrase("between A and B"), None);
    assert_eq!(location_phrase(""), None);
}

// --- brief_content ---

#[test]
fn test_brief_content_comma_before_30_is_kept() {
    assert_eq!(brief_content("One, two, three"), "One, two, three");
    //            0         1         2         3
    //            0123456789012345678901234567890123
    let content = "abcdefghijklmnopqrstuvwxyz, 12, 3456";
    // the comma at 26 is before character 30, the one at 30 is not
    assert_eq!(brief_content(content), "abcdefghijklmnopqrstuvwxyz, 12");
}

#[test]
fn test_brief_content_comma_at_30() {
    let content = "abcdefghijklmnopqrstuvwxyz1234, rest";
    assert_eq!(brief_content(content), "abcdefghijklmnopqrstuvwxyz1234");
}

#[test]
fn test_brief_content_in_order_to() {
    assert_eq!(brief_content("Trains stop in order to wait"), "Trains stop");
    assert_eq!(brief_content("Trains stop in order"), "Trains stop in order");
}

#[test]
fn test_brief_content_earliest_cut_wins() {
    assert_eq!(brief_content("Trains stop to allow work in order to wait"), "Trains stop");
    assert_eq!(brief_content("Trains stop in order to wait to allow work"), "Trains stop");
    assert_eq!(
        brief_content("Trains stop here, to allow work on the tracks, all day"),
        "Trains stop here"
    );
}

#[test]
fn test_brief_content_empty_and_marks_only() {
    assert_eq!(brief_content(""), "");
    assert_eq!(brief_content(" ., ."), "");
    assert_eq!(brief_content("Delays. "), "Delays");
}

#[test]
fn test_brief_content_counts_characters() {
    // 30 characters of two bytes each, then a comma
    let content = "\u{e9}\u{e9}\u{e9}\u{e9}\u{e9}\u{e9}\u{e9}\u{e9}\u{e9}\u{e9}\u{e9}\u{e9}\u{e9}\u{e9}\u{e9}\u{e9}\u{e9}\u{e9}\u{e9}\u{e9}\u{e9}\u{e9}\u{e9}\u{e9}\u{e9}\u{e9}\u{e9}\u{e9}\u{e9}\u{e9}, rest";
    let brief = brief_content(content);
    assert_eq!(brief.chars().count(), 30);
    // a comma before character 30 that lies after byte 30 stays
    let early = "\u{e9}\u{e9}\u{e9}\u{e9}\u{e9}\u{e9}\u{e9}\u{e9}\u{e9}\u{e9}\u{e9}\u{e9}\u{e9}\u{e9}\u{e9}\u{e9}\u{e9}\u{e9}\u{e9}\u{e9}, rest";
    assert_eq!(brief_content(early), early);
}

// --- effect_label ---

#[test]
fn test_effect_label_shuttle() {
    assert_eq!(effect_label("SHUTTLE"), "Shuttle");
}

#[test]
fn test_effect_label_service_change() {
    assert_eq!(effect_label("SERVICE_CHANGE"), "Service change");
}

#[test]
fn test_effect_label_delay() {
    assert_eq!(effect_label("DELAY"), "Delay");
}

#[test]
fn test_effect_label_unknown_passthrough() {
    assert_eq!(effect_label("SOME_NEW_EFFECT"), "SOME_NEW_EFFECT");
}

#[test]
fn test_effect_label_all_known() {
    assert_eq!(effect_label("SUSPENSION"), "Suspension");
    assert_eq!(effect_label("SCHEDULE_CHANGE"), "Schedule change");
    assert_eq!(effect_label("DETOUR"), "Detour");
    assert_eq!(effect_label("delay"), "delay");
    assert_eq!(effect_label(""), "");
}

// --- event_summary ---

#[test]
fn test_event_summary_with_location() {
    let alert = make_alert(
        "Red",
        "SHUTTLE",
        "Red Line: Shuttle buses will replace service between Broadway and Ashmont this weekend.",
    );
    assert_eq!(event_summary(&alert), "[Red Line] Shuttle between Broadway and Ashmont");
}

#[test]
fn test_event_summary_from_through() {
    let alert = make_alert(
        "Red",
        "SHUTTLE",
        "Red Line: Shuttle buses replace service from JFK/UMass through Ashmont (and Mattapan), April 1-9.",
    );
    assert_eq!(
        event_summary(&alert),
        "[Red Line] Shuttle from JFK/UMass through Ashmont (and Mattapan)"
    );
}

#[test]
fn test_event_summary_falls_back_to_brief_content() {
    let alert = make_alert(
        "Orange",
        "SHUTTLE",
        "Orange Line: Shuttle buses replace service from North Station to Anderson/Woburn.",
    );
    assert_eq!(
        event_summary(&alert),
        "[Orange Line] Shuttle buses replace service from North Station to Anderson/Woburn"
    );
}

#[test]
fn test_event_summary_unknown_effect_and_route() {
    let alert = make_alert("Blue", "TRACK_CHANGE", "Trains run between A and B, for now");
    assert_eq!(event_summary(&alert), "[MBTA] TRACK_CHANGE between A and B");
}

#[test]
fn test_event_summary_empty_header() {
    let mut alert = make_alert("Red", "DELAY", "");
    alert.attributes.active_period = vec![];
    alert.attributes.informed_entity = vec![];
    assert_eq!(event_summary(&alert), "[MBTA] ");
}

#[test]
fn test_event_summary_odd_headers() {
    for header in [
        ":",
        ": ",
        " : ",
        "Line: ",
        "Line:",
        " between ",
        " from  through ",
        " between , ",
        "\u{2003}\u{2003}",
        "Line \u{1F687}: \u{1F687} between \u{1F687}, \u{1F687}",
        ", , , , , , , , , , , , , , , , , , , , ",
    ] {
        let alert = make_alert("Green-E", "DETOUR", header);
        let summary = event_summary(&alert);
        assert!(summary.starts_with("[Green Line] "));
    }
}

#[test]
fn test_marker_lists() {
    assert_eq!(
        LOCATION_STOP_MARKERS,
        [", ", " will ", " this ", " that ", " from ", " to allow", " in order", " starting", " during"]
    );
    assert_eq!(RATIONALE_MARKERS, [" to allow", " in order to"]);
}
