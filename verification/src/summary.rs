//! Condenses the free text of an alert header into an event title.
//!
//! The title is built in layers: a leading line label is dropped, then a
//! location clause is looked for, and where there is none the header is cut
//! short before its rationale.

use vstd::prelude::*;
use vstd::slice::slice_subrange;

use crate::line_name;
use crate::text::{
    all_chars, contains, contains_text, earlier, earliest_marker, find, find_earliest,
    first_occurrence, leading_whitespace, lemma_first_occurrence, same_text, texts_view, to_chars,
    trim_end, trim_start, trimmed_len,
};
use crate::types::{text_of, Alert, AlertView};

verus! {

/// The longest label, in characters, that is taken for a line label.
pub const MAX_LABEL_LEN: usize = 35;

/// The position from which a comma may end the brief content.
pub const COMMA_SCAN_START: usize = 30;

/// The markers that end a location clause.
pub const LOCATION_STOP_MARKERS: [&'static str; 9] = [
    ", ",
    " will ",
    " this ",
    " that ",
    " from ",
    " to allow",
    " in order",
    " starting",
    " during",
];

/// The markers that open the rationale of a header.
pub const RATIONALE_MARKERS: [&'static str; 2] = [" to allow", " in order to"];

/// The header without its line label. The label is what stands before the
/// first colon; it is dropped, with the colon and the whitespace after it,
/// when it holds the word "Line" and has at most 35 characters. Otherwise
/// only leading whitespace is dropped.
pub open spec fn strip_line_prefix_text(header: Seq<char>) -> Seq<char> {
    match first_occurrence(header, ":"@) {
        Some(colon) => if contains_text(header.take(colon), "Line"@) && colon <= MAX_LABEL_LEN {
            trim_start(header.skip(colon + 1))
        } else {
            trim_start(header)
        },
        None => trim_start(header),
    }
}

/// The part of the content that starts with a location clause: from the word
/// "between" on, or else from the word "from" on when " through " follows it.
pub open spec fn location_fragment(content: Seq<char>) -> Option<Seq<char>> {
    match first_occurrence(content, " between "@) {
        Some(i) => Some(content.skip(i + 1)),
        None => match first_occurrence(content, " from "@) {
            Some(i) => if contains_text(content.skip(i + 1), " through "@) {
                Some(content.skip(i + 1))
            } else {
                None
            },
            None => None,
        },
    }
}

/// The markers that end a location clause, as sequences of characters.
pub open spec fn stop_markers() -> Seq<Seq<char>> {
    texts_view(LOCATION_STOP_MARKERS@)
}

/// The location clause of the content: its location fragment up to the
/// earliest stop marker, without trailing full stops, commas and spaces.
/// There is none when there is no fragment or nothing is left of it.
pub open spec fn location_phrase_text(content: Seq<char>) -> Option<Seq<char>> {
    match location_fragment(content) {
        Some(fragment) => {
            let phrase = trim_end(fragment.take(earliest_marker(fragment, stop_markers())));
            if phrase.len() == 0 {
                None
            } else {
                Some(phrase)
            }
        },
        None => None,
    }
}

/// The markers that open the rationale of a header, as sequences of
/// characters.
pub open spec fn rationale_markers() -> Seq<Seq<char>> {
    texts_view(RATIONALE_MARKERS@)
}

/// The position of the first comma-and-space at or after character 30, or
/// the length of the content when there is none.
pub open spec fn comma_cut(content: Seq<char>) -> int {
    if content.len() >= COMMA_SCAN_START {
        match first_occurrence(content.skip(COMMA_SCAN_START as int), ", "@) {
            Some(i) => COMMA_SCAN_START + i,
            None => content.len() as int,
        }
    } else {
        content.len() as int
    }
}

/// The content cut at the earliest of a rationale marker and the first
/// comma-and-space at or after character 30, without trailing full stops,
/// commas and spaces.
pub open spec fn brief_content_text(content: Seq<char>) -> Seq<char> {
    trim_end(
        content.take(earlier(earliest_marker(content, rationale_markers()), comma_cut(content))),
    )
}

/// The label of an effect code; a code without a label stands for itself.
pub open spec fn effect_label_text(effect: Seq<char>) -> Seq<char> {
    if effect == "SHUTTLE"@ {
        "Shuttle"@
    } else if effect == "DELAY"@ {
        "Delay"@
    } else if effect == "SUSPENSION"@ {
        "Suspension"@
    } else if effect == "SERVICE_CHANGE"@ {
        "Service change"@
    } else if effect == "SCHEDULE_CHANGE"@ {
        "Schedule change"@
    } else if effect == "DETOUR"@ {
        "Detour"@
    } else {
        effect
    }
}

/// The title of the event for an alert: the line in brackets, then the
/// effect label and the location clause where the header has one, and the
/// brief content of the header where it has none.
pub open spec fn summary_text(alert: AlertView) -> Seq<char> {
    let content = strip_line_prefix_text(alert.attributes.header);
    match location_phrase_text(content) {
        Some(location) => "["@ + alert.line_name() + "] "@ + effect_label_text(
            alert.attributes.effect,
        ) + " "@ + location,
        None => "["@ + alert.line_name() + "] "@ + brief_content_text(content),
    }
}

/// Drops the line label from a header.
pub fn strip_line_prefix(header: &str) -> (content: &str)
    ensures
        content@ == strip_line_prefix_text(header@),
{
    let chars = to_chars(header);
    let separator = to_chars(":");
    let word = to_chars("Line");
    let n = chars.len();
    let mut from: usize = 0;
    if let Some(colon) = find(chars.as_slice(), separator.as_slice()) {
        proof {
            reveal_strlit(":");
            lemma_first_occurrence(header@, ":"@);
        }
        if colon <= MAX_LABEL_LEN && contains(
            slice_subrange(chars.as_slice(), 0, colon),
            word.as_slice(),
        ) {
            from = colon + 1;
        }
    }
    let skipped = leading_whitespace(slice_subrange(chars.as_slice(), from, n));
    proof {
        assert(header@.subrange(from as int, n as int) =~= header@.skip(from as int));
        assert(header@.skip(0) =~= header@);
        assert(header@.skip(from as int).skip(skipped as int) =~= header@.subrange(
            from + skipped,
            n as int,
        ));
    }
    header.substring_char(from + skipped, n)
}

/// Where the location fragment of `chars` starts, if it has one.
fn location_start(chars: &[char]) -> (start: Option<usize>)
    ensures
        match start {
            Some(i) => i <= chars.len() && location_fragment(chars@) == Some(
                chars@.skip(i as int),
            ),
            None => location_fragment(chars@) is None,
        },
{
    let between = to_chars(" between ");
    let from = to_chars(" from ");
    let through = to_chars(" through ");
    let n = chars.len();
    proof {
        reveal_strlit(" between ");
        reveal_strlit(" from ");
        lemma_first_occurrence(chars@, " between "@);
        lemma_first_occurrence(chars@, " from "@);
    }
    match find(chars, between.as_slice()) {
        Some(i) => Some(i + 1),
        None => match find(chars, from.as_slice()) {
            Some(i) => {
                assert(chars@.subrange(i + 1, n as int) =~= chars@.skip(i + 1));
                if contains(slice_subrange(chars, i + 1, n), through.as_slice()) {
                    Some(i + 1)
                } else {
                    None
                }
            },
            None => None,
        },
    }
}

/// Finds the location clause of a header that has lost its line label:
/// "between A and B" or "from A through B".
pub fn location_phrase(content: &str) -> (phrase: Option<String>)
    ensures
        text_of(phrase) == location_phrase_text(content@),
{
    let chars = to_chars(content);
    let n = chars.len();
    match location_start(chars.as_slice()) {
        Some(start) => {
            let fragment = slice_subrange(chars.as_slice(), start, n);
            assert(fragment@ =~= content@.skip(start as int));
            let markers = all_chars(LOCATION_STOP_MARKERS.as_slice());
            let cut = find_earliest(fragment, &markers);
            let len = trimmed_len(slice_subrange(fragment, 0, cut));
            if len == 0 {
                None
            } else {
                assert(fragment@.take(cut as int).take(len as int) =~= content@.subrange(
                    start as int,
                    start + len,
                ));
                Some(content.substring_char(start, start + len).to_owned())
            }
        },
        None => None,
    }
}

/// Cuts a header that has lost its line label short before its rationale,
/// or at the first comma-and-space at or after character 30.
pub fn brief_content(content: &str) -> (brief: String)
    ensures
        brief@ == brief_content_text(content@),
{
    let chars = to_chars(content);
    let n = chars.len();
    let markers = all_chars(RATIONALE_MARKERS.as_slice());
    let mut cut = find_earliest(chars.as_slice(), &markers);
    if n >= COMMA_SCAN_START {
        let comma = to_chars(", ");
        let tail = slice_subrange(chars.as_slice(), COMMA_SCAN_START, n);
        assert(tail@ =~= content@.skip(COMMA_SCAN_START as int));
        proof {
            lemma_first_occurrence(tail@, ", "@);
        }
        if let Some(i) = find(tail, comma.as_slice()) {
            if COMMA_SCAN_START + i < cut {
                cut = COMMA_SCAN_START + i;
            }
        }
    }
    let len = trimmed_len(slice_subrange(chars.as_slice(), 0, cut));
    assert(content@.take(cut as int).take(len as int) =~= content@.subrange(0, len as int));
    content.substring_char(0, len).to_owned()
}

/// The label of an effect code.
pub fn effect_label(effect: &str) -> (label: &str)
    ensures
        label@ == effect_label_text(effect@),
{
    if same_text(effect, "SHUTTLE") {
        "Shuttle"
    } else if same_text(effect, "DELAY") {
        "Delay"
    } else if same_text(effect, "SUSPENSION") {
        "Suspension"
    } else if same_text(effect, "SERVICE_CHANGE") {
        "Service change"
    } else if same_text(effect, "SCHEDULE_CHANGE") {
        "Schedule change"
    } else if same_text(effect, "DETOUR") {
        "Detour"
    } else {
        effect
    }
}

/// The title of the calendar event for `alert`. Every alert has one, whatever
/// its header holds.
pub fn event_summary(alert: &Alert) -> (summary: String)
    ensures
        summary@ == summary_text(alert@),
{
    let line = line_name(alert);
    let content = strip_line_prefix(alert.attributes.header.as_str());
    let mut summary = "[".to_owned();
    summary.append(line);
    summary.append("] ");
    match location_phrase(content) {
        Some(location) => {
            summary.append(effect_label(alert.attributes.effect.as_str()));
            summary.append(" ");
            summary.append(location.as_str());
        },
        None => {
            let brief = brief_content(content);
            summary.append(brief.as_str());
        },
    }
    summary
}

} // verus!
