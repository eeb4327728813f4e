//! The alert feed as the transit service publishes it.

use vstd::prelude::*;

verus! {

/// One snapshot of the feed.
#[derive(Clone, Debug, Eq, PartialEq)]
pub struct Alerts {
    pub data: Vec<Alert>,
}

/// A service disruption notice.
#[derive(Clone, Debug, Eq, PartialEq)]
pub struct Alert {
    pub id: String,
    pub attributes: AlertAttributes,
}

#[derive(Clone, Debug, Eq, PartialEq)]
pub struct AlertAttributes {
    pub header: String,
    pub description: Option<String>,
    pub url: Option<String>,
    pub active_period: Vec<ActivePeriod>,
    pub effect: String,
    pub informed_entity: Vec<InformedEntity>,
}

/// A window of time in which an alert is in force; either end may be open.
#[derive(Clone, Debug, Eq, PartialEq)]
pub struct ActivePeriod {
    pub start: Option<String>,
    pub end: Option<String>,
}

/// Something an alert concerns; only its route is kept.
#[derive(Clone, Debug, Eq, PartialEq)]
pub struct InformedEntity {
    pub route: Option<String>,
}

/// The mathematical content of an [`ActivePeriod`].
pub struct ActivePeriodView {
    pub start: Option<Seq<char>>,
    pub end: Option<Seq<char>>,
}

/// The mathematical content of an [`InformedEntity`].
pub struct InformedEntityView {
    pub route: Option<Seq<char>>,
}

/// The mathematical content of an [`AlertAttributes`].
pub struct AlertAttributesView {
    pub header: Seq<char>,
    pub description: Option<Seq<char>>,
    pub url: Option<Seq<char>>,
    pub active_period: Seq<ActivePeriodView>,
    pub effect: Seq<char>,
    pub informed_entity: Seq<InformedEntityView>,
}

/// The mathematical content of an [`Alert`].
pub struct AlertView {
    pub id: Seq<char>,
    pub attributes: AlertAttributesView,
}

/// The mathematical content of an optional string.
pub open spec fn text_of(s: Option<String>) -> Option<Seq<char>> {
    match s {
        Some(t) => Some(t@),
        None => None,
    }
}

impl View for ActivePeriod {
    type V = ActivePeriodView;

    open spec fn view(&self) -> ActivePeriodView {
        ActivePeriodView { start: text_of(self.start), end: text_of(self.end) }
    }
}

impl View for InformedEntity {
    type V = InformedEntityView;

    open spec fn view(&self) -> InformedEntityView {
        InformedEntityView { route: text_of(self.route) }
    }
}

impl View for AlertAttributes {
    type V = AlertAttributesView;

    open spec fn view(&self) -> AlertAttributesView {
        AlertAttributesView {
            header: self.header@,
            description: text_of(self.description),
            url: text_of(self.url),
            active_period: self.active_period@.map_values(|p: ActivePeriod| p@),
            effect: self.effect@,
            informed_entity: self.informed_entity@.map_values(|e: InformedEntity| e@),
        }
    }
}

impl View for Alert {
    type V = AlertView;

    open spec fn view(&self) -> AlertView {
        AlertView { id: self.id@, attributes: self.attributes@ }
    }
}

impl View for Alerts {
    type V = Seq<AlertView>;

    open spec fn view(&self) -> Seq<AlertView> {
        self.data@.map_values(|a: Alert| a@)
    }
}

impl AlertView {
    /// The start of the first active period, if the alert has a period and
    /// the period has a start.
    pub open spec fn period_start(self) -> Option<Seq<char>> {
        if self.attributes.active_period.len() > 0 {
            self.attributes.active_period[0].start
        } else {
            None
        }
    }

    /// The end of the first active period, if the alert has a period and the
    /// period has an end.
    pub open spec fn period_end(self) -> Option<Seq<char>> {
        if self.attributes.active_period.len() > 0 {
            self.attributes.active_period[0].end
        } else {
            None
        }
    }
}

/// The mathematical content of an optional string slice.
pub open spec fn slice_text(s: Option<&str>) -> Option<Seq<char>> {
    match s {
        Some(t) => Some(t@),
        None => None,
    }
}

/// Borrows the text of an optional string.
pub fn as_text(s: &Option<String>) -> (t: Option<&str>)
    ensures
        slice_text(t) == text_of(*s),
{
    match s {
        Some(x) => Some(x.as_str()),
        None => None,
    }
}

impl Alert {
    /// The start of the first active period. Later periods are not looked at.
    pub fn period_start(&self) -> (start: Option<&str>)
        ensures
            slice_text(start) == self@.period_start(),
    {
        if self.attributes.active_period.len() > 0 {
            as_text(&self.attributes.active_period[0].start)
        } else {
            None
        }
    }

    /// The end of the first active period. Later periods are not looked at.
    pub fn period_end(&self) -> (end: Option<&str>)
        ensures
            slice_text(end) == self@.period_end(),
    {
        if self.attributes.active_period.len() > 0 {
            as_text(&self.attributes.active_period[0].end)
        } else {
            None
        }
    }
}

} // verus!
