//! Decides what one synchronisation pass does to the calendar.
//!
//! The live alerts are held against the events that the calendar lists. An
//! alert that owns no event yet gets one, an alert that owns one has it
//! refreshed, and an event whose alert has left the feed is removed. An alert
//! with a skipped effect has no part in this: it gets no event, and an event
//! that carries its id is neither refreshed nor removed. Events without the
//! ownership tag belong to somebody else and are left alone.

use vstd::prelude::*;
use vstd::slice::slice_subrange;

use crate::calendar::{events_view, CalendarEvent, CalendarEventView};
use crate::text::same_text;
use crate::types::{Alert, AlertView, Alerts};

verus! {

/// The effects that concern a station and not the service: alerts with one of
/// them never reach the calendar.
pub const STATION_EFFECTS_TO_SKIP: [&'static str; 3] = [
    "STATION_ISSUE",
    "STOP_CLOSURE",
    "STATION_CLOSURE",
];

/// The effect is on the skip list.
pub open spec fn is_skipped(effect: Seq<char>) -> bool {
    exists|i: int| 0 <= i < STATION_EFFECTS_TO_SKIP@.len() && (#[trigger] STATION_EFFECTS_TO_SKIP@[i])@ == effect
}

/// The event that owns `alert_id`: the last of `remote` that is tagged with
/// it.
pub open spec fn owner(remote: Seq<CalendarEventView>, alert_id: Seq<char>) -> Option<
    CalendarEventView,
>
    decreases remote.len(),
{
    if remote.len() == 0 {
        None
    } else if remote.last().alert_id() == Some(alert_id) {
        Some(remote.last())
    } else {
        owner(remote.drop_last(), alert_id)
    }
}

/// Some alert of the feed, skipped or not, has this id.
pub open spec fn in_feed(alerts: Seq<AlertView>, alert_id: Seq<char>) -> bool {
    exists|k: int| 0 <= k < alerts.len() && (#[trigger] alerts[k]).id == alert_id
}

/// The alert is to get a new event.
pub open spec fn needs_create(alert: AlertView, remote: Seq<CalendarEventView>) -> bool {
    !is_skipped(alert.attributes.effect) && owner(remote, alert.id) is None
}

/// The alert is to have its event refreshed.
pub open spec fn needs_update(alert: AlertView, remote: Seq<CalendarEventView>) -> bool {
    !is_skipped(alert.attributes.effect) && owner(remote, alert.id) is Some
}

/// The alerts that get a new event, in feed order.
pub open spec fn creates(alerts: Seq<AlertView>, remote: Seq<CalendarEventView>) -> Seq<AlertView> {
    alerts.filter(|a: AlertView| needs_create(a, remote))
}

/// The alerts that have their event refreshed, in feed order.
pub open spec fn updated_alerts(alerts: Seq<AlertView>, remote: Seq<CalendarEventView>) -> Seq<
    AlertView,
> {
    alerts.filter(|a: AlertView| needs_update(a, remote))
}

/// The events that are refreshed, each with the alert that owns it, in feed
/// order.
pub open spec fn updates(alerts: Seq<AlertView>, remote: Seq<CalendarEventView>) -> Seq<
    (CalendarEventView, AlertView),
> {
    updated_alerts(alerts, remote).map_values(|a: AlertView| (owner(remote, a.id).unwrap(), a))
}

/// What is sent to the calendar for an alert that is not skipped.
#[derive(Clone, Debug, Eq, PartialEq)]
pub enum Write<'a> {
    /// A new event is made from the alert.
    Create(&'a Alert),
    /// The event is refreshed from the alert.
    Update(&'a CalendarEvent, &'a Alert),
}

/// The mathematical content of a [`Write`].
pub enum WriteView {
    Create(AlertView),
    Update(CalendarEventView, AlertView),
}

impl<'a> View for Write<'a> {
    type V = WriteView;

    open spec fn view(&self) -> WriteView {
        match self {
            Write::Create(alert) => WriteView::Create(alert@),
            Write::Update(event, alert) => WriteView::Update(event@, alert@),
        }
    }
}

/// What is sent for an alert that is not skipped: its event is refreshed
/// where it owns one, and made where it owns none.
pub open spec fn write_for(alert: AlertView, remote: Seq<CalendarEventView>) -> WriteView {
    match owner(remote, alert.id) {
        Some(event) => WriteView::Update(event, alert),
        None => WriteView::Create(alert),
    }
}

/// What is sent for the alerts of the feed, in feed order: one write for
/// each alert that is not skipped.
pub open spec fn writes(alerts: Seq<AlertView>, remote: Seq<CalendarEventView>) -> Seq<WriteView> {
    unskipped(alerts).map_values(|a: AlertView| write_for(a, remote))
}

/// The alerts of the writes that make an event, in order.
pub open spec fn created_by(writes: Seq<WriteView>) -> Seq<AlertView> {
    writes.filter_map(
        |w: WriteView|
            match w {
                WriteView::Create(alert) => Some(alert),
                WriteView::Update(_, _) => None,
            },
    )
}

/// The events and alerts of the writes that refresh an event, in order.
pub open spec fn updated_by(writes: Seq<WriteView>) -> Seq<(CalendarEventView, AlertView)> {
    writes.filter_map(
        |w: WriteView|
            match w {
                WriteView::Create(_) => None,
                WriteView::Update(event, alert) => Some((event, alert)),
            },
    )
}

/// The event is tagged with an alert id that no later event of `later`
/// carries and that no alert of the feed has.
pub open spec fn is_stale(
    event: CalendarEventView,
    later: Seq<CalendarEventView>,
    alerts: Seq<AlertView>,
) -> bool {
    match event.alert_id() {
        Some(id) => owner(later, id) is None && !in_feed(alerts, id),
        None => false,
    }
}

/// The events that are removed, in the order listed: each owns an alert id
/// that no alert of the feed has any more.
pub open spec fn deletes(alerts: Seq<AlertView>, remote: Seq<CalendarEventView>) -> Seq<
    CalendarEventView,
>
    decreases remote.len(),
{
    if remote.len() == 0 {
        Seq::empty()
    } else if is_stale(remote.first(), remote.drop_first(), alerts) {
        seq![remote.first()] + deletes(alerts, remote.drop_first())
    } else {
        deletes(alerts, remote.drop_first())
    }
}

/// What a pass does to the calendar.
#[derive(Clone, Debug, Eq, PartialEq)]
pub struct SyncPlan<'a> {
    /// The alerts that get a new event.
    pub creates: Vec<&'a Alert>,
    /// The events that are refreshed, each from the alert beside it.
    pub updates: Vec<(&'a CalendarEvent, &'a Alert)>,
    /// The events that are removed.
    pub deletes: Vec<&'a CalendarEvent>,
    /// The creates and the updates once more, as they follow one another in
    /// the feed: the order in which they are sent.
    pub writes: Vec<Write<'a>>,
}

/// The mathematical content of a [`SyncPlan`].
pub struct SyncPlanView {
    pub creates: Seq<AlertView>,
    pub updates: Seq<(CalendarEventView, AlertView)>,
    pub deletes: Seq<CalendarEventView>,
    pub writes: Seq<WriteView>,
}

impl<'a> View for SyncPlan<'a> {
    type V = SyncPlanView;

    open spec fn view(&self) -> SyncPlanView {
        SyncPlanView {
            creates: self.creates@.map_values(|a: &Alert| a@),
            updates: self.updates@.map_values(|u: (&CalendarEvent, &Alert)| (u.0@, u.1@)),
            deletes: self.deletes@.map_values(|e: &CalendarEvent| e@),
            writes: self.writes@.map_values(|w: Write| w@),
        }
    }
}

/// The plan of a pass over `alerts` and `remote`.
pub open spec fn sync_plan(alerts: Seq<AlertView>, remote: Seq<CalendarEventView>) -> SyncPlanView {
    SyncPlanView {
        creates: creates(alerts, remote),
        updates: updates(alerts, remote),
        deletes: deletes(alerts, remote),
        writes: writes(alerts, remote),
    }
}

/// Whether the effect is on the skip list.
pub fn is_skipped_effect(effect: &str) -> (skipped: bool)
    ensures
        skipped == is_skipped(effect@),
{
    let mut i: usize = 0;
    while i < STATION_EFFECTS_TO_SKIP.len()
        invariant
            i <= STATION_EFFECTS_TO_SKIP@.len(),
            forall|j: int| 0 <= j < i ==> (#[trigger] STATION_EFFECTS_TO_SKIP@[j])@ != effect@,
        decreases STATION_EFFECTS_TO_SKIP@.len() - i,
    {
        if same_text(STATION_EFFECTS_TO_SKIP[i], effect) {
            return true;
        }
        i += 1;
    }
    false
}

/// The event of `remote` that owns `alert_id`.
pub fn find_owner<'a>(remote: &'a [CalendarEvent], alert_id: &str) -> (found: Option<
    &'a CalendarEvent,
>)
    ensures
        match found {
            Some(event) => owner(events_view(remote@), alert_id@) == Some(event@),
            None => owner(events_view(remote@), alert_id@) is None,
        },
{
    let ghost all = events_view(remote@);
    let mut n: usize = remote.len();
    assert(all.take(n as int) =~= all);
    while n > 0
        invariant
            n <= remote.len(),
            all == events_view(remote@),
            owner(all.take(n as int), alert_id@) == owner(all, alert_id@),
        decreases n,
    {
        assert(all.take(n as int).drop_last() =~= all.take(n - 1));
        assert(all.take(n as int).last() == remote@[n - 1]@);
        let event = &remote[n - 1];
        match event.alert_id() {
            Some(id) => {
                if same_text(id, alert_id) {
                    return Some(event);
                }
            },
            None => {},
        }
        n -= 1;
    }
    None
}

/// Whether some alert of the feed, skipped or not, has this id.
pub fn is_in_feed(alerts: &Alerts, alert_id: &str) -> (found: bool)
    ensures
        found == in_feed(alerts@, alert_id@),
{
    let mut k: usize = 0;
    while k < alerts.data.len()
        invariant
            k <= alerts.data.len(),
            forall|j: int| 0 <= j < k ==> (#[trigger] alerts@[j]).id != alert_id@,
        decreases alerts.data.len() - k,
    {
        let alert = &alerts.data[k];
        assert(alerts@[k as int] == alert@);
        if same_text(alert.id.as_str(), alert_id) {
            return true;
        }
        k += 1;
    }
    false
}

/// Holds the live alerts against the events that the calendar lists and
/// decides which alerts get a new event, which events are refreshed and
/// which are removed. No alert with a skipped effect gets or refreshes an
/// event, no event that carries the id of an alert of the feed is removed,
/// skipped or not, and no event without the ownership tag is refreshed or
/// removed. The creates and updates are also given as one run of writes in
/// the order of the feed.
pub fn reconcile<'a>(alerts: &'a Alerts, remote: &'a Vec<CalendarEvent>) -> (plan: SyncPlan<'a>)
    ensures
        plan@ == sync_plan(alerts@, events_view(remote@)),
        forall|i: int|
            0 <= i < plan@.creates.len() ==> {
                let alert = #[trigger] plan@.creates[i];
                alerts@.contains(alert) && !is_skipped(alert.attributes.effect)
            },
        forall|i: int|
            0 <= i < plan@.updates.len() ==> {
                let (event, alert) = #[trigger] plan@.updates[i];
                &&& alerts@.contains(alert)
                &&& !is_skipped(alert.attributes.effect)
                &&& events_view(remote@).contains(event)
                &&& event.alert_id() == Some(alert.id)
            },
        forall|i: int|
            0 <= i < plan@.deletes.len() ==> {
                let event = #[trigger] plan@.deletes[i];
                events_view(remote@).contains(event) && event.alert_id() is Some
            },
        forall|i: int, k: int|
            0 <= i < plan@.deletes.len() && 0 <= k < alerts@.len() ==> (
            #[trigger] plan@.deletes[i]).alert_id() != Some((#[trigger] alerts@[k]).id),
        created_by(plan@.writes) == plan@.creates,
        updated_by(plan@.writes) == plan@.updates,
{
    let ghost feed = alerts@;
    let ghost listed = events_view(remote@);
    let mut creates: Vec<&'a Alert> = Vec::new();
    let mut updates: Vec<(&'a CalendarEvent, &'a Alert)> = Vec::new();
    let mut writes: Vec<Write<'a>> = Vec::new();
    let mut k: usize = 0;
    while k < alerts.data.len()
        invariant
            k <= alerts.data.len(),
            feed == alerts@,
            listed == events_view(remote@),
            writes@.map_values(|w: Write| w@) == self::writes(feed.take(k as int), listed),
            creates@.map_values(|a: &Alert| a@) == self::creates(feed.take(k as int), listed),
            updates@.map_values(|u: (&CalendarEvent, &Alert)| (u.0@, u.1@)) == self::updates(
                feed.take(k as int),
                listed,
            ),
        decreases alerts.data.len() - k,
    {
        let alert = &alerts.data[k];
        proof {
            let before = feed.take(k as int);
            assert(feed.take(k + 1).drop_last() =~= before);
            assert(feed.take(k + 1).last() == alert@);
            reveal(Seq::filter);
            assert(updated_alerts(feed.take(k + 1), listed) == if needs_update(alert@, listed) {
                updated_alerts(before, listed).push(alert@)
            } else {
                updated_alerts(before, listed)
            });
            assert(unskipped(feed.take(k + 1)) == if is_skipped(alert@.attributes.effect) {
                unskipped(before)
            } else {
                unskipped(before).push(alert@)
            });
        }
        let ghost old_writes = writes@.map_values(|w: Write| w@);
        let ghost old_unskipped = unskipped(feed.take(k as int));
        let ghost old_creates = creates@.map_values(|a: &Alert| a@);
        let ghost old_updates = updates@.map_values(|u: (&CalendarEvent, &Alert)| (u.0@, u.1@));
        let ghost old_updated = updated_alerts(feed.take(k as int), listed);
        if !is_skipped_effect(alert.attributes.effect.as_str()) {
            match find_owner(remote.as_slice(), alert.id.as_str()) {
                Some(event) => {
                    updates.push((event, alert));
                    writes.push(Write::Update(event, alert));
                    proof {
                        assert(writes@.map_values(|w: Write| w@) =~= old_writes.push(
                            WriteView::Update(event@, alert@),
                        ));
                        assert(old_unskipped.push(alert@).map_values(
                            |a: AlertView| write_for(a, listed),
                        ) =~= old_unskipped.map_values(|a: AlertView| write_for(a, listed)).push(
                            WriteView::Update(event@, alert@),
                        ));
                        assert(updates@.map_values(|u: (&CalendarEvent, &Alert)| (u.0@, u.1@))
                            =~= old_updates.push((event@, alert@)));
                        assert(old_updated.push(alert@).map_values(
                            |a: AlertView| (owner(listed, a.id).unwrap(), a),
                        ) =~= old_updated.map_values(
                            |a: AlertView| (owner(listed, a.id).unwrap(), a),
                        ).push((event@, alert@)));
                    }
                },
                None => {
                    creates.push(alert);
                    writes.push(Write::Create(alert));
                    proof {
                        assert(writes@.map_values(|w: Write| w@) =~= old_writes.push(
                            WriteView::Create(alert@),
                        ));
                        assert(old_unskipped.push(alert@).map_values(
                            |a: AlertView| write_for(a, listed),
                        ) =~= old_unskipped.map_values(|a: AlertView| write_for(a, listed)).push(
                            WriteView::Create(alert@),
                        ));
                        assert(creates@.map_values(|a: &Alert| a@) =~= old_creates.push(alert@));
                    }
                },
            }
        }
        k += 1;
    }
    assert(feed.take(k as int) =~= feed);
    let mut deletes: Vec<&'a CalendarEvent> = Vec::new();
    let n = remote.len();
    let mut i: usize = 0;
    assert(listed.skip(0) =~= listed);
    while i < n
        invariant
            i <= n,
            n == remote.len(),
            feed == alerts@,
            listed == events_view(remote@),
            deletes@.map_values(|e: &CalendarEvent| e@) + self::deletes(feed, listed.skip(i as int))
                == self::deletes(feed, listed),
        decreases n - i,
    {
        let event = &remote[i];
        let rest = slice_subrange(remote.as_slice(), i + 1, n);
        proof {
            assert(listed.skip(i as int).first() == event@);
            assert(listed.skip(i as int).drop_first() =~= listed.skip(i + 1));
            assert(events_view(rest@) =~= listed.skip(i + 1));
        }
        let ghost before = deletes@.map_values(|e: &CalendarEvent| e@);
        match event.alert_id() {
            Some(id) => {
                if find_owner(rest, id).is_none() && !is_in_feed(alerts, id) {
                    deletes.push(event);
                    assert(deletes@.map_values(|e: &CalendarEvent| e@) =~= before + seq![event@]);
                }
            },
            None => {},
        }
        i += 1;
        assert(deletes@.map_values(|e: &CalendarEvent| e@) + self::deletes(
            feed,
            listed.skip(i as int),
        ) =~= self::deletes(feed, listed));
    }
    proof {
        lemma_plan_members(feed, listed);
        lemma_writes_are_creates_and_updates(feed, listed);
    }
    SyncPlan { creates, updates, deletes, writes }
}

/// The alerts of the feed that are not skipped, in feed order.
pub open spec fn unskipped(alerts: Seq<AlertView>) -> Seq<AlertView> {
    alerts.filter(|a: AlertView| !is_skipped(a.attributes.effect))
}

/// The events of the listing that carry the ownership tag, in the order
/// listed.
pub open spec fn tagged(remote: Seq<CalendarEventView>) -> Seq<CalendarEventView> {
    remote.filter(|e: CalendarEventView| e.alert_id() is Some)
}

/// Predicates that agree everywhere filter alike.
proof fn lemma_filter_same<A>(s: Seq<A>, p: spec_fn(A) -> bool, q: spec_fn(A) -> bool)
    requires
        forall|x: A| #[trigger] p(x) == q(x),
    ensures
        s.filter(p) == s.filter(q),
    decreases s.len(),
{
    reveal(Seq::filter);
    if s.len() > 0 {
        lemma_filter_same(s.drop_last(), p, q);
    }
}

/// The owner of an alert id is found among the tagged events alone.
proof fn lemma_owner_among_tagged(remote: Seq<CalendarEventView>, id: Seq<char>)
    ensures
        owner(tagged(remote), id) == owner(remote, id),
    decreases remote.len(),
{
    reveal(Seq::filter);
    if remote.len() > 0 {
        lemma_owner_among_tagged(remote.drop_last(), id);
        if remote.last().alert_id() is Some {
            assert(tagged(remote).drop_last() =~= tagged(remote.drop_last()));
        }
    }
}

/// The events removed are found among the tagged events alone.
proof fn lemma_deletes_among_tagged(alerts: Seq<AlertView>, remote: Seq<CalendarEventView>)
    ensures
        deletes(alerts, tagged(remote)) == deletes(alerts, remote),
    decreases remote.len(),
{
    if remote.len() > 0 {
        let event = remote.first();
        let rest = remote.drop_first();
        assert(remote =~= seq![event] + rest);
        rest.lemma_filter_prepend(event, |e: CalendarEventView| e.alert_id() is Some);
        lemma_deletes_among_tagged(alerts, rest);
        match event.alert_id() {
            Some(id) => {
                lemma_owner_among_tagged(rest, id);
                assert(tagged(remote).first() == event);
                assert(tagged(remote).drop_first() =~= tagged(rest));
            },
            None => {
                assert(tagged(remote) =~= tagged(rest));
            },
        }
    } else {
        assert(tagged(remote) =~= remote);
    }
}

/// Alerts with a skipped effect have no part in the plan. Such an alert of
/// the feed gets no event, no event is refreshed from it, and no event that
/// carries its id is removed.
pub proof fn lemma_skipped_alerts_are_left_alone(
    alerts: Seq<AlertView>,
    remote: Seq<CalendarEventView>,
    k: int,
)
    requires
        0 <= k < alerts.len(),
        is_skipped(alerts[k].attributes.effect),
    ensures
        forall|i: int|
            0 <= i < creates(alerts, remote).len() ==> #[trigger] creates(alerts, remote)[i]
                != alerts[k],
        forall|i: int|
            0 <= i < updates(alerts, remote).len() ==> (#[trigger] updates(alerts, remote)[i]).1
                != alerts[k],
        forall|i: int|
            0 <= i < deletes(alerts, remote).len() ==> (#[trigger] deletes(
                alerts,
                remote,
            )[i]).alert_id() != Some(alerts[k].id),
{
    lemma_plan_members(alerts, remote);
}

/// The event of a skipped alert is left as it is. Where every alert of the
/// feed that has the id of the skipped alert is skipped too, as it is in a
/// feed whose ids are unique, no alert with that id gets an event, and no
/// event that carries that id is refreshed or removed.
pub proof fn lemma_event_of_skipped_alert_is_left_alone(
    alerts: Seq<AlertView>,
    remote: Seq<CalendarEventView>,
    k: int,
)
    requires
        0 <= k < alerts.len(),
        forall|j: int|
            0 <= j < alerts.len() && (#[trigger] alerts[j]).id == alerts[k].id ==> is_skipped(
                alerts[j].attributes.effect,
            ),
    ensures
        forall|i: int|
            0 <= i < creates(alerts, remote).len() ==> (#[trigger] creates(alerts, remote)[i]).id
                != alerts[k].id,
        forall|i: int|
            0 <= i < updates(alerts, remote).len() ==> {
                let (event, alert) = #[trigger] updates(alerts, remote)[i];
                event.alert_id() != Some(alerts[k].id) && alert.id != alerts[k].id
            },
        forall|i: int|
            0 <= i < deletes(alerts, remote).len() ==> (#[trigger] deletes(
                alerts,
                remote,
            )[i]).alert_id() != Some(alerts[k].id),
{
    lemma_plan_members(alerts, remote);
    assert forall|i: int| 0 <= i < creates(alerts, remote).len() implies (#[trigger] creates(
        alerts,
        remote,
    )[i]).id != alerts[k].id by {
        let alert = creates(alerts, remote)[i];
        let j = choose|j: int| 0 <= j < alerts.len() && alerts[j] == alert;
        assert(alerts[j].id == alert.id);
    }
    assert forall|i: int| 0 <= i < updates(alerts, remote).len() implies {
        let (event, alert) = #[trigger] updates(alerts, remote)[i];
        event.alert_id() != Some(alerts[k].id) && alert.id != alerts[k].id
    } by {
        let alert = updates(alerts, remote)[i].1;
        let j = choose|j: int| 0 <= j < alerts.len() && alerts[j] == alert;
        assert(alerts[j].id == alert.id);
    }
}

/// No event that carries the id of an alert of the feed is removed, whether
/// the alert is skipped or not.
pub proof fn lemma_events_of_the_feed_stay(alerts: Seq<AlertView>, remote: Seq<CalendarEventView>)
    ensures
        forall|i: int, k: int|
            0 <= i < deletes(alerts, remote).len() && 0 <= k < alerts.len() ==> (#[trigger] deletes(
                alerts,
                remote,
            )[i]).alert_id() != Some((#[trigger] alerts[k]).id),
{
    lemma_plan_members(alerts, remote);
}

/// Events without the ownership tag have no part in the plan: it is the same
/// with them in the listing and without them, whatever their ids are.
pub proof fn lemma_untagged_events_change_nothing(
    alerts: Seq<AlertView>,
    remote: Seq<CalendarEventView>,
)
    ensures
        sync_plan(alerts, tagged(remote)) == sync_plan(alerts, remote),
{
    assert forall|a: AlertView| #[trigger]
        needs_create(a, tagged(remote)) == needs_create(a, remote) by {
        lemma_owner_among_tagged(remote, a.id);
    }
    assert forall|a: AlertView| #[trigger]
        needs_update(a, tagged(remote)) == needs_update(a, remote) by {
        lemma_owner_among_tagged(remote, a.id);
    }
    lemma_filter_same(
        alerts,
        |a: AlertView| needs_create(a, tagged(remote)),
        |a: AlertView| needs_create(a, remote),
    );
    lemma_filter_same(
        alerts,
        |a: AlertView| needs_update(a, tagged(remote)),
        |a: AlertView| needs_update(a, remote),
    );
    assert forall|i: int| 0 <= i < updated_alerts(alerts, remote).len() implies owner(
        tagged(remote),
        #[trigger] updated_alerts(alerts, remote)[i].id,
    ) == owner(remote, updated_alerts(alerts, remote)[i].id) by {
        lemma_owner_among_tagged(remote, updated_alerts(alerts, remote)[i].id);
    }
    assert(updates(alerts, tagged(remote)) =~= updates(alerts, remote));
    assert forall|i: int| 0 <= i < unskipped(alerts).len() implies write_for(
        #[trigger] unskipped(alerts)[i],
        tagged(remote),
    ) == write_for(unskipped(alerts)[i], remote) by {
        lemma_owner_among_tagged(remote, unskipped(alerts)[i].id);
    }
    assert(writes(alerts, tagged(remote)) =~= writes(alerts, remote));
    lemma_deletes_among_tagged(alerts, remote);
}

/// The writes are the creates and the updates, put in the order of the
/// feed: the writes that make an event are the creates, in the same order,
/// and the writes that refresh one are the updates, in the same order.
pub proof fn lemma_writes_are_creates_and_updates(
    alerts: Seq<AlertView>,
    remote: Seq<CalendarEventView>,
)
    ensures
        created_by(writes(alerts, remote)) == creates(alerts, remote),
        updated_by(writes(alerts, remote)) == updates(alerts, remote),
    decreases alerts.len(),
{
    reveal(Seq::filter);
    if alerts.len() > 0 {
        let rest = alerts.drop_last();
        let last = alerts.last();
        lemma_writes_are_creates_and_updates(rest, remote);
        if !is_skipped(last.attributes.effect) {
            assert(unskipped(alerts) == unskipped(rest).push(last));
            assert(writes(alerts, remote) =~= writes(rest, remote).push(write_for(last, remote)));
            assert(writes(alerts, remote).drop_last() =~= writes(rest, remote));
            assert(updated_alerts(alerts, remote) == if needs_update(last, remote) {
                updated_alerts(rest, remote).push(last)
            } else {
                updated_alerts(rest, remote)
            });
            assert(created_by(writes(alerts, remote)) =~= creates(alerts, remote));
            assert(updated_by(writes(alerts, remote)) =~= updates(alerts, remote));
        } else {
            assert(writes(alerts, remote) =~= writes(rest, remote));
        }
    } else {
        assert(writes(alerts, remote) =~= Seq::empty());
    }
}

/// Who is in a plan. An alert that gets a new event is in the feed, is not
/// skipped and owns no event. An event that is refreshed is listed and is
/// tagged with the id of the alert beside it, which is in the feed and not
/// skipped. An event that is removed is listed and is tagged with an id that
/// no alert of the feed has.
pub proof fn lemma_plan_members(alerts: Seq<AlertView>, remote: Seq<CalendarEventView>)
    ensures
        forall|i: int|
            0 <= i < creates(alerts, remote).len() ==> {
                let alert = #[trigger] creates(alerts, remote)[i];
                &&& alerts.contains(alert)
                &&& !is_skipped(alert.attributes.effect)
                &&& owner(remote, alert.id) is None
            },
        forall|i: int|
            0 <= i < updates(alerts, remote).len() ==> {
                let (event, alert) = #[trigger] updates(alerts, remote)[i];
                &&& alerts.contains(alert)
                &&& !is_skipped(alert.attributes.effect)
                &&& remote.contains(event)
                &&& event.alert_id() == Some(alert.id)
            },
        forall|i: int|
            0 <= i < deletes(alerts, remote).len() ==> {
                let event = #[trigger] deletes(alerts, remote)[i];
                &&& remote.contains(event)
                &&& event.alert_id() is Some
                &&& !in_feed(alerts, event.alert_id().unwrap())
            },
{
    let created = creates(alerts, remote);
    assert forall|i: int| 0 <= i < created.len() implies {
        let alert = #[trigger] created[i];
        &&& alerts.contains(alert)
        &&& !is_skipped(alert.attributes.effect)
        &&& owner(remote, alert.id) is None
    } by {
        let wanted = |a: AlertView| needs_create(a, remote);
        alerts.lemma_filter_pred(wanted, i);
        assert(created.contains(created[i]));
        alerts.lemma_filter_contains_rev(wanted, created[i]);
    }
    let updated = updated_alerts(alerts, remote);
    assert forall|i: int| 0 <= i < updates(alerts, remote).len() implies {
        let (event, alert) = #[trigger] updates(alerts, remote)[i];
        &&& alerts.contains(alert)
        &&& !is_skipped(alert.attributes.effect)
        &&& remote.contains(event)
        &&& event.alert_id() == Some(alert.id)
    } by {
        let wanted = |a: AlertView| needs_update(a, remote);
        alerts.lemma_filter_pred(wanted, i);
        assert(updated.contains(updated[i]));
        alerts.lemma_filter_contains_rev(wanted, updated[i]);
        lemma_owner_is_listed(remote, updated[i].id);
    }
    lemma_deletes_members(alerts, remote);
}

/// The owner of an alert id is a listed event tagged with that id.
proof fn lemma_owner_is_listed(remote: Seq<CalendarEventView>, id: Seq<char>)
    ensures
        owner(remote, id) matches Some(event) ==> remote.contains(event) && event.alert_id()
            == Some(id),
    decreases remote.len(),
{
    if remote.len() > 0 {
        if remote.last().alert_id() == Some(id) {
            assert(remote[remote.len() - 1] == remote.last());
        } else {
            lemma_owner_is_listed(remote.drop_last(), id);
            if owner(remote, id) is Some {
                let event = owner(remote, id).unwrap();
                let i = choose|i: int|
                    0 <= i < remote.drop_last().len() && remote.drop_last()[i] == event;
                assert(remote[i] == event);
            }
        }
    }
}

/// Every event removed is listed and tagged with an id that no alert of the
/// feed has.
proof fn lemma_deletes_members(alerts: Seq<AlertView>, remote: Seq<CalendarEventView>)
    ensures
        forall|i: int|
            0 <= i < deletes(alerts, remote).len() ==> {
                let event = #[trigger] deletes(alerts, remote)[i];
                &&& remote.contains(event)
                &&& event.alert_id() is Some
                &&& !in_feed(alerts, event.alert_id().unwrap())
            },
    decreases remote.len(),
{
    if remote.len() > 0 {
        let rest = remote.drop_first();
        lemma_deletes_members(alerts, rest);
        let removed = deletes(alerts, remote);
        assert forall|i: int| 0 <= i < removed.len() implies {
            let event = #[trigger] removed[i];
            &&& remote.contains(event)
            &&& event.alert_id() is Some
            &&& !in_feed(alerts, event.alert_id().unwrap())
        } by {
            if is_stale(remote.first(), rest, alerts) && i == 0 {
                assert(remote[0] == removed[0]);
            } else {
                let j = if is_stale(remote.first(), rest, alerts) {
                    i - 1
                } else {
                    i
                };
                let event = deletes(alerts, rest)[j];
                assert(event == removed[i]);
                let at = choose|at: int| 0 <= at < rest.len() && rest[at] == event;
                assert(remote[at + 1] == event);
            }
        }
    }
}

/// A first pass: while no listed event carries the tag, every alert that is
/// not skipped gets a new event, and nothing is refreshed or removed.
pub proof fn lemma_first_pass(alerts: Seq<AlertView>, remote: Seq<CalendarEventView>)
    requires
        forall|i: int| 0 <= i < remote.len() ==> (#[trigger] remote[i]).alert_id() is None,
    ensures
        creates(alerts, remote) == unskipped(alerts),
        updates(alerts, remote).len() == 0,
        deletes(alerts, remote).len() == 0,
{
    assert forall|id: Seq<char>| #[trigger] owner(remote, id) is None by {
        lemma_owner_is_listed(remote, id);
    }
    lemma_filter_same(
        alerts,
        |a: AlertView| needs_create(a, remote),
        |a: AlertView| !is_skipped(a.attributes.effect),
    );
    lemma_plan_members(alerts, remote);
    if updates(alerts, remote).len() > 0 {
        let (event, alert) = updates(alerts, remote)[0];
        assert(remote.contains(event));
    }
    if deletes(alerts, remote).len() > 0 {
        let event = deletes(alerts, remote)[0];
        assert(remote.contains(event));
    }
}

/// A later pass over a calendar that is in step with the feed: when every
/// alert that is not skipped owns an event and every tagged event carries
/// the id of an alert of the feed, nothing is created or removed, and each
/// alert that is not skipped has its event refreshed.
pub proof fn lemma_settled_pass(alerts: Seq<AlertView>, remote: Seq<CalendarEventView>)
    requires
        forall|k: int|
            0 <= k < alerts.len() && !is_skipped(#[trigger] alerts[k].attributes.effect)
                ==> owner(remote, alerts[k].id) is Some,
        forall|i: int|
            0 <= i < remote.len() ==> ((#[trigger] remote[i]).alert_id() matches Some(id)
                ==> in_feed(alerts, id)),
    ensures
        creates(alerts, remote).len() == 0,
        updated_alerts(alerts, remote) == unskipped(alerts),
        deletes(alerts, remote).len() == 0,
{
    lemma_plan_members(alerts, remote);
    if creates(alerts, remote).len() > 0 {
        let alert = creates(alerts, remote)[0];
        assert(alerts.contains(alert));
    }
    if deletes(alerts, remote).len() > 0 {
        let event = deletes(alerts, remote)[0];
        assert(remote.contains(event));
    }
    lemma_filter_owned(alerts, remote);
}

/// Where every alert that is not skipped owns an event, the alerts to
/// refresh are the alerts that are not skipped.
proof fn lemma_filter_owned(alerts: Seq<AlertView>, remote: Seq<CalendarEventView>)
    requires
        forall|k: int|
            0 <= k < alerts.len() && !is_skipped(#[trigger] alerts[k].attributes.effect)
                ==> owner(remote, alerts[k].id) is Some,
    ensures
        updated_alerts(alerts, remote) == unskipped(alerts),
    decreases alerts.len(),
{
    reveal(Seq::filter);
    if alerts.len() > 0 {
        let rest = alerts.drop_last();
        assert forall|k: int|
            0 <= k < rest.len() && !is_skipped(
                #[trigger] rest[k].attributes.effect,
            ) implies owner(remote, rest[k].id) is Some by {
            assert(rest[k] == alerts[k]);
        }
        lemma_filter_owned(rest, remote);
        assert(alerts.last() == alerts[alerts.len() - 1]);
    }
}

} // verus!
