//! What a pass leaves behind, and what the pass after it finds.
//!
//! A pass is carried out by removing the events it removes and adding one
//! event for every alert it creates. The calendar is in order when no two of
//! its events carry the same alert id; the laws here say that passes keep it
//! so, and that a second pass over the same feed only refreshes.

use vstd::prelude::*;

use crate::calendar::CalendarEventView;
use crate::reconcile::{
    creates, deletes, in_feed, is_skipped, is_stale, lemma_plan_members, lemma_settled_pass,
    needs_create, owner, unskipped, updated_alerts,
};
use crate::types::AlertView;

verus! {

/// No two events of the listing carry the same alert id.
pub open spec fn one_event_per_alert(remote: Seq<CalendarEventView>) -> bool {
    forall|i: int, j: int|
        0 <= i < j < remote.len() && (#[trigger] remote[i]).alert_id() is Some ==> remote[i].alert_id()
            != (#[trigger] remote[j]).alert_id()
}

/// No two alerts of the feed that are not skipped have the same id.
pub open spec fn distinct_live_ids(alerts: Seq<AlertView>) -> bool {
    forall|i: int, j: int|
        0 <= i < j < alerts.len() && !is_skipped((#[trigger] alerts[i]).attributes.effect)
            && !is_skipped((#[trigger] alerts[j]).attributes.effect) ==> alerts[i].id
            != alerts[j].id
}

/// The events stand for the alerts, one each and in the same order: each is
/// tagged with the id of its alert.
pub open spec fn made_for(events: Seq<CalendarEventView>, alerts: Seq<AlertView>) -> bool {
    &&& events.len() == alerts.len()
    &&& forall|i: int|
        0 <= i < events.len() ==> (#[trigger] events[i]).alert_id() == Some(alerts[i].id)
}

/// The events that a pass does not remove, in the order listed.
pub open spec fn kept(alerts: Seq<AlertView>, remote: Seq<CalendarEventView>) -> Seq<
    CalendarEventView,
>
    decreases remote.len(),
{
    if remote.len() == 0 {
        Seq::empty()
    } else if is_stale(remote.first(), remote.drop_first(), alerts) {
        kept(alerts, remote.drop_first())
    } else {
        seq![remote.first()] + kept(alerts, remote.drop_first())
    }
}

/// The event at position `at` of the listing is not removed.
pub open spec fn stays_at(
    alerts: Seq<AlertView>,
    remote: Seq<CalendarEventView>,
    at: int,
) -> bool {
    0 <= at < remote.len() && !is_stale(remote[at], remote.skip(at + 1), alerts)
}

/// The event stands somewhere in the listing where it is not removed.
pub open spec fn stays(
    alerts: Seq<AlertView>,
    remote: Seq<CalendarEventView>,
    event: CalendarEventView,
) -> bool {
    exists|at: int| #[trigger] stays_at(alerts, remote, at) && remote[at] == event
}

/// The listing once a pass is carried out: the events it does not remove,
/// then `created`, the events that the calendar made for the alerts that the
/// pass creates.
pub open spec fn listing_after(
    alerts: Seq<AlertView>,
    remote: Seq<CalendarEventView>,
    created: Seq<CalendarEventView>,
) -> Seq<CalendarEventView> {
    kept(alerts, remote) + created
}

/// An alert id has an owner exactly when some listed event is tagged with
/// it.
pub proof fn lemma_owner_exists(remote: Seq<CalendarEventView>, id: Seq<char>)
    ensures
        owner(remote, id) is Some <==> exists|i: int|
            0 <= i < remote.len() && (#[trigger] remote[i]).alert_id() == Some(id),
    decreases remote.len(),
{
    if remote.len() > 0 {
        let rest = remote.drop_last();
        lemma_owner_exists(rest, id);
        if remote.last().alert_id() == Some(id) {
            assert(remote[remote.len() - 1].alert_id() == Some(id));
        } else {
            if owner(rest, id) is Some {
                let i = choose|i: int|
                    0 <= i < rest.len() && (#[trigger] rest[i]).alert_id() == Some(id);
                assert(remote[i].alert_id() == Some(id));
            }
            if exists|i: int|
                0 <= i < remote.len() && (#[trigger] remote[i]).alert_id() == Some(id) {
                let i = choose|i: int|
                    0 <= i < remote.len() && (#[trigger] remote[i]).alert_id() == Some(id);
                assert(rest[i].alert_id() == Some(id));
            }
        }
    }
}

/// In a listing where no two events carry the same alert id, no event that
/// follows a tagged event carries its id.
proof fn lemma_no_later_owner(remote: Seq<CalendarEventView>, at: int)
    requires
        one_event_per_alert(remote),
        0 <= at < remote.len(),
        remote[at].alert_id() is Some,
    ensures
        owner(remote.skip(at + 1), remote[at].alert_id().unwrap()) is None,
{
    let id = remote[at].alert_id().unwrap();
    let later = remote.skip(at + 1);
    lemma_owner_exists(later, id);
    if owner(later, id) is Some {
        let i = choose|i: int| 0 <= i < later.len() && (#[trigger] later[i]).alert_id() == Some(id);
        assert(remote[at + 1 + i] == later[i]);
    }
}

/// The events kept are the listed events that are not removed where they
/// stand.
proof fn lemma_kept_members(alerts: Seq<AlertView>, remote: Seq<CalendarEventView>)
    ensures
        forall|i: int|
            0 <= i < kept(alerts, remote).len() ==> stays(
                alerts,
                remote,
                #[trigger] kept(alerts, remote)[i],
            ),
        forall|at: int| #[trigger]
            stays_at(alerts, remote, at) ==> kept(alerts, remote).contains(remote[at]),
    decreases remote.len(),
{
    if remote.len() > 0 {
        let rest = remote.drop_first();
        let all = kept(alerts, remote);
        let tail = kept(alerts, rest);
        let stale = is_stale(remote.first(), rest, alerts);
        lemma_kept_members(alerts, rest);
        assert(remote.skip(1) =~= rest);
        assert forall|at: int| 0 <= at < rest.len() implies stays_at(alerts, rest, at) == stays_at(
            alerts,
            remote,
            at + 1,
        ) by {
            assert(rest.skip(at + 1) =~= remote.skip(at + 2));
            assert(rest[at] == remote[at + 1]);
        }
        assert forall|i: int| 0 <= i < all.len() implies stays(alerts, remote, #[trigger] all[i]) by {
            if !stale && i == 0 {
                assert(stays_at(alerts, remote, 0) && remote[0] == all[0]);
            } else {
                let j = if stale {
                    i
                } else {
                    i - 1
                };
                assert(tail[j] == all[i]);
                assert(stays(alerts, rest, tail[j]));
                let at = choose|at: int|
                    #[trigger] stays_at(alerts, rest, at) && rest[at] == tail[j];
                assert(stays_at(alerts, remote, at + 1) && remote[at + 1] == all[i]);
            }
        }
        assert forall|at: int| #[trigger] stays_at(alerts, remote, at) implies all.contains(
            remote[at],
        ) by {
            if at == 0 {
                assert(all[0] == remote[0]);
            } else {
                assert(stays_at(alerts, rest, at - 1));
                assert(rest[at - 1] == remote[at]);
                let j = choose|j: int| 0 <= j < tail.len() && tail[j] == rest[at - 1];
                let i = if stale {
                    j
                } else {
                    j + 1
                };
                assert(all[i] == remote[at]);
            }
        }
    }
}

/// A second pass over the same feed only refreshes. Where no two listed
/// events carry the same alert id, and the first pass was carried out, the
/// next pass creates nothing and removes nothing, and each alert that is not
/// skipped has its event refreshed.
pub proof fn lemma_second_pass(
    alerts: Seq<AlertView>,
    remote: Seq<CalendarEventView>,
    created: Seq<CalendarEventView>,
)
    requires
        one_event_per_alert(remote),
        made_for(created, creates(alerts, remote)),
    ensures
        creates(alerts, listing_after(alerts, remote, created)).len() == 0,
        updated_alerts(alerts, listing_after(alerts, remote, created)) == unskipped(alerts),
        deletes(alerts, listing_after(alerts, remote, created)).len() == 0,
{
    let stayed = kept(alerts, remote);
    let after = listing_after(alerts, remote, created);
    let wanted = creates(alerts, remote);
    lemma_kept_members(alerts, remote);
    lemma_plan_members(alerts, remote);
    assert forall|k: int|
        0 <= k < alerts.len() && !is_skipped(
            #[trigger] alerts[k].attributes.effect,
        ) implies owner(after, alerts[k].id) is Some by {
        let id = alerts[k].id;
        lemma_owner_exists(remote, id);
        lemma_owner_exists(after, id);
        if owner(remote, id) is Some {
            let at = choose|at: int|
                0 <= at < remote.len() && (#[trigger] remote[at]).alert_id() == Some(id);
            assert(alerts[k].id == id && in_feed(alerts, id));
            assert(stays_at(alerts, remote, at));
            let i = choose|i: int| 0 <= i < stayed.len() && stayed[i] == remote[at];
            assert(after[i].alert_id() == Some(id));
        } else {
            alerts.lemma_filter_contains(|a: AlertView| needs_create(a, remote), k);
            let i = choose|i: int| 0 <= i < wanted.len() && wanted[i] == alerts[k];
            assert(created[i].alert_id() == Some(id));
            assert(after[stayed.len() + i] == created[i]);
        }
    }
    assert forall|i: int| 0 <= i < after.len() implies ((#[trigger] after[i]).alert_id() matches Some(
        id,
    ) ==> in_feed(alerts, id)) by {
        if after[i].alert_id() is Some {
            let id = after[i].alert_id().unwrap();
            if i < stayed.len() {
                assert(stays(alerts, remote, stayed[i]));
                let at = choose|at: int|
                    #[trigger] stays_at(alerts, remote, at) && remote[at] == stayed[i];
                lemma_no_later_owner(remote, at);
            } else {
                let j = i - stayed.len();
                assert(created[j] == after[i]);
                let alert = wanted[j];
                assert(alerts.contains(alert) && !is_skipped(alert.attributes.effect));
                let k = choose|k: int| 0 <= k < alerts.len() && alerts[k] == alert;
                assert(alerts[k].id == id);
            }
        }
    }
    lemma_settled_pass(alerts, after);
}

/// The events kept of a listing in which no two events carry the same alert
/// id are again such a listing.
proof fn lemma_kept_in_order(alerts: Seq<AlertView>, remote: Seq<CalendarEventView>)
    requires
        one_event_per_alert(remote),
    ensures
        one_event_per_alert(kept(alerts, remote)),
    decreases remote.len(),
{
    if remote.len() > 0 {
        let rest = remote.drop_first();
        let all = kept(alerts, remote);
        assert forall|i: int, j: int|
            0 <= i < j < rest.len() && (#[trigger] rest[i]).alert_id() is Some implies rest[i].alert_id()
            != (#[trigger] rest[j]).alert_id() by {
            assert(rest[i] == remote[i + 1] && rest[j] == remote[j + 1]);
        }
        lemma_kept_in_order(alerts, rest);
        lemma_kept_members(alerts, rest);
        if !is_stale(remote.first(), rest, alerts) {
            let tail = kept(alerts, rest);
            assert forall|i: int, j: int|
                0 <= i < j < all.len() && (#[trigger] all[i]).alert_id() is Some implies all[i].alert_id()
                != (#[trigger] all[j]).alert_id() by {
                assert(all[j] == tail[j - 1]);
                if i == 0 {
                    assert(stays(alerts, rest, tail[j - 1]));
                    let at = choose|at: int|
                        #[trigger] stays_at(alerts, rest, at) && rest[at] == tail[j - 1];
                    assert(remote[at + 1] == rest[at]);
                    assert(remote[0] == all[0]);
                } else {
                    assert(all[i] == tail[i - 1]);
                }
            }
        }
    }
}

/// The alerts that a pass creates have ids of their own where the alerts of
/// the feed that are not skipped have.
proof fn lemma_creates_distinct(alerts: Seq<AlertView>, remote: Seq<CalendarEventView>)
    requires
        distinct_live_ids(alerts),
    ensures
        forall|i: int, j: int|
            0 <= i < j < creates(alerts, remote).len() ==> (#[trigger] creates(
                alerts,
                remote,
            )[i]).id != (#[trigger] creates(alerts, remote)[j]).id,
    decreases alerts.len(),
{
    reveal(Seq::filter);
    if alerts.len() > 0 {
        let rest = alerts.drop_last();
        let wanted = |a: AlertView| needs_create(a, remote);
        assert forall|i: int, j: int|
            0 <= i < j < rest.len() && !is_skipped((#[trigger] rest[i]).attributes.effect)
                && !is_skipped((#[trigger] rest[j]).attributes.effect) implies rest[i].id
            != rest[j].id by {
            assert(rest[i] == alerts[i] && rest[j] == alerts[j]);
        }
        lemma_creates_distinct(rest, remote);
        let all = creates(alerts, remote);
        let before = creates(rest, remote);
        if needs_create(alerts.last(), remote) {
            assert(all == before.push(alerts.last()));
            assert forall|i: int, j: int| 0 <= i < j < all.len() implies (#[trigger] all[i]).id != (
            #[trigger] all[j]).id by {
                if j == all.len() - 1 {
                    assert(all[i] == before[i]);
                    rest.lemma_filter_pred(wanted, i);
                    assert(before.contains(before[i]));
                    rest.lemma_filter_contains_rev(wanted, before[i]);
                    let at = choose|at: int| 0 <= at < rest.len() && rest[at] == before[i];
                    assert(alerts[at] == rest[at]);
                    assert(alerts[alerts.len() - 1] == alerts.last());
                } else {
                    assert(all[i] == before[i] && all[j] == before[j]);
                }
            }
        }
    }
}

/// Passes keep the calendar in order. Where no two listed events carry the
/// same alert id and no two alerts of the feed that are not skipped have the
/// same id, no two events carry the same alert id once the pass is carried
/// out.
pub proof fn lemma_one_event_per_alert_stays(
    alerts: Seq<AlertView>,
    remote: Seq<CalendarEventView>,
    created: Seq<CalendarEventView>,
)
    requires
        one_event_per_alert(remote),
        distinct_live_ids(alerts),
        made_for(created, creates(alerts, remote)),
    ensures
        one_event_per_alert(listing_after(alerts, remote, created)),
{
    let stayed = kept(alerts, remote);
    let after = listing_after(alerts, remote, created);
    let wanted = creates(alerts, remote);
    lemma_kept_in_order(alerts, remote);
    lemma_kept_members(alerts, remote);
    lemma_creates_distinct(alerts, remote);
    lemma_plan_members(alerts, remote);
    assert forall|i: int, j: int|
        0 <= i < j < after.len() && (#[trigger] after[i]).alert_id() is Some implies after[i].alert_id()
        != (#[trigger] after[j]).alert_id() by {
        if j < stayed.len() {
            assert(after[i] == stayed[i] && after[j] == stayed[j]);
        } else if i < stayed.len() {
            let made = j - stayed.len();
            assert(after[j] == created[made]);
            let id = wanted[made].id;
            assert(owner(remote, id) is None);
            lemma_owner_exists(remote, id);
            assert(stays(alerts, remote, stayed[i]));
            let at = choose|at: int|
                #[trigger] stays_at(alerts, remote, at) && remote[at] == stayed[i];
            assert(remote[at].alert_id() != Some(id));
        } else {
            let first = i - stayed.len();
            let second = j - stayed.len();
            assert(after[i] == created[first] && after[j] == created[second]);
            assert(wanted[first].id != wanted[second].id);
        }
    }
}

/// In a listing where no two events carry the same alert id, the events
/// removed are the events whose alert has left the feed: those tagged with
/// an id that no alert of the feed has.
pub proof fn lemma_deletes_of_ordered_listing(
    alerts: Seq<AlertView>,
    remote: Seq<CalendarEventView>,
)
    requires
        one_event_per_alert(remote),
    ensures
        deletes(alerts, remote) == remote.filter(
            |e: CalendarEventView|
                e.alert_id() matches Some(id) && !in_feed(alerts, id),
        ),
    decreases remote.len(),
{
    let gone = |e: CalendarEventView| e.alert_id() matches Some(id) && !in_feed(alerts, id);
    if remote.len() > 0 {
        let rest = remote.drop_first();
        assert forall|i: int, j: int|
            0 <= i < j < rest.len() && (#[trigger] rest[i]).alert_id() is Some implies rest[i].alert_id()
            != (#[trigger] rest[j]).alert_id() by {
            assert(rest[i] == remote[i + 1] && rest[j] == remote[j + 1]);
        }
        lemma_deletes_of_ordered_listing(alerts, rest);
        assert(remote =~= seq![remote.first()] + rest);
        rest.lemma_filter_prepend(remote.first(), gone);
        if remote.first().alert_id() is Some {
            assert(remote.skip(1) =~= rest);
            lemma_no_later_owner(remote, 0);
        }
    } else {
        assert(remote.filter(gone) =~= Seq::empty());
    }
}

} // verus!
