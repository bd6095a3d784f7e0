//! Properties of grouping, summaries and linking, stated over the fields of
//! the events and results themselves.

use vstd::prelude::*;
use crate::groups::{grouped_by, items_with_key};
use crate::grouping::{
    actor_key, confidence_total, is_linked_user, is_summary_of, link_result, linked_to, logins_in_group,
    logins_spec, matching_actor_spec, result_key,
};
use crate::models::event::{EventView, IntentView, SummaryView};
use crate::utils::{chrono_seconds_between, timestamp_spec};

verus! {

/// `x` stands in the group of key `k`.
pub open spec fn in_group_of<V>(keys: Seq<Seq<char>>, groups: Seq<Seq<V>>, k: Seq<char>, x: V) -> bool {
    exists|p: int| 0 <= p < keys.len() && keys[p] == k && #[trigger] groups[p].contains(x)
}

/// The login `l` is the key `k` with the moment of one of the successful
/// ssh logins among `g` whose timestamp reads.
pub open spec fn is_login_of(k: Seq<char>, g: Seq<EventView>, l: (Seq<char>, (i64, u32))) -> bool {
    &&& l.0 == k
    &&& exists|m: int|
        0 <= m < g.len() && (#[trigger] g[m]).event_type == "ssh_login_success"@ && timestamp_spec(
            g[m].timestamp,
        ) == Some(l.1)
}

/// The login `l` is that of one of the keys, as `is_login_of` says.
pub open spec fn is_login_among(keys: Seq<Seq<char>>, groups: Seq<Seq<EventView>>, l: (Seq<char>, (i64, u32))) -> bool {
    exists|p: int| 0 <= p < keys.len() && #[trigger] is_login_of(keys[p], groups[p], l)
}

proof fn lemma_items_with_key_member<V>(items: Seq<V>, keyf: spec_fn(V) -> Option<Seq<char>>, k: Seq<char>)
    ensures
        forall|i: int|
            0 <= i < items_with_key(items, keyf, k).len() ==> keyf(#[trigger] items_with_key(items, keyf, k)[i])
                == Some(k),
        forall|j: int|
            0 <= j < items.len() && keyf(items[j]) == Some(k) ==> items_with_key(items, keyf, k).contains(
                #[trigger] items[j],
            ),
    decreases items.len(),
{
    if items.len() > 0 {
        let pre = items.drop_last();
        lemma_items_with_key_member(pre, keyf, k);
        let r0 = items_with_key(pre, keyf, k);
        let r = items_with_key(items, keyf, k);
        assert forall|i: int| 0 <= i < r.len() implies keyf(#[trigger] r[i]) == Some(k) by {
            if i < r0.len() {
                assert(r[i] == r0[i]);
            }
        }
        assert forall|j: int| 0 <= j < items.len() && keyf(items[j]) == Some(k) implies r.contains(
            #[trigger] items[j],
        ) by {
            if j < pre.len() {
                assert(pre[j] == items[j]);
                let w = choose|w: int| 0 <= w < r0.len() && r0[w] == pre[j];
                assert(r[w] == r0[w]);
            } else {
                assert(items[j] == items.last());
                assert(r[r0.len() as int] == items.last());
            }
        }
    }
}

/// Events are grouped by their source address, or, where they have none,
/// by their user: every event in the group of a key has that key as its
/// address, or has no address and that key as its user; every event with
/// an address stands in the group of that address, and every event with a
/// user but no address in the group of that user.
pub proof fn events_are_grouped_by_address_then_user(
    keys: Seq<Seq<char>>,
    groups: Seq<Seq<EventView>>,
    items: Seq<EventView>,
)
    requires
        grouped_by(keys, groups, items, |e: EventView| actor_key(e)),
    ensures
        forall|p: int, i: int|
            0 <= p < keys.len() && 0 <= i < groups[p].len() ==> {
                let x = #[trigger] groups[p][i];
                &&& x.ip is Some ==> x.ip == Some(keys[p])
                &&& x.ip is None ==> x.user == Some(keys[p])
            },
        forall|j: int|
            0 <= j < items.len() ==> {
                let x = #[trigger] items[j];
                &&& x.ip matches Some(a) ==> in_group_of(keys, groups, a, x)
                &&& (x.ip is None && x.user is Some) ==> in_group_of(keys, groups, x.user->0, x)
            },
{
    let keyf = |e: EventView| actor_key(e);
    assert forall|p: int, i: int| 0 <= p < keys.len() && 0 <= i < groups[p].len() implies {
        let x = #[trigger] groups[p][i];
        &&& x.ip is Some ==> x.ip == Some(keys[p])
        &&& x.ip is None ==> x.user == Some(keys[p])
    } by {
        lemma_items_with_key_member(items, keyf, keys[p]);
        assert(groups[p] == items_with_key(items, keyf, keys[p]));
        assert(keyf(groups[p][i]) == Some(keys[p]));
    }
    assert forall|j: int| 0 <= j < items.len() implies {
        let x = #[trigger] items[j];
        &&& x.ip matches Some(a) ==> in_group_of(keys, groups, a, x)
        &&& (x.ip is None && x.user is Some) ==> in_group_of(keys, groups, x.user->0, x)
    } by {
        let x = items[j];
        if let Some(k) = keyf(x) {
            assert(exists|i: int| 0 <= i < items.len() && keyf(items[i]) == Some(k));
            assert(keys.contains(k));
            let p = choose|p: int| 0 <= p < keys.len() && keys[p] == k;
            lemma_items_with_key_member(items, keyf, k);
            assert(groups[p] == items_with_key(items, keyf, keys[p]));
            assert(groups[p].contains(x));
        }
    }
}

/// Results are grouped by their actor: every result in the group of a key
/// is that actor's, and every result stands in the group of its actor.
pub proof fn results_are_grouped_by_actor(
    keys: Seq<Seq<char>>,
    groups: Seq<Seq<IntentView>>,
    items: Seq<IntentView>,
)
    requires
        grouped_by(keys, groups, items, |x: IntentView| result_key(x)),
    ensures
        forall|p: int, i: int|
            0 <= p < keys.len() && 0 <= i < groups[p].len() ==> (#[trigger] groups[p][i]).actor == keys[p],
        forall|j: int| 0 <= j < items.len() ==> in_group_of(keys, groups, (#[trigger] items[j]).actor, items[j]),
{
    let keyf = |x: IntentView| result_key(x);
    assert forall|p: int, i: int| 0 <= p < keys.len() && 0 <= i < groups[p].len() implies (
    #[trigger] groups[p][i]).actor == keys[p] by {
        lemma_items_with_key_member(items, keyf, keys[p]);
        assert(groups[p] == items_with_key(items, keyf, keys[p]));
        assert(keyf(groups[p][i]) == Some(keys[p]));
    }
    assert forall|j: int| 0 <= j < items.len() implies in_group_of(keys, groups, (#[trigger] items[j]).actor, items[j]) by {
        let k = items[j].actor;
        assert(keyf(items[j]) == Some(k));
        assert(exists|i: int| 0 <= i < items.len() && keyf(items[i]) == Some(k));
        assert(keys.contains(k));
        let p = choose|p: int| 0 <= p < keys.len() && keys[p] == k;
        lemma_items_with_key_member(items, keyf, k);
        assert(groups[p] == items_with_key(items, keyf, keys[p]));
        assert(groups[p].contains(items[j]));
    }
}

proof fn lemma_total_is_sum(g: Seq<IntentView>)
    ensures
        confidence_total(g) == g.fold_left(0int, |acc: int, r: IntentView| acc + r.confidence),
    decreases g.len(),
{
    if g.len() > 0 {
        lemma_total_is_sum(g.drop_last());
    }
}

/// A summary's confidence is the sum of the confidences of all its
/// results, and its count is their number: their quotient is the average.
pub proof fn summary_confidence_is_the_sum(s: SummaryView, k: Seq<char>, g: Seq<IntentView>)
    requires
        is_summary_of(s, k, g),
    ensures
        s.confidence_sum == g.fold_left(0int, |acc: int, r: IntentView| acc + r.confidence),
        s.result_count == g.len(),
{
    lemma_total_is_sum(g);
}

proof fn lemma_logins_in_group_from(k: Seq<char>, g: Seq<EventView>)
    ensures
        forall|i: int|
            0 <= i < logins_in_group(k, g).len() ==> is_login_of(k, g, #[trigger] logins_in_group(k, g)[i]),
        forall|m: int|
            0 <= m < g.len() && (#[trigger] g[m]).event_type == "ssh_login_success"@ && timestamp_spec(
                g[m].timestamp,
            ) is Some ==> logins_in_group(k, g).contains((k, timestamp_spec(g[m].timestamp)->0)),
    decreases g.len(),
{
    if g.len() > 0 {
        let pre = g.drop_last();
        lemma_logins_in_group_from(k, pre);
        let r0 = logins_in_group(k, pre);
        let r = logins_in_group(k, g);
        let e = g.last();
        assert(g[g.len() - 1] == e);
        assert forall|i: int| 0 <= i < r.len() implies is_login_of(k, g, #[trigger] r[i]) by {
            if i < r0.len() {
                assert(r[i] == r0[i]);
                assert(is_login_of(k, pre, r0[i]));
                let m = choose|m: int|
                    0 <= m < pre.len() && (#[trigger] pre[m]).event_type == "ssh_login_success"@ && timestamp_spec(
                        pre[m].timestamp,
                    ) == Some(r0[i].1);
                assert(g[m] == pre[m]);
            } else {
                assert(r[i] == (k, timestamp_spec(e.timestamp)->0));
                assert(g[g.len() - 1] == e);
            }
        }
        assert forall|m: int|
            0 <= m < g.len() && (#[trigger] g[m]).event_type == "ssh_login_success"@ && timestamp_spec(
                g[m].timestamp,
            ) is Some implies r.contains((k, timestamp_spec(g[m].timestamp)->0)) by {
            if m < pre.len() {
                assert(pre[m] == g[m]);
                assert(r0.contains((k, timestamp_spec(pre[m].timestamp)->0)));
                let w = choose|w: int| 0 <= w < r0.len() && r0[w] == (k, timestamp_spec(pre[m].timestamp)->0);
                assert(r[w] == r0[w]);
            } else {
                assert(r[r0.len() as int] == (k, timestamp_spec(e.timestamp)->0));
            }
        }
    }
}

/// The logins that linking goes by are exactly the successful ssh logins
/// of the actors whose timestamps read: each is the actor's key with the
/// moment of one of its `ssh_login_success` events, and each such event
/// gives one.
pub proof fn logins_are_the_successful_logins(keys: Seq<Seq<char>>, groups: Seq<Seq<EventView>>)
    requires
        keys.len() == groups.len(),
    ensures
        forall|i: int|
            0 <= i < logins_spec(keys, groups).len() ==> is_login_among(
                keys,
                groups,
                #[trigger] logins_spec(keys, groups)[i],
            ),
        forall|p: int, m: int|
            0 <= p < keys.len() && 0 <= m < groups[p].len() && (#[trigger] groups[p][m]).event_type
                == "ssh_login_success"@ && timestamp_spec(groups[p][m].timestamp) is Some
                ==> logins_spec(keys, groups).contains((keys[p], timestamp_spec(groups[p][m].timestamp)->0)),
    decreases keys.len(),
{
    if keys.len() > 0 {
        let k0 = keys.drop_last();
        let g0 = groups.drop_last();
        logins_are_the_successful_logins(k0, g0);
        let n = keys.len() - 1;
        lemma_logins_in_group_from(keys.last(), groups.last());
        let a = logins_spec(k0, g0);
        let b = logins_in_group(keys.last(), groups.last());
        let r = logins_spec(keys, groups);
        assert(r == a + b);
        assert(keys[n] == keys.last() && groups[n] == groups.last());
        assert forall|i: int| 0 <= i < r.len() implies is_login_among(keys, groups, #[trigger] r[i]) by {
            if i < a.len() {
                assert(r[i] == a[i]);
                assert(is_login_among(k0, g0, a[i]));
                let p = choose|p: int| 0 <= p < k0.len() && #[trigger] is_login_of(k0[p], g0[p], a[i]);
                assert(keys[p] == k0[p] && groups[p] == g0[p]);
                assert(is_login_of(keys[p], groups[p], r[i]));
            } else {
                assert(r[i] == b[i - a.len()]);
                assert(is_login_of(keys.last(), groups.last(), b[i - a.len()]));
                assert(is_login_of(keys[n], groups[n], r[i]));
            }
        }
        assert forall|p: int, m: int|
            0 <= p < keys.len() && 0 <= m < groups[p].len() && (#[trigger] groups[p][m]).event_type
                == "ssh_login_success"@ && timestamp_spec(groups[p][m].timestamp) is Some implies r.contains(
            (keys[p], timestamp_spec(groups[p][m].timestamp)->0),
        ) by {
            let x = (keys[p], timestamp_spec(groups[p][m].timestamp)->0);
            if p < n {
                assert(k0[p] == keys[p] && g0[p] == groups[p]);
                assert(g0[p][m] == groups[p][m]);
                assert(a.contains(x));
                let w = choose|w: int| 0 <= w < a.len() && a[w] == x;
                assert(r[w] == a[w]);
            } else {
                assert(groups.last()[m] == groups[p][m]);
                assert(b.contains(x));
                let w = choose|w: int| 0 <= w < b.len() && b[w] == x;
                assert(r[a.len() + w] == b[w]);
            }
        }
    }
}

/// An orphan event is linked to an actor only where its timestamp reads
/// and a login of that actor lies from 0 to 300 seconds before it, with no
/// login of any actor nearer within those 300 seconds; and where some
/// login lies from 0 to 300 seconds before it, it is linked to an actor.
pub proof fn linking_window_is_five_minutes(e: EventView, logins: Seq<(Seq<char>, (i64, u32))>)
    ensures
        matching_actor_spec(e, logins) matches Some(a) ==> {
            &&& timestamp_spec(e.timestamp) is Some
            &&& exists|j: int|
                0 <= j < logins.len() && logins[j].0 == a && (chrono_seconds_between(
                    timestamp_spec(e.timestamp)->0,
                    logins[j].1,
                ) matches Some(d) && 0 <= d <= 300 && forall|k: int|
                    0 <= k < logins.len() && (#[trigger] chrono_seconds_between(
                        timestamp_spec(e.timestamp)->0,
                        logins[k].1,
                    ) matches Some(d2) && 0 <= d2 <= 300) ==> d <= chrono_seconds_between(
                        timestamp_spec(e.timestamp)->0,
                        logins[k].1,
                    )->0)
        },
        (timestamp_spec(e.timestamp) matches Some(t) && exists|j: int|
            0 <= j < logins.len() && (#[trigger] chrono_seconds_between(t, logins[j].1) matches Some(d) && 0
                <= d <= 300)) ==> matching_actor_spec(e, logins) is Some,
{
    if let Some(a) = matching_actor_spec(e, logins) {
        crate::laws::linked_event_follows_login(e, logins, a);
    }
    if let Some(t) = timestamp_spec(e.timestamp) {
        if exists|j: int|
            0 <= j < logins.len() && (#[trigger] chrono_seconds_between(t, logins[j].1) matches Some(d) && 0 <= d
                <= 300) {
            let j = choose|j: int|
                0 <= j < logins.len() && (#[trigger] chrono_seconds_between(t, logins[j].1) matches Some(d) && 0
                    <= d <= 300);
            crate::laws::each_matching_orphan_is_added_once(seq![e], logins, 0);
            assert(seq![e][0] == e);
        }
    }
}

/// Linking removes the group of a key exactly where some orphan event with
/// that key as its user is linked to an actor, and adds to the group of a
/// key exactly the orphan events, in order, whose matched actor is that
/// key: the group after linking is the old group followed by them.
pub proof fn linking_removes_exactly_the_linked_users(
    group: Option<Seq<EventView>>,
    orphans: Seq<EventView>,
    logins: Seq<(Seq<char>, (i64, u32))>,
    k: Seq<char>,
)
    ensures
        (exists|j: int|
            0 <= j < orphans.len() && (#[trigger] orphans[j]).user == Some(k) && matching_actor_spec(
                orphans[j],
                logins,
            ) is Some) ==> link_result(group, orphans, logins, k) is None,
        (forall|j: int|
            0 <= j < orphans.len() && (#[trigger] orphans[j]).user == Some(k) ==> matching_actor_spec(
                orphans[j],
                logins,
            ) is None) ==> link_result(group, orphans, logins, k) == (match group {
            Some(g) => Some(g + orphans.filter(|e: EventView| matching_actor_spec(e, logins) == Some(k))),
            None => if orphans.filter(|e: EventView| matching_actor_spec(e, logins) == Some(k)).len() > 0 {
                Some(orphans.filter(|e: EventView| matching_actor_spec(e, logins) == Some(k)))
            } else {
                None
            },
        }),
{
    lemma_linked_to_is_filter(orphans, logins, k);
    if exists|j: int|
        0 <= j < orphans.len() && (#[trigger] orphans[j]).user == Some(k) && matching_actor_spec(orphans[j], logins)
            is Some {
        let j = choose|j: int|
            0 <= j < orphans.len() && (#[trigger] orphans[j]).user == Some(k) && matching_actor_spec(
                orphans[j],
                logins,
            ) is Some;
        assert(is_linked_user(orphans, logins, k));
    }
}

proof fn lemma_linked_to_is_filter(orphans: Seq<EventView>, logins: Seq<(Seq<char>, (i64, u32))>, k: Seq<char>)
    ensures
        linked_to(orphans, logins, k) == orphans.filter(|e: EventView| matching_actor_spec(e, logins) == Some(k)),
    decreases orphans.len(),
{
    reveal(Seq::filter);
    if orphans.len() > 0 {
        lemma_linked_to_is_filter(orphans.drop_last(), logins, k);
    }
}

} // verus!
