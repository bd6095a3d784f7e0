//! Grouping of events per actor, linking of orphan events to the actor
//! that logged in shortly before them, and summaries of the intents found
//! per actor.

use vstd::prelude::*;
use crate::groups::{
    Groups, grouped_by, keys_except, keys_in_order, lemma_grouped_by_step, lemma_keys_except_one_more,
    lemma_keys_except_same,
};
use crate::models::event::{
    ActorSummary, Event, EventView, IntentResult, IntentView, SummaryView, events_view, intents_view,
    summaries_view,
};
use crate::order::{sorted_distinct, sorted_distinct_of};
use crate::utils::{LogTime, chrono_seconds_between, parse_timestamp, seconds_between, timestamp_spec};

verus! {

/// The actor of an event: its source address, or else its user.
pub open spec fn actor_key(e: EventView) -> Option<Seq<char>> {
    match e.ip {
        Some(ip) => Some(ip),
        None => e.user,
    }
}

/// The actor of an intent result.
pub open spec fn result_key(r: IntentView) -> Option<Seq<char>> {
    Some(r.actor)
}

/// The actor of an event: its source address, or else its user.
fn actor_of(e: &Event) -> (r: Option<String>)
    ensures
        r.deep_view() == actor_key(e@),
{
    match &e.ip {
        Some(ip) => Some(ip.clone()),
        None => match &e.user {
            Some(u) => Some(u.clone()),
            None => None,
        },
    }
}

/// The events grouped per actor (source address, or else user); events
/// with neither stand in no group.
pub fn group_events_per_actor(events: Vec<Event>) -> (r: Groups<Event>)
    ensures
        r.wf(),
        grouped_by(r.key_seq(), r.group_seq(), events_view(events@), |e: EventView| actor_key(e)),
        r.key_seq() == keys_in_order(events_view(events@), |e: EventView| actor_key(e)),
{
    let ghost items = events_view(events@);
    let ghost keyf = |e: EventView| actor_key(e);
    let mut g: Groups<Event> = Groups::new();
    let mut i: usize = 0;
    assert(items.take(0) =~= Seq::<EventView>::empty());
    while i < events.len()
        invariant
            i <= events@.len(),
            items == events_view(events@),
            keyf == (|e: EventView| actor_key(e)),
            g.wf(),
            grouped_by(g.key_seq(), g.group_seq(), items.take(i as int), keyf),
            g.key_seq() == keys_in_order(items.take(i as int), keyf),
        decreases events@.len() - i,
    {
        let ghost keys0 = g.key_seq();
        let ghost groups0 = g.group_seq();
        assert(items[i as int] == events@[i as int]@);
        match actor_of(&events[i]) {
            Some(k) => {
                let e = events[i].clone();
                g.push_value(k, e);
            },
            None => {},
        }
        proof {
            lemma_grouped_by_step(keys0, groups0, g.key_seq(), g.group_seq(), items, keyf, i as int);
            assert(items.take(i + 1).drop_last() =~= items.take(i as int));
        }
        i += 1;
    }
    assert(items.take(events@.len() as int) =~= items);
    g
}

/// The intent results grouped per actor.
pub fn aggregate_results(results: Vec<IntentResult>) -> (r: Groups<IntentResult>)
    ensures
        r.wf(),
        grouped_by(r.key_seq(), r.group_seq(), intents_view(results@), |x: IntentView| result_key(x)),
        r.key_seq() == keys_in_order(intents_view(results@), |x: IntentView| result_key(x)),
{
    let ghost items = intents_view(results@);
    let ghost keyf = |x: IntentView| result_key(x);
    let mut g: Groups<IntentResult> = Groups::new();
    let mut i: usize = 0;
    assert(items.take(0) =~= Seq::<IntentView>::empty());
    while i < results.len()
        invariant
            i <= results@.len(),
            items == intents_view(results@),
            keyf == (|x: IntentView| result_key(x)),
            g.wf(),
            grouped_by(g.key_seq(), g.group_seq(), items.take(i as int), keyf),
            g.key_seq() == keys_in_order(items.take(i as int), keyf),
        decreases results@.len() - i,
    {
        let ghost keys0 = g.key_seq();
        let ghost groups0 = g.group_seq();
        assert(items[i as int] == results@[i as int]@);
        let k = results[i].actor.clone();
        let x = results[i].clone();
        g.push_value(k, x);
        proof {
            lemma_grouped_by_step(keys0, groups0, g.key_seq(), g.group_seq(), items, keyf, i as int);
            assert(items.take(i + 1).drop_last() =~= items.take(i as int));
        }
        i += 1;
    }
    assert(items.take(results@.len() as int) =~= items);
    g
}

/// The moments of the successful logins in the group `g` of actor `k`, in
/// order: one for each `ssh_login_success` event whose timestamp reads.
pub open spec fn logins_in_group(k: Seq<char>, g: Seq<EventView>) -> Seq<(Seq<char>, (i64, u32))>
    decreases g.len(),
{
    if g.len() == 0 {
        seq![]
    } else {
        let rest = logins_in_group(k, g.drop_last());
        let e = g.last();
        if e.event_type == "ssh_login_success"@ && timestamp_spec(e.timestamp) is Some {
            rest.push((k, timestamp_spec(e.timestamp)->0))
        } else {
            rest
        }
    }
}

/// Who logged in when: the successful logins of all groups, group after
/// group.
pub open spec fn logins_spec(keys: Seq<Seq<char>>, groups: Seq<Seq<EventView>>) -> Seq<
    (Seq<char>, (i64, u32)),
>
    decreases keys.len(),
{
    if keys.len() == 0 || groups.len() == 0 {
        seq![]
    } else {
        logins_spec(keys.drop_last(), groups.drop_last()) + logins_in_group(
            keys.last(),
            groups.last(),
        )
    }
}

proof fn lemma_logins_in_group_key(k: Seq<char>, g: Seq<EventView>)
    ensures
        forall|i: int| 0 <= i < logins_in_group(k, g).len() ==> #[trigger] logins_in_group(k, g)[i].0 == k,
    decreases g.len(),
{
    if g.len() > 0 {
        lemma_logins_in_group_key(k, g.drop_last());
        let rest = logins_in_group(k, g.drop_last());
        let e = g.last();
        if e.event_type == "ssh_login_success"@ && timestamp_spec(e.timestamp) is Some {
            let full = rest.push((k, timestamp_spec(e.timestamp)->0));
            assert forall|i: int| 0 <= i < full.len() implies #[trigger] full[i].0 == k by {
                if i < rest.len() {
                    assert(full[i] == rest[i]);
                }
            }
        }
    }
}

/// Every login is that of one of the keys.
pub proof fn lemma_logins_spec_keys(keys: Seq<Seq<char>>, groups: Seq<Seq<EventView>>)
    ensures
        forall|i: int|
            0 <= i < logins_spec(keys, groups).len() ==> keys.contains(
                #[trigger] logins_spec(keys, groups)[i].0,
            ),
    decreases keys.len(),
{
    if keys.len() > 0 && groups.len() > 0 {
        let k0 = keys.drop_last();
        lemma_logins_spec_keys(k0, groups.drop_last());
        lemma_logins_in_group_key(keys.last(), groups.last());
        let a = logins_spec(k0, groups.drop_last());
        let b = logins_in_group(keys.last(), groups.last());
        assert forall|i: int| 0 <= i < (a + b).len() implies keys.contains(#[trigger] (a + b)[i].0) by {
            if i < a.len() {
                assert((a + b)[i] == a[i]);
                let w = choose|w: int| 0 <= w < k0.len() && k0[w] == a[i].0;
                assert(keys[w] == k0[w]);
            } else {
                assert((a + b)[i] == b[i - a.len()]);
                assert(keys[keys.len() - 1] == keys.last());
            }
        }
    }
}

/// The actor that an orphan event is linked to is one of those that logged in.
pub proof fn lemma_matching_actor_is_login(e: EventView, logins: Seq<(Seq<char>, (i64, u32))>)
    ensures
        matching_actor_spec(e, logins) matches Some(a) ==> exists|j: int| 0 <= j < logins.len() && #[trigger] logins[j].0 == a,
{
    if let Some(t) = timestamp_spec(e.timestamp) {
        let ds = logins.map_values(|l: (Seq<char>, (i64, u32))| chrono_seconds_between(t, l.1));
        if exists|j: int| is_closest(ds, j) {
            let j = choose|j: int| is_closest(ds, j);
            assert(logins[j].0 == logins[j].0);
        }
    }
}

proof fn lemma_keys_except_none(keys: Seq<Seq<char>>)
    ensures
        keys_except(keys, |k: Seq<char>| Seq::<Seq<char>>::empty().contains(k)) == keys,
    decreases keys.len(),
{
    if keys.len() > 0 {
        lemma_keys_except_none(keys.drop_last());
        assert(!Seq::<Seq<char>>::empty().contains(keys.last()));
        assert(keys.drop_last().push(keys.last()) =~= keys);
    }
}

/// The plain values of a list of logins.
pub open spec fn logins_view(ls: Seq<(String, LogTime)>) -> Seq<(Seq<char>, (i64, u32))> {
    ls.map_values(|l: (String, LogTime)| (l.0@, (l.1.secs, l.1.nanos)))
}

/// Who logged in when: the actor and moment of each successful login whose
/// timestamp reads, group after group.
pub fn collect_successful_logins(actors: &Groups<Event>) -> (r: Vec<(String, LogTime)>)
    requires
        actors.wf(),
    ensures
        logins_view(r@) == logins_spec(actors.key_seq(), actors.group_seq()),
{
    let mut r: Vec<(String, LogTime)> = Vec::new();
    let mut p: usize = 0;
    let ghost ks = actors.key_seq();
    let ghost gs = actors.group_seq();
    assert(logins_view(r@) =~= logins_spec(ks.take(0), gs.take(0)));
    while p < actors.len()
        invariant
            actors.wf(),
            ks == actors.key_seq(),
            gs == actors.group_seq(),
            p <= ks.len(),
            logins_view(r@) == logins_spec(ks.take(p as int), gs.take(p as int)),
        decreases ks.len() - p,
    {
        let key = actors.key_at(p);
        let group = actors.group_at(p);
        let ghost g = gs[p as int];
        let ghost base = logins_view(r@);
        let mut j: usize = 0;
        assert(logins_view(r@) =~= base + logins_in_group(key@, g.take(0)));
        while j < group.len()
            invariant
                g == group@.map_values(|x: Event| x@),
                j <= group@.len(),
                logins_view(r@) == base + logins_in_group(key@, g.take(j as int)),
            decreases group@.len() - j,
        {
            let e = &group[j];
            assert(g.take(j + 1).drop_last() =~= g.take(j as int));
            assert(g.take(j + 1).last() == e@);
            if crate::text::str_eq(e.event_type.as_str(), "ssh_login_success") {
                match parse_timestamp(e.timestamp.as_str()) {
                    Some(t) => {
                        let ghost before = r@;
                        r.push((key.clone(), t));
                        assert(logins_view(r@) =~= logins_view(before).push(
                            (key@, (t.secs, t.nanos)),
                        ));
                    },
                    None => {},
                }
            }
            j += 1;
        }
        assert(g.take(group@.len() as int) =~= g);
        assert(ks.take(p + 1).drop_last() =~= ks.take(p as int));
        assert(gs.take(p + 1).drop_last() =~= gs.take(p as int));
        p += 1;
    }
    assert(ks.take(ks.len() as int) =~= ks);
    assert(gs.take(gs.len() as int) =~= gs);
    r
}

/// An orphan event: one without a source address, that either has no user
/// or is a sudo command.
pub open spec fn is_orphan(e: EventView) -> bool {
    e.ip is None && (e.user is None || e.event_type == "sudo_command"@)
}

/// The orphan events of `evs`, in order.
pub open spec fn orphans_spec(evs: Seq<EventView>) -> Seq<EventView>
    decreases evs.len(),
{
    if evs.len() == 0 {
        seq![]
    } else {
        let rest = orphans_spec(evs.drop_last());
        if is_orphan(evs.last()) {
            rest.push(evs.last())
        } else {
            rest
        }
    }
}

/// The orphan events of `all_events`, in order: those without a source
/// address that have no user or are sudo commands.
pub fn collect_orphan_events(all_events: &Vec<Event>) -> (r: Vec<Event>)
    ensures
        events_view(r@) == orphans_spec(events_view(all_events@)),
{
    let ghost evs = events_view(all_events@);
    let mut r: Vec<Event> = Vec::new();
    let mut i: usize = 0;
    assert(events_view(r@) =~= orphans_spec(evs.take(0)));
    while i < all_events.len()
        invariant
            evs == events_view(all_events@),
            i <= all_events@.len(),
            events_view(r@) == orphans_spec(evs.take(i as int)),
        decreases all_events@.len() - i,
    {
        let e = &all_events[i];
        assert(evs.take(i + 1).drop_last() =~= evs.take(i as int));
        assert(evs.take(i + 1).last() == e@);
        let orphan = e.ip.is_none() && (e.user.is_none() || crate::text::str_eq(
            e.event_type.as_str(),
            "sudo_command",
        ));
        if orphan {
            let ghost before = r@;
            r.push(e.clone());
            assert(events_view(r@) =~= events_view(before).push(e@));
        }
        i += 1;
    }
    assert(evs.take(all_events@.len() as int) =~= evs);
    r
}

/// The longest time, in seconds, from a login to an orphan event that is
/// linked to it.
pub const LINK_WINDOW_SECONDS: i64 = 300;

/// A count of seconds from a login to an event that lies in the window:
/// not before the login, and at most five minutes after it.
pub open spec fn in_window(d: Option<i64>) -> bool {
    d matches Some(x) && 0 <= x <= LINK_WINDOW_SECONDS
}

/// Entry `j` of `ds` is the closest login in the window: in the window,
/// no farther than any other in the window, and nearer than every one
/// before it in the window.
pub open spec fn is_closest(ds: Seq<Option<i64>>, j: int) -> bool {
    &&& 0 <= j < ds.len()
    &&& in_window(ds[j])
    &&& forall|k: int| 0 <= k < ds.len() && in_window(ds[k]) ==> ds[j]->0 <= ds[k]->0
    &&& forall|k: int| 0 <= k < j && in_window(ds[k]) ==> ds[j]->0 < ds[k]->0
}

/// Given the seconds from each login to an event (where they could be
/// counted), the first login in the window with the fewest seconds.
pub fn closest_in_window(ds: &Vec<Option<i64>>) -> (r: Option<usize>)
    ensures
        match r {
            Some(j) => is_closest(ds@, j as int),
            None => forall|k: int| 0 <= k < ds@.len() ==> !in_window(#[trigger] ds@[k]),
        },
{
    let mut best: Option<usize> = None;
    let mut i: usize = 0;
    while i < ds.len()
        invariant
            i <= ds@.len(),
            match best {
                Some(j) => {
                    &&& j < i
                    &&& in_window(ds@[j as int])
                    &&& forall|k: int|
                        0 <= k < i && in_window(ds@[k]) ==> ds@[j as int]->0 <= ds@[k]->0
                    &&& forall|k: int|
                        0 <= k < j && in_window(ds@[k]) ==> ds@[j as int]->0 < ds@[k]->0
                },
                None => forall|k: int| 0 <= k < i ==> !in_window(#[trigger] ds@[k]),
            },
        decreases ds@.len() - i,
    {
        match ds[i] {
            Some(d) => {
                if 0 <= d && d <= LINK_WINDOW_SECONDS {
                    match best {
                        Some(j) => {
                            match ds[j] {
                                Some(bd) => {
                                    if d < bd {
                                        best = Some(i);
                                    }
                                },
                                None => {},
                            }
                        },
                        None => {
                            best = Some(i);
                        },
                    }
                }
            },
            None => {},
        }
        i += 1;
    }
    best
}

/// The actor of the login that the orphan event `e` is linked to: the first
/// login of `logins` in the window of five minutes before the event with
/// the fewest seconds to it. None where the event's timestamp does not read
/// or no login lies in the window.
pub open spec fn matching_actor_spec(e: EventView, logins: Seq<(Seq<char>, (i64, u32))>) -> Option<
    Seq<char>,
> {
    match timestamp_spec(e.timestamp) {
        None => None,
        Some(t) => {
            let ds = logins.map_values(
                |l: (Seq<char>, (i64, u32))| chrono_seconds_between(t, l.1),
            );
            if exists|j: int| is_closest(ds, j) {
                Some(logins[choose|j: int| is_closest(ds, j)].0)
            } else {
                None
            }
        },
    }
}

proof fn lemma_closest_unique(ds: Seq<Option<i64>>, a: int, b: int)
    requires
        is_closest(ds, a),
        is_closest(ds, b),
    ensures
        a == b,
{
}

/// The actor of the login that the orphan event `event` is linked to: the
/// login closest before it within five minutes, the first of equally close
/// ones.
pub fn find_matching_actor(event: &Event, logins: &Vec<(String, LogTime)>) -> (r: Option<String>)
    ensures
        r.deep_view() == matching_actor_spec(event@, logins_view(logins@)),
{
    let event_ts = match parse_timestamp(event.timestamp.as_str()) {
        Some(t) => t,
        None => {
            return None;
        },
    };
    let ghost t = (event_ts.secs, event_ts.nanos);
    assert(timestamp_spec(event@.timestamp) == Some(t));
    let ghost lv = logins_view(logins@);
    let ghost dspec = lv.map_values(|l: (Seq<char>, (i64, u32))| chrono_seconds_between(t, l.1));
    let mut ds: Vec<Option<i64>> = Vec::new();
    let mut i: usize = 0;
    while i < logins.len()
        invariant
            i <= logins@.len(),
            lv == logins_view(logins@),
            dspec == lv.map_values(|l: (Seq<char>, (i64, u32))| chrono_seconds_between(t, l.1)),
            t == (event_ts.secs, event_ts.nanos),
            ds@ == dspec.take(i as int),
        decreases logins@.len() - i,
    {
        let d = seconds_between(&event_ts, &logins[i].1);
        ds.push(d);
        assert(ds@ =~= dspec.take(i + 1));
        i += 1;
    }
    assert(ds@ =~= dspec);
    match closest_in_window(&ds) {
        Some(j) => {
            proof {
                let c = choose|j: int| is_closest(dspec, j);
                lemma_closest_unique(dspec, j as int, c);
                assert(lv[j as int].0 == logins@[j as int].0@);
            }
            let a = logins[j].0.clone();
            assert(matching_actor_spec(event@, lv) == Some(lv[j as int].0));
            Some(a)
        },
        None => {
            assert(!exists|j: int| is_closest(dspec, j));
            None
        },
    }
}

/// Adds the user of `event` to `linked_users`, where it has one that is not
/// there yet.
pub fn track_linked_user(event: &Event, linked_users: &mut Vec<String>)
    ensures
        final(linked_users).deep_view() == (match event@.user {
            Some(u) => if old(linked_users).deep_view().contains(u) {
                old(linked_users).deep_view()
            } else {
                old(linked_users).deep_view().push(u)
            },
            None => old(linked_users).deep_view(),
        }),
{
    if let Some(u) = &event.user {
        assert(event@.user == Some(u@));
        let ghost lv = linked_users.deep_view();
        let mut found = false;
        let mut i: usize = 0;
        while i < linked_users.len()
            invariant
                i <= linked_users@.len(),
                lv == linked_users.deep_view(),
                found ==> lv.contains(u@),
                !found ==> forall|j: int| 0 <= j < i ==> lv[j] != u@,
            decreases linked_users@.len() - i,
        {
            if linked_users[i] == *u {
                assert(lv[i as int] == u@);
                found = true;
            }
            i += 1;
        }
        if !found {
            assert(!lv.contains(u@));
            linked_users.push(u.clone());
            assert(linked_users.deep_view() =~= lv.push(u@));
        }
    }
}

/// The orphan events of `orphans` that are linked to actor `k`, in order.
pub open spec fn linked_to(
    orphans: Seq<EventView>,
    logins: Seq<(Seq<char>, (i64, u32))>,
    k: Seq<char>,
) -> Seq<EventView>
    decreases orphans.len(),
{
    if orphans.len() == 0 {
        seq![]
    } else {
        let rest = linked_to(orphans.drop_last(), logins, k);
        if matching_actor_spec(orphans.last(), logins) == Some(k) {
            rest.push(orphans.last())
        } else {
            rest
        }
    }
}

/// `u` is the user of an orphan event of `orphans` that is linked to an
/// actor.
pub open spec fn is_linked_user(
    orphans: Seq<EventView>,
    logins: Seq<(Seq<char>, (i64, u32))>,
    u: Seq<char>,
) -> bool {
    exists|j: int|
        0 <= j < orphans.len() && matching_actor_spec(orphans[j], logins) is Some && orphans[j].user
            == Some(u)
}

/// The group of actor `k` once the orphan events have been added to the
/// actors they are linked to, before linked users are removed.
pub open spec fn with_linked(
    group: Option<Seq<EventView>>,
    orphans: Seq<EventView>,
    logins: Seq<(Seq<char>, (i64, u32))>,
    k: Seq<char>,
) -> Option<Seq<EventView>> {
    match group {
        Some(g) => Some(g + linked_to(orphans, logins, k)),
        None => if linked_to(orphans, logins, k).len() > 0 {
            Some(linked_to(orphans, logins, k))
        } else {
            None
        },
    }
}

/// The group of key `k` after linking: the groups of linked users are
/// gone; every other group holds what it held, then the orphan events
/// linked to its actor.
pub open spec fn link_result(
    group: Option<Seq<EventView>>,
    orphans: Seq<EventView>,
    logins: Seq<(Seq<char>, (i64, u32))>,
    k: Seq<char>,
) -> Option<Seq<EventView>> {
    if is_linked_user(orphans, logins, k) {
        None
    } else {
        with_linked(group, orphans, logins, k)
    }
}

/// Links orphan events to actors: each orphan event of `all_events` whose
/// timestamp lies at most five minutes after a successful login of an
/// actor is added to the group of the closest such actor, and the groups
/// of the users of linked events are removed.
pub fn link_orphan_events(actors: &mut Groups<Event>, all_events: &Vec<Event>)
    requires
        old(actors).wf(),
    ensures
        final(actors).wf(),
        forall|k: Seq<char>|
            #![trigger final(actors).group_of(k)]
            final(actors).group_of(k) == link_result(
                old(actors).group_of(k),
                orphans_spec(events_view(all_events@)),
                logins_spec(old(actors).key_seq(), old(actors).group_seq()),
                k,
            ),
        final(actors).key_seq() == keys_except(
            old(actors).key_seq(),
            |k: Seq<char>|
                is_linked_user(
                    orphans_spec(events_view(all_events@)),
                    logins_spec(old(actors).key_seq(), old(actors).group_seq()),
                    k,
                ),
        ),
{
    let logins = collect_successful_logins(actors);
    let orphans = collect_orphan_events(all_events);
    let ghost lv = logins_view(logins@);
    let ghost ov = events_view(orphans@);
    let ghost a0 = *actors;
    let mut linked_users: Vec<String> = Vec::new();
    let mut j: usize = 0;
    assert forall|k: Seq<char>| #[trigger] actors.group_of(k) == with_linked(
        a0.group_of(k),
        ov.take(0),
        lv,
        k,
    ) by {
        assert(ov.take(0).len() == 0);
    }
    while j < orphans.len()
        invariant
            j <= orphans@.len(),
            actors.wf(),
            lv == logins_view(logins@),
            ov == events_view(orphans@),
            forall|k: Seq<char>|
                #![trigger actors.group_of(k)]
                actors.group_of(k) == with_linked(a0.group_of(k), ov.take(j as int), lv, k),
            forall|u: Seq<char>|
                linked_users.deep_view().contains(u) <==> is_linked_user(ov.take(j as int), lv, u),
            actors.key_seq() == a0.key_seq(),
            a0.wf(),
            lv == logins_spec(a0.key_seq(), a0.group_seq()),
        decreases orphans@.len() - j,
    {
        let o = &orphans[j];
        let ghost pre = ov.take(j as int);
        let ghost post = ov.take(j + 1);
        assert(post.drop_last() =~= pre);
        assert(post.last() == o@);
        let ghost lu0 = linked_users.deep_view();
        let ghost before = *actors;
        let found = find_matching_actor(o, &logins);
        proof {
            lemma_matching_actor_is_login(o@, lv);
            lemma_logins_spec_keys(a0.key_seq(), a0.group_seq());
        }
        match found {
            Some(a) => {
                proof {
                    let w = choose|w: int| 0 <= w < lv.len() && #[trigger] lv[w].0 == a@;
                    assert(a0.key_seq().contains(lv[w].0));
                }
                track_linked_user(o, &mut linked_users);
                let e = o.clone();
                actors.push_value(a, e);
                assert forall|k: Seq<char>| #[trigger] actors.group_of(k) == with_linked(
                    a0.group_of(k),
                    post,
                    lv,
                    k,
                ) by {
                    assert(before.group_of(k) == with_linked(a0.group_of(k), pre, lv, k));
                    if k == a@ {
                        assert(linked_to(post, lv, k) == linked_to(pre, lv, k).push(o@));
                        match a0.group_of(k) {
                            Some(g) => {
                                assert(g + linked_to(pre, lv, k).push(o@) =~= (g + linked_to(
                                    pre,
                                    lv,
                                    k,
                                )).push(o@));
                            },
                            None => {
                                if linked_to(pre, lv, k).len() == 0 {
                                    assert(linked_to(pre, lv, k).push(o@) =~= seq![o@]);
                                }
                            },
                        }
                    } else {
                        assert(linked_to(post, lv, k) == linked_to(pre, lv, k));
                    }
                }
                let ghost lu1 = linked_users.deep_view();
                assert(matching_actor_spec(o@, lv) is Some);
                assert forall|u: Seq<char>| lu1.contains(u) <==> (lu0.contains(u) || o@.user == Some(u)) by {
                    if let Some(uo) = o@.user {
                        if !lu0.contains(uo) {
                            assert(lu1 == lu0.push(uo));
                            if lu1.contains(u) {
                                let w = choose|w: int| 0 <= w < lu1.len() && #[trigger] lu1[w] == u;
                                if w < lu0.len() {
                                    assert(lu0[w] == u);
                                }
                            }
                            if lu0.contains(u) {
                                let w = choose|w: int| 0 <= w < lu0.len() && #[trigger] lu0[w] == u;
                                assert(lu1[w] == u);
                            }
                            assert(lu1[lu0.len() as int] == uo);
                        }
                    }
                }
                assert forall|u: Seq<char>|
                    linked_users.deep_view().contains(u) <==> is_linked_user(post, lv, u) by {
                    if is_linked_user(post, lv, u) {
                        let w = choose|w: int|
                            0 <= w < post.len() && matching_actor_spec(post[w], lv) is Some
                                && post[w].user == Some(u);
                        if w < j {
                            assert(pre[w] == post[w]);
                            assert(is_linked_user(pre, lv, u));
                        } else {
                            assert(o@.user == Some(u));
                        }
                    }
                    if is_linked_user(pre, lv, u) {
                        let w = choose|w: int|
                            0 <= w < pre.len() && matching_actor_spec(pre[w], lv) is Some
                                && pre[w].user == Some(u);
                        assert(post[w] == pre[w]);
                    }
                    if o@.user == Some(u) {
                        assert(post[j as int] == o@);
                        assert(is_linked_user(post, lv, u));
                    }
                }
            },
            None => {
                assert forall|k: Seq<char>| #[trigger] actors.group_of(k) == with_linked(
                    a0.group_of(k),
                    post,
                    lv,
                    k,
                ) by {
                    assert(linked_to(post, lv, k) == linked_to(pre, lv, k));
                }
                assert forall|u: Seq<char>|
                    linked_users.deep_view().contains(u) <==> is_linked_user(post, lv, u) by {
                    if is_linked_user(post, lv, u) {
                        let w = choose|w: int|
                            0 <= w < post.len() && matching_actor_spec(post[w], lv) is Some
                                && post[w].user == Some(u);
                        if w < j {
                            assert(pre[w] == post[w]);
                        }
                    }
                    if is_linked_user(pre, lv, u) {
                        let w = choose|w: int|
                            0 <= w < pre.len() && matching_actor_spec(pre[w], lv) is Some
                                && pre[w].user == Some(u);
                        assert(post[w] == pre[w]);
                    }
                }
            },
        }
        j += 1;
    }
    assert(ov.take(orphans@.len() as int) =~= ov);
    let ghost mid = *actors;
    let ghost luv = linked_users.deep_view();
    let mut q: usize = 0;
    proof {
        lemma_keys_except_none(a0.key_seq());
        assert forall|k: Seq<char>| #[trigger] luv.take(0).contains(k) == Seq::<Seq<char>>::empty().contains(k) by {
            assert(luv.take(0) =~= Seq::<Seq<char>>::empty());
        }
        lemma_keys_except_same(
            a0.key_seq(),
            |k: Seq<char>| luv.take(0).contains(k),
            |k: Seq<char>| Seq::<Seq<char>>::empty().contains(k),
        );
    }
    while q < linked_users.len()
        invariant
            q <= linked_users@.len(),
            luv == linked_users.deep_view(),
            actors.wf(),
            forall|k: Seq<char>|
                #![trigger actors.group_of(k)]
                actors.group_of(k) == (if luv.take(q as int).contains(k) {
                    None
                } else {
                    mid.group_of(k)
                }),
            actors.key_seq() == keys_except(a0.key_seq(), |k: Seq<char>| luv.take(q as int).contains(k)),
            a0.wf(),
        decreases linked_users@.len() - q,
    {
        let ghost before = *actors;
        proof {
            let p0 = |k: Seq<char>| luv.take(q as int).contains(k);
            let p1 = |k: Seq<char>| luv.take(q + 1).contains(k);
            assert forall|k: Seq<char>| #[trigger] p1(k) == (p0(k) || k == luv[q as int]) by {
                let t1 = luv.take(q + 1);
                let t0 = luv.take(q as int);
                if t1.contains(k) && k != luv[q as int] {
                    let w = choose|w: int| 0 <= w < t1.len() && #[trigger] t1[w] == k;
                    assert(t0[w] == k);
                }
                if t0.contains(k) {
                    let w = choose|w: int| 0 <= w < t0.len() && #[trigger] t0[w] == k;
                    assert(t1[w] == k);
                }
                assert(t1[q as int] == luv[q as int]);
            }
            lemma_keys_except_one_more(a0.key_seq(), p0, p1, luv[q as int]);
        }
        actors.remove(linked_users[q].as_str());
        assert forall|k: Seq<char>| #[trigger] actors.group_of(k) == (if luv.take(q + 1).contains(k) {
            None
        } else {
            mid.group_of(k)
        }) by {
            assert(luv.take(q + 1) =~= luv.take(q as int).push(luv[q as int]));
            if k == luv[q as int] {
                assert(luv.take(q + 1)[q as int] == k);
            } else {
                let t1 = luv.take(q + 1);
                let t0 = luv.take(q as int);
                if t1.contains(k) {
                    let w = choose|w: int| 0 <= w < t1.len() && #[trigger] t1[w] == k;
                    assert(t0[w] == k);
                }
                if t0.contains(k) {
                    let w = choose|w: int| 0 <= w < t0.len() && #[trigger] t0[w] == k;
                    assert(t1[w] == k);
                }
            }
        }
        q += 1;
    }
    assert(luv.take(linked_users@.len() as int) =~= luv);
    proof {
        lemma_keys_except_same(
            a0.key_seq(),
            |k: Seq<char>| luv.take(linked_users@.len() as int).contains(k),
            |k: Seq<char>|
                is_linked_user(
                    orphans_spec(events_view(all_events@)),
                    logins_spec(a0.key_seq(), a0.group_seq()),
                    k,
                ),
        );
    }
    assert forall|k: Seq<char>| #[trigger] actors.group_of(k) == link_result(
        a0.group_of(k),
        orphans_spec(events_view(all_events@)),
        logins_spec(a0.key_seq(), a0.group_seq()),
        k,
    ) by {}
}

/// The intents of the results `g`, in order.
pub open spec fn intent_names(g: Seq<IntentView>) -> Seq<Seq<char>> {
    g.map_values(|r: IntentView| r.intent)
}

/// The evidence of all results `g`, result after result.
pub open spec fn all_evidence(g: Seq<IntentView>) -> Seq<Seq<char>>
    decreases g.len(),
{
    if g.len() == 0 {
        seq![]
    } else {
        all_evidence(g.drop_last()) + g.last().evidence
    }
}

/// The sum of the confidences of the results `g`.
pub open spec fn confidence_total(g: Seq<IntentView>) -> int
    decreases g.len(),
{
    if g.len() == 0 {
        0
    } else {
        confidence_total(g.drop_last()) + g.last().confidence
    }
}

/// `s` sums up the results `g` of actor `k`: their distinct intents and
/// their distinct evidence, each sorted, and the sum and number of their
/// confidences, whose quotient is the actor's average confidence.
pub open spec fn is_summary_of(s: SummaryView, k: Seq<char>, g: Seq<IntentView>) -> bool {
    &&& s.actor == k
    &&& sorted_distinct_of(s.intents, intent_names(g))
    &&& sorted_distinct_of(s.evidence, all_evidence(g))
    &&& s.confidence_sum == confidence_total(g)
    &&& s.result_count == g.len()
}

/// The summary of the results `results` of `actor`.
fn summarize_one(actor: &String, results: &Vec<IntentResult>) -> (s: ActorSummary)
    ensures
        is_summary_of(s@, actor@, results@.map_values(|x: IntentResult| x@)),
{
    let ghost g = results@.map_values(|x: IntentResult| x@);
    let mut names: Vec<String> = Vec::new();
    let mut evidence: Vec<String> = Vec::new();
    let mut sum: u128 = 0;
    let mut i: usize = 0;
    assert(names.deep_view() =~= intent_names(g.take(0)));
    assert(evidence.deep_view() =~= all_evidence(g.take(0)));
    while i < results.len()
        invariant
            i <= results@.len(),
            g == results@.map_values(|x: IntentResult| x@),
            names.deep_view() == intent_names(g.take(i as int)),
            evidence.deep_view() == all_evidence(g.take(i as int)),
            sum == confidence_total(g.take(i as int)),
            sum <= i * 4294967295,
        decreases results@.len() - i,
    {
        let r = &results[i];
        assert(g.take(i + 1).drop_last() =~= g.take(i as int));
        assert(g.take(i + 1).last() == r@);
        let ghost nb = names.deep_view();
        names.push(r.intent.clone());
        assert(names.deep_view() =~= nb.push(r@.intent));
        assert(intent_names(g.take(i + 1)) =~= intent_names(g.take(i as int)).push(r@.intent));
        let ghost eb = evidence.deep_view();
        let mut j: usize = 0;
        while j < r.evidence.len()
            invariant
                j <= r.evidence@.len(),
                evidence.deep_view() == eb + r.evidence.deep_view().take(j as int),
            decreases r.evidence@.len() - j,
        {
            let ghost before = evidence.deep_view();
            evidence.push(r.evidence[j].clone());
            assert(evidence.deep_view() =~= before.push(r.evidence@[j as int]@));
            assert(evidence.deep_view() =~= eb + r.evidence.deep_view().take(j + 1));
            j += 1;
        }
        assert(r.evidence.deep_view().take(r.evidence@.len() as int) =~= r.evidence.deep_view());
        assert(evidence.deep_view() =~= all_evidence(g.take(i + 1)));
        sum = sum + r.confidence as u128;
        i += 1;
    }
    assert(g.take(results@.len() as int) =~= g);
    ActorSummary {
        actor: actor.clone(),
        intents: sorted_distinct(&names),
        confidence_sum: sum,
        result_count: results.len(),
        evidence: sorted_distinct(&evidence),
    }
}

/// One summary per actor, in the order of the actors: the distinct
/// intents and the distinct evidence of its results, each sorted, and the
/// sum and number of their confidences.
pub fn summarize(actorresults: Groups<IntentResult>) -> (r: Vec<ActorSummary>)
    requires
        actorresults.wf(),
    ensures
        r@.len() == actorresults.key_seq().len(),
        forall|p: int|
            0 <= p < r@.len() ==> is_summary_of(
                #[trigger] summaries_view(r@)[p],
                actorresults.key_seq()[p],
                actorresults.group_seq()[p],
            ),
{
    let mut r: Vec<ActorSummary> = Vec::new();
    let mut p: usize = 0;
    while p < actorresults.len()
        invariant
            actorresults.wf(),
            p <= actorresults.key_seq().len(),
            r@.len() == p,
            forall|q: int|
                0 <= q < p ==> is_summary_of(
                    #[trigger] summaries_view(r@)[q],
                    actorresults.key_seq()[q],
                    actorresults.group_seq()[q],
                ),
        decreases actorresults.key_seq().len() - p,
    {
        let s = summarize_one(actorresults.key_at(p), actorresults.group_at(p));
        let ghost old_r = r@;
        r.push(s);
        assert forall|q: int|
            0 <= q < p + 1 implies is_summary_of(
                #[trigger] summaries_view(r@)[q],
                actorresults.key_seq()[q],
                actorresults.group_seq()[q],
            ) by {
            assert(summaries_view(r@)[q] == r@[q]@);
            if q < p {
                assert(r@[q] == old_r[q]);
                assert(summaries_view(old_r)[q] == old_r[q]@);
            }
        }
        p += 1;
    }
    r
}

} // verus!
