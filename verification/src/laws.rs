//! Properties of the analysis as a whole, proved over the specifications
//! that the functions of the library meet.

use vstd::prelude::*;
use crate::detection::{DOUBT_LOW, in_doubt, in_doubt_spec};
use crate::detection::rules::{
    CREDENTIAL_FAILED_LOGINS, FAILED_LOGIN_THRESHOLD, FIREWALL_BLOCK_THRESHOLD, analyze_spec,
    failed_before_last_login, intent, is_failed_login, is_firewall_block, is_large_response,
    is_risky_sudo, is_session, is_suspicious_binary, last_login_message, messages_where,
};
use crate::groups::{
    Groups, grouped_by, items_with_key, keys_except, lemma_index_of_distinct, lemma_keys_except_subset,
};
use crate::grouping::{
    actor_key, all_evidence, confidence_total, in_window, intent_names, is_closest, is_linked_user, is_orphan, is_summary_of,
    lemma_logins_spec_keys, lemma_matching_actor_is_login, link_result, linked_to, logins_spec,
    matching_actor_spec, orphans_spec, result_key,
};
use crate::parser::auth::{auth_line, auth_patterns};
use crate::matching::{first_match, group, lemma_first_match_in_range};
use crate::parser::nginx::nginx_line;
use crate::parser::syslog::syslog_line;
use crate::parser::ufw::ufw_line;
use crate::pipeline::results_spec;
use crate::text::{contains_seq, join_spec, lines_of};
use crate::detection::llm::{PROMPT_EVIDENCE, PROMPT_EVIDENCE_LINES, PROMPT_HEAD, PROMPT_INTENTS, answer_format, first_n, prompt_spec};
use crate::models::event::{Event, EventView, IntentView, SummaryView};
use crate::order::{lemma_lex_asymmetric, lemma_lex_total, lex_lt, sorted_distinct_of, strictly_sorted};
use crate::parser::events_of_lines;
use crate::utils::{chrono_seconds_between, timestamp_spec};

verus! {

proof fn lemma_items_with_key_contains<V>(items: Seq<V>, keyf: spec_fn(V) -> Option<Seq<char>>, k: Seq<char>, x: V)
    ensures
        items_with_key(items, keyf, k).contains(x) <==> (items.contains(x) && keyf(x) == Some(k)),
    decreases items.len(),
{
    if items.len() > 0 {
        let pre = items.drop_last();
        lemma_items_with_key_contains(pre, keyf, k, x);
        let r0 = items_with_key(pre, keyf, k);
        assert(items =~= pre.push(items.last()));
        if items.contains(x) && x != items.last() {
            let j = choose|j: int| 0 <= j < items.len() && items[j] == x;
            assert(pre[j] == x);
        }
        if pre.contains(x) {
            let j = choose|j: int| 0 <= j < pre.len() && pre[j] == x;
            assert(items[j] == x);
        }
        if keyf(items.last()) == Some(k) {
            assert(r0.push(items.last())[r0.len() as int] == items.last());
            if r0.push(items.last()).contains(x) && x != items.last() {
                let j = choose|j: int| 0 <= j < r0.len() + 1 && r0.push(items.last())[j] == x;
                assert(r0[j] == x);
            }
            if r0.contains(x) {
                let j = choose|j: int| 0 <= j < r0.len() && r0[j] == x;
                assert(r0.push(items.last())[j] == x);
            }
        }
        assert(items[items.len() - 1] == items.last());
    }
}

/// Grouping per actor is exact: an event stands in the group of a key if
/// and only if it is one of the events and its actor (source address, or
/// else user) is that key.
pub proof fn grouping_is_by_actor(g: Groups<Event>, events: Seq<EventView>, p: int, e: EventView)
    requires
        g.wf(),
        grouped_by(g.key_seq(), g.group_seq(), events, |x: EventView| actor_key(x)),
        0 <= p < g.key_seq().len(),
    ensures
        g.group_seq()[p].contains(e) <==> (events.contains(e) && actor_key(e) == Some(g.key_seq()[p])),
{
    lemma_items_with_key_contains(events, |x: EventView| actor_key(x), g.key_seq()[p], e);
}

/// Every event that has an actor stands in a group, under its actor.
pub proof fn every_actor_event_is_grouped(g: Groups<Event>, events: Seq<EventView>, j: int)
    requires
        g.wf(),
        grouped_by(g.key_seq(), g.group_seq(), events, |x: EventView| actor_key(x)),
        0 <= j < events.len(),
        actor_key(events[j]) is Some,
    ensures
        g.has_key(actor_key(events[j])->0),
        g.group_of(actor_key(events[j])->0) matches Some(grp) && grp.contains(events[j]),
{
    let k = actor_key(events[j])->0;
    assert(exists|i: int| 0 <= i < events.len() && (|x: EventView| actor_key(x))(events[i]) == Some(k));
    assert(g.key_seq().contains(k));
    let p = g.key_seq().index_of(k);
    lemma_index_of_distinct(g.key_seq(), p);
    assert(events.contains(events[j]));
    grouping_is_by_actor(g, events, p, events[j]);
}

/// An orphan event is linked only to an actor that logged in at most five
/// minutes before it, and to no actor whose login lies nearer to it.
pub proof fn linked_event_follows_login(
    e: EventView,
    logins: Seq<(Seq<char>, (i64, u32))>,
    a: Seq<char>,
)
    requires
        matching_actor_spec(e, logins) == Some(a),
    ensures
        timestamp_spec(e.timestamp) is Some,
        exists|j: int|
            0 <= j < logins.len() && logins[j].0 == a && in_window(
                chrono_seconds_between(timestamp_spec(e.timestamp)->0, logins[j].1),
            ) && forall|k: int|
                0 <= k < logins.len() && in_window(
                    #[trigger] chrono_seconds_between(timestamp_spec(e.timestamp)->0, logins[k].1),
                ) ==> chrono_seconds_between(timestamp_spec(e.timestamp)->0, logins[j].1)->0
                    <= chrono_seconds_between(timestamp_spec(e.timestamp)->0, logins[k].1)->0,
{
    let t = timestamp_spec(e.timestamp)->0;
    let ds = logins.map_values(|l: (Seq<char>, (i64, u32))| chrono_seconds_between(t, l.1));
    let j = choose|j: int| is_closest(ds, j);
    assert(is_closest(ds, j));
    assert forall|k: int|
        0 <= k < logins.len() && in_window(
            #[trigger] chrono_seconds_between(t, logins[k].1),
        ) implies chrono_seconds_between(t, logins[j].1)->0 <= chrono_seconds_between(
        t,
        logins[k].1,
    )->0 by {
        assert(ds[k] == chrono_seconds_between(t, logins[k].1));
    }
    assert(ds[j] == chrono_seconds_between(t, logins[j].1));
}

/// The escalation family of intents.
pub open spec fn is_escalation_intent(name: Seq<char>) -> bool {
    ||| name == "privilege_escalation + persistence"@
    ||| name == "privilege_escalation"@
    ||| name == "persistence"@
}

/// Every intent that the rules find is the actor's, has a confidence from
/// 0.50 to 0.90 and rests on evidence; and at most one intent of the
/// escalation family (privilege escalation with persistence, privilege
/// escalation, persistence) is found.
pub proof fn rule_results_are_well_formed(actor: Seq<char>, evs: Seq<EventView>)
    ensures
        forall|i: int|
            0 <= i < analyze_spec(actor, evs).len() ==> {
                let r = #[trigger] analyze_spec(actor, evs)[i];
                &&& r.actor == actor
                &&& 50 <= r.confidence <= 90
            },
        forall|i: int, j: int|
            0 <= i < j < analyze_spec(actor, evs).len() ==> !(is_escalation_intent(
                #[trigger] analyze_spec(actor, evs)[i].intent,
            ) && is_escalation_intent(#[trigger] analyze_spec(actor, evs)[j].intent)),
{
    reveal_strlit("reconnaissance");
    reveal_strlit("credential_access");
    reveal_strlit("data_exfiltration");
    reveal_strlit("privilege_escalation + persistence");
    reveal_strlit("privilege_escalation");
    reveal_strlit("persistence");
    let r = analyze_spec(actor, evs);
    assert forall|i: int, j: int| 0 <= i < j < r.len() implies !(is_escalation_intent(
        #[trigger] r[i].intent,
    ) && is_escalation_intent(#[trigger] r[j].intent)) by {
        assert("reconnaissance"@[0] == 'r');
        assert("credential_access"@[0] == 'c');
        assert("data_exfiltration"@[0] == 'd');
        assert("privilege_escalation + persistence"@[0] == 'p');
        assert("privilege_escalation"@[0] == 'p');
        assert("persistence"@[0] == 'p');
        assert("persistence"@[1] == 'e');
        assert("privilege_escalation"@[1] == 'r');
        assert("privilege_escalation + persistence"@[1] == 'r');
    }
}

/// Selecting the summaries in doubt twice selects the same as once.
pub proof fn doubt_selection_is_idempotent(ss: Seq<SummaryView>)
    ensures
        in_doubt_spec(in_doubt_spec(ss)) == in_doubt_spec(ss),
        forall|i: int| 0 <= i < in_doubt_spec(ss).len() ==> in_doubt(#[trigger] in_doubt_spec(ss)[i]),
    decreases ss.len(),
{
    if ss.len() > 0 {
        doubt_selection_is_idempotent(ss.drop_last());
        let rest = in_doubt_spec(ss.drop_last());
        if in_doubt(ss.last()) {
            assert(rest.push(ss.last()).drop_last() =~= rest);
        }
    }
}

/// The sorted list of the distinct strings of a list is unique: two lists
/// that both are it are equal.
pub proof fn sorted_distinct_is_unique(a: Seq<Seq<char>>, b: Seq<Seq<char>>, items: Seq<Seq<char>>)
    requires
        sorted_distinct_of(a, items),
        sorted_distinct_of(b, items),
    ensures
        a == b,
    decreases a.len() + b.len(),
{
    lemma_sorted_same_elements_equal(a, b);
}

proof fn lemma_sorted_same_elements_equal(a: Seq<Seq<char>>, b: Seq<Seq<char>>)
    requires
        strictly_sorted(a),
        strictly_sorted(b),
        forall|x: Seq<char>| a.contains(x) <==> b.contains(x),
    ensures
        a == b,
    decreases a.len() + b.len(),
{
    if a.len() == 0 {
        if b.len() > 0 {
            assert(b.contains(b[0]));
        }
        assert(a =~= b);
    } else if b.len() == 0 {
        assert(a.contains(a[0]));
    } else {
        let x = a.last();
        let y = b.last();
        assert(a.contains(x));
        assert(b.contains(y));
        let i = choose|i: int| 0 <= i < b.len() && b[i] == x;
        let j = choose|j: int| 0 <= j < a.len() && a[j] == y;
        if x != y {
            lemma_lex_total(x, y);
            if lex_lt(x, y) {
                if j < a.len() - 1 {
                    assert(lex_lt(a[j], a[a.len() - 1]));
                    lemma_lex_asymmetric(x, y);
                }
            } else {
                if i < b.len() - 1 {
                    assert(lex_lt(b[i], b[b.len() - 1]));
                    lemma_lex_asymmetric(y, x);
                }
            }
        }
        assert(x == y);
        let a0 = a.drop_last();
        let b0 = b.drop_last();
        assert forall|z: Seq<char>| a0.contains(z) <==> b0.contains(z) by {
            if a0.contains(z) {
                let w = choose|w: int| 0 <= w < a0.len() && a0[w] == z;
                assert(a.contains(z));
                assert(lex_lt(a[w], a[a.len() - 1]));
                let v = choose|v: int| 0 <= v < b.len() && b[v] == z;
                if v == b.len() - 1 {
                    crate::order::lemma_lex_irreflexive(z);
                }
                assert(b0[v] == z);
            }
            if b0.contains(z) {
                let w = choose|w: int| 0 <= w < b0.len() && b0[w] == z;
                assert(b.contains(z));
                assert(lex_lt(b[w], b[b.len() - 1]));
                let v = choose|v: int| 0 <= v < a.len() && a[v] == z;
                if v == a.len() - 1 {
                    crate::order::lemma_lex_irreflexive(z);
                }
                assert(a0[v] == z);
            }
        }
        assert(strictly_sorted(a0));
        assert(strictly_sorted(b0));
        lemma_sorted_same_elements_equal(a0, b0);
        assert(a =~= a0.push(x));
        assert(b =~= b0.push(y));
    }
}

/// A log gives at most one event per line, and each event carries the line
/// it was read from, where the classification keeps the line as message.
pub proof fn events_come_from_lines(
    lines: Seq<Seq<char>>,
    classify: spec_fn(Seq<char>) -> Option<EventView>,
)
    requires
        forall|l: Seq<char>| #[trigger] classify(l) matches Some(e) ==> e.message == l,
    ensures
        events_of_lines(lines, classify).len() <= lines.len(),
        forall|i: int|
            0 <= i < events_of_lines(lines, classify).len() ==> lines.contains(
                #[trigger] events_of_lines(lines, classify)[i].message,
            ),
    decreases lines.len(),
{
    if lines.len() > 0 {
        let pre = lines.drop_last();
        events_come_from_lines(pre, classify);
        let r0 = events_of_lines(pre, classify);
        let r = events_of_lines(lines, classify);
        assert forall|i: int| 0 <= i < r.len() implies lines.contains(#[trigger] r[i].message) by {
            if i < r0.len() {
                assert(r[i] == r0[i]);
                let w = choose|w: int| 0 <= w < pre.len() && pre[w] == r0[i].message;
                assert(lines[w] == pre[w]);
            } else {
                assert(classify(lines.last()) is Some);
                assert(r[i].message == lines.last());
                assert(lines[lines.len() - 1] == lines.last());
            }
        }
    }
}

/// Each of the four logs gives at most one event per line, and each event
/// carries the line it was read from and names its log as source.
pub proof fn parsed_events_come_from_lines(text: Seq<char>)
    ensures
        ({
            let ls = lines_of(text);
            let evs = events_of_lines(ls, |l: Seq<char>| auth_line(l));
            &&& evs.len() <= ls.len()
            &&& forall|i: int| 0 <= i < evs.len() ==> ls.contains(#[trigger] evs[i].message)
        }),
        ({
            let ls = lines_of(text);
            let evs = events_of_lines(ls, |l: Seq<char>| syslog_line(l));
            &&& evs.len() <= ls.len()
            &&& forall|i: int| 0 <= i < evs.len() ==> ls.contains(#[trigger] evs[i].message)
        }),
        ({
            let ls = lines_of(text);
            let evs = events_of_lines(ls, |l: Seq<char>| ufw_line(l));
            &&& evs.len() <= ls.len()
            &&& forall|i: int| 0 <= i < evs.len() ==> ls.contains(#[trigger] evs[i].message)
        }),
        ({
            let ls = lines_of(text);
            let evs = events_of_lines(ls, |l: Seq<char>| nginx_line(l));
            &&& evs.len() <= ls.len()
            &&& forall|i: int| 0 <= i < evs.len() ==> ls.contains(#[trigger] evs[i].message)
        }),
{
    let ls = lines_of(text);
    events_come_from_lines(ls, |l: Seq<char>| auth_line(l));
    events_come_from_lines(ls, |l: Seq<char>| syslog_line(l));
    events_come_from_lines(ls, |l: Seq<char>| ufw_line(l));
    events_come_from_lines(ls, |l: Seq<char>| nginx_line(l));
}

proof fn lemma_results_spec_bounded(keys: Seq<Seq<char>>, groups: Seq<Seq<EventView>>)
    ensures
        forall|i: int|
            0 <= i < results_spec(keys, groups).len() ==> 50 <= #[trigger] results_spec(
                keys,
                groups,
            )[i].confidence <= 90,
    decreases keys.len(),
{
    if keys.len() > 0 && groups.len() > 0 {
        lemma_results_spec_bounded(keys.drop_last(), groups.drop_last());
        rule_results_are_well_formed(keys.last(), groups.last());
        let r0 = results_spec(keys.drop_last(), groups.drop_last());
        let r1 = analyze_spec(keys.last(), groups.last());
        assert forall|i: int| 0 <= i < (r0 + r1).len() implies 50 <= #[trigger] (r0
            + r1)[i].confidence <= 90 by {
            if i >= r0.len() {
                assert((r0 + r1)[i] == r1[i - r0.len()]);
            }
        }
    }
}

proof fn lemma_items_with_key_all<V>(items: Seq<V>, keyf: spec_fn(V) -> Option<Seq<char>>, k: Seq<char>, p: spec_fn(V) -> bool)
    requires
        forall|i: int| 0 <= i < items.len() ==> #[trigger] p(items[i]),
    ensures
        forall|i: int| 0 <= i < items_with_key(items, keyf, k).len() ==> #[trigger] p(items_with_key(items, keyf, k)[i]),
    decreases items.len(),
{
    if items.len() > 0 {
        let pre = items.drop_last();
        assert forall|i: int| 0 <= i < pre.len() implies #[trigger] p(pre[i]) by {
            assert(pre[i] == items[i]);
        }
        lemma_items_with_key_all(pre, keyf, k, p);
        assert(p(items[items.len() - 1]));
        let r0 = items_with_key(pre, keyf, k);
        let r = items_with_key(items, keyf, k);
        assert forall|i: int| 0 <= i < r.len() implies #[trigger] p(r[i]) by {
            if i < r0.len() {
                assert(r[i] == r0[i]);
            } else {
                assert(r[i] == items.last());
            }
        }
    }
}

proof fn lemma_confidence_total_bounds(g: Seq<IntentView>)
    requires
        forall|i: int| 0 <= i < g.len() ==> 50 <= #[trigger] g[i].confidence <= 90,
    ensures
        50 * g.len() <= confidence_total(g) <= 90 * g.len(),
    decreases g.len(),
{
    if g.len() > 0 {
        let pre = g.drop_last();
        assert forall|i: int| 0 <= i < pre.len() implies 50 <= #[trigger] pre[i].confidence <= 90 by {
            assert(pre[i] == g[i]);
        }
        lemma_confidence_total_bounds(pre);
        assert(50 <= g[g.len() - 1].confidence <= 90);
    }
}

/// The confidence of every actor in the summaries lies from 0.50 to 0.90,
/// and every summary rests on at least one intent: the summaries are those
/// of the intents that the rules find for the actors.
pub proof fn summary_confidence_within_rule_bounds(
    keys: Seq<Seq<char>>,
    groups: Seq<Seq<EventView>>,
    rkeys: Seq<Seq<char>>,
    rgroups: Seq<Seq<IntentView>>,
    s: SummaryView,
    p: int,
)
    requires
        grouped_by(rkeys, rgroups, results_spec(keys, groups), |x: IntentView| result_key(x)),
        0 <= p < rkeys.len(),
        is_summary_of(s, rkeys[p], rgroups[p]),
    ensures
        s.result_count > 0,
        50 * s.result_count <= s.confidence_sum <= 90 * s.result_count,
{
    let rs = results_spec(keys, groups);
    let keyf = |x: IntentView| result_key(x);
    let bounded = |x: IntentView| 50 <= x.confidence <= 90;
    lemma_results_spec_bounded(keys, groups);
    assert forall|i: int| 0 <= i < rs.len() implies #[trigger] bounded(rs[i]) by {}
    lemma_items_with_key_all(rs, keyf, rkeys[p], bounded);
    let g = rgroups[p];
    assert(g == items_with_key(rs, keyf, rkeys[p]));
    assert forall|i: int| 0 <= i < g.len() implies 50 <= #[trigger] g[i].confidence <= 90 by {
        assert(bounded(g[i]));
    }
    lemma_confidence_total_bounds(g);
    assert(rkeys.contains(rkeys[p]));
    let j = choose|j: int| 0 <= j < rs.len() && keyf(rs[j]) == Some(rkeys[p]);
    lemma_items_with_key_contains(rs, keyf, rkeys[p], rs[j]);
    assert(rs.contains(rs[j]));
    assert(g.contains(rs[j]));
}

/// `idx` picks `sub` out of `all`: for each entry of `sub` it gives the
/// place of an equal entry of `all`, and the places rise.
pub open spec fn picks<A>(idx: Seq<int>, sub: Seq<A>, all: Seq<A>) -> bool {
    &&& idx.len() == sub.len()
    &&& forall|i: int| 0 <= i < idx.len() ==> 0 <= #[trigger] idx[i] < all.len() && all[idx[i]] == sub[i]
    &&& forall|i: int, j: int| 0 <= i < j < idx.len() ==> idx[i] < idx[j]
}

proof fn lemma_in_doubt_picks(ss: Seq<SummaryView>) -> (idx: Seq<int>)
    ensures
        picks(idx, in_doubt_spec(ss), ss),
        forall|i: int| 0 <= i < in_doubt_spec(ss).len() ==> in_doubt(#[trigger] in_doubt_spec(ss)[i]),
    decreases ss.len(),
{
    if ss.len() == 0 {
        seq![]
    } else {
        let pre = ss.drop_last();
        let i0 = lemma_in_doubt_picks(pre);
        let r0 = in_doubt_spec(pre);
        if in_doubt(ss.last()) {
            let idx = i0.push(ss.len() - 1);
            let r = in_doubt_spec(ss);
            assert(r == r0.push(ss.last()));
            assert forall|i: int| 0 <= i < idx.len() implies 0 <= #[trigger] idx[i] < ss.len() && ss[idx[i]] == r[i] by {
                if i < i0.len() {
                    assert(idx[i] == i0[i]);
                    assert(ss[i0[i]] == pre[i0[i]]);
                    assert(r[i] == r0[i]);
                } else {
                    assert(ss[ss.len() - 1] == ss.last());
                }
            }
            assert forall|i: int, j: int| 0 <= i < j < idx.len() implies idx[i] < idx[j] by {
                assert(0 <= idx[i] < ss.len());
                if j < i0.len() {
                    assert(idx[i] == i0[i] && idx[j] == i0[j]);
                } else {
                    assert(idx[i] == i0[i]);
                    assert(0 <= i0[i] < pre.len());
                }
            }
            assert forall|i: int| 0 <= i < r.len() implies in_doubt(#[trigger] r[i]) by {
                if i < r0.len() {
                    assert(r[i] == r0[i]);
                }
            }
            idx
        } else {
            assert forall|i: int| 0 <= i < i0.len() implies 0 <= #[trigger] i0[i] < ss.len() && ss[i0[i]] == r0[i] by {
                assert(ss[i0[i]] == pre[i0[i]]);
            }
            i0
        }
    }
}

/// The summaries in doubt are a subsequence of the summaries: each equals
/// one of them, field by field, and they keep their order; and each has
/// an average confidence above 0.30 and below 0.70.
pub proof fn doubt_selection_is_a_subsequence(ss: Seq<SummaryView>)
    ensures
        exists|idx: Seq<int>| picks(idx, in_doubt_spec(ss), ss),
        forall|i: int|
            0 <= i < in_doubt_spec(ss).len() ==> DOUBT_LOW * (#[trigger] in_doubt_spec(ss)[i]).result_count
                < in_doubt_spec(ss)[i].confidence_sum,
{
    let idx = lemma_in_doubt_picks(ss);
    assert forall|i: int| 0 <= i < in_doubt_spec(ss).len() implies DOUBT_LOW * (
    #[trigger] in_doubt_spec(ss)[i]).result_count < in_doubt_spec(ss)[i].confidence_sum by {
        assert(in_doubt(in_doubt_spec(ss)[i]));
    }
}

proof fn lemma_total_between(g: Seq<IntentView>, lo: int, hi: int)
    requires
        forall|i: int| 0 <= i < g.len() ==> lo <= #[trigger] g[i].confidence <= hi,
    ensures
        lo * g.len() <= confidence_total(g) <= hi * g.len(),
    decreases g.len(),
{
    if g.len() > 0 {
        let pre = g.drop_last();
        assert forall|i: int| 0 <= i < pre.len() implies lo <= #[trigger] pre[i].confidence <= hi by {
            assert(pre[i] == g[i]);
        }
        lemma_total_between(pre, lo, hi);
        assert(lo <= g[g.len() - 1].confidence <= hi);
        let n = g.len() as int;
        assert(lo * n == lo * (n - 1) + lo) by (nonlinear_arith);
        assert(hi * n == hi * (n - 1) + hi) by (nonlinear_arith);
    }
}

proof fn lemma_least_greatest(g: Seq<IntentView>) -> (r: (int, int))
    requires
        g.len() > 0,
    ensures
        0 <= r.0 < g.len(),
        0 <= r.1 < g.len(),
        forall|m: int| 0 <= m < g.len() ==> g[r.0].confidence <= #[trigger] g[m].confidence <= g[r.1].confidence,
    decreases g.len(),
{
    if g.len() == 1 {
        (0, 0)
    } else {
        let pre = g.drop_last();
        let (a, b) = lemma_least_greatest(pre);
        let n = g.len() - 1;
        assert(g[a] == pre[a] && g[b] == pre[b]);
        let a2 = if g[n].confidence < g[a].confidence { n } else { a };
        let b2 = if g[n].confidence > g[b].confidence { n } else { b };
        assert forall|m: int| 0 <= m < g.len() implies g[a2].confidence <= #[trigger] g[m].confidence
            <= g[b2].confidence by {
            if m < n {
                assert(g[m] == pre[m]);
            }
        }
        (a2, b2)
    }
}

/// The average confidence of a summary lies between the least and the
/// greatest confidence of the intents that it sums up: where `g` holds the
/// intents of the summary `s`, one of them has a confidence no greater
/// than any other and no greater than the average, and one has a
/// confidence no smaller than any other and no smaller than the average.
pub proof fn summary_confidence_between_least_and_greatest(s: SummaryView, k: Seq<char>, g: Seq<IntentView>)
    requires
        is_summary_of(s, k, g),
        g.len() > 0,
    ensures
        s.result_count == g.len(),
        exists|i: int|
            0 <= i < g.len() && (forall|m: int| 0 <= m < g.len() ==> (#[trigger] g[i]).confidence <= g[m].confidence)
                && g[i].confidence * s.result_count <= s.confidence_sum,
        exists|j: int|
            0 <= j < g.len() && (forall|m: int| 0 <= m < g.len() ==> g[m].confidence <= (#[trigger] g[j]).confidence)
                && s.confidence_sum <= g[j].confidence * s.result_count,
{
    let (a, b) = lemma_least_greatest(g);
    lemma_total_between(g, g[a].confidence as int, g[b].confidence as int);
    assert(g[a].confidence * s.result_count <= s.confidence_sum);
    assert(s.confidence_sum <= g[b].confidence * s.result_count);
}

/// One of the seven intents of the rules, with the confidence that its rule
/// gives: reconnaissance (0.75 from failed logins, 0.80 from firewall
/// blocks), credential access (0.85), privilege escalation with
/// persistence (0.90), privilege escalation (0.70), persistence (0.50) and
/// data exfiltration (0.88).
pub open spec fn is_rule_intent(name: Seq<char>, confidence: u32) -> bool {
    ||| name == "reconnaissance"@ && (confidence == 75 || confidence == 80)
    ||| name == "credential_access"@ && confidence == 85
    ||| name == "privilege_escalation + persistence"@ && confidence == 90
    ||| name == "privilege_escalation"@ && confidence == 70
    ||| name == "persistence"@ && confidence == 50
    ||| name == "data_exfiltration"@ && confidence == 88
}

/// `x` is the message of one of the events `evs`.
pub open spec fn is_message_of(x: Seq<char>, evs: Seq<EventView>) -> bool {
    exists|j: int| 0 <= j < evs.len() && #[trigger] evs[j].message == x
}

/// Every entry of `xs` is the message of one of the events `evs`.
pub open spec fn from_messages(xs: Seq<Seq<char>>, evs: Seq<EventView>) -> bool {
    forall|m: int| 0 <= m < xs.len() ==> is_message_of(#[trigger] xs[m], evs)
}

/// A result of the rules for `actor` over `evs`: the actor's, one of the
/// seven intents with its confidence, and resting on evidence made of
/// messages of the events.
pub open spec fn is_rule_result(r: IntentView, actor: Seq<char>, evs: Seq<EventView>) -> bool {
    &&& r.actor == actor
    &&& is_rule_intent(r.intent, r.confidence)
    &&& r.evidence.len() > 0
    &&& from_messages(r.evidence, evs)
}

proof fn lemma_from_messages_prefix(xs: Seq<Seq<char>>, evs: Seq<EventView>)
    requires
        evs.len() > 0,
        from_messages(xs, evs.drop_last()),
    ensures
        from_messages(xs, evs),
{
    let pre = evs.drop_last();
    assert forall|m: int| 0 <= m < xs.len() implies is_message_of(#[trigger] xs[m], evs) by {
        let j = choose|j: int| 0 <= j < pre.len() && #[trigger] pre[j].message == xs[m];
        assert(evs[j] == pre[j]);
    }
}

proof fn lemma_messages_where_from(evs: Seq<EventView>, p: spec_fn(EventView) -> bool)
    ensures
        from_messages(messages_where(evs, p), evs),
    decreases evs.len(),
{
    if evs.len() > 0 {
        let pre = evs.drop_last();
        lemma_messages_where_from(pre, p);
        lemma_from_messages_prefix(messages_where(pre, p), evs);
        let r0 = messages_where(pre, p);
        let r = messages_where(evs, p);
        assert forall|m: int| 0 <= m < r.len() implies is_message_of(#[trigger] r[m], evs) by {
            if m < r0.len() {
                assert(r[m] == r0[m]);
            } else {
                assert(evs[evs.len() - 1].message == r[m]);
            }
        }
    }
}

proof fn lemma_login_from(evs: Seq<EventView>)
    ensures
        from_messages(failed_before_last_login(evs), evs),
        last_login_message(evs) matches Some(x) ==> is_message_of(x, evs),
    decreases evs.len(),
{
    if evs.len() > 0 {
        let pre = evs.drop_last();
        if evs.last().event_type == "ssh_login_success"@ {
            lemma_messages_where_from(pre, |e: EventView| is_failed_login(e));
            lemma_from_messages_prefix(failed_before_last_login(evs), evs);
            assert(evs[evs.len() - 1].message == evs.last().message);
        } else {
            lemma_login_from(pre);
            lemma_from_messages_prefix(failed_before_last_login(evs), evs);
            if let Some(x) = last_login_message(evs) {
                let j = choose|j: int| 0 <= j < pre.len() && #[trigger] pre[j].message == x;
                assert(evs[j] == pre[j]);
            }
        }
    }
}

proof fn lemma_from_messages_concat(a: Seq<Seq<char>>, b: Seq<Seq<char>>, evs: Seq<EventView>)
    requires
        from_messages(a, evs),
        from_messages(b, evs),
    ensures
        from_messages(a + b, evs),
{
    assert forall|m: int| 0 <= m < (a + b).len() implies is_message_of(#[trigger] (a + b)[m], evs) by {
        if m < a.len() {
            assert((a + b)[m] == a[m]);
        } else {
            assert((a + b)[m] == b[m - a.len()]);
        }
    }
}

proof fn lemma_all_rule_results_concat(x: Seq<IntentView>, y: Seq<IntentView>, actor: Seq<char>, evs: Seq<EventView>)
    requires
        forall|i: int| 0 <= i < x.len() ==> is_rule_result(#[trigger] x[i], actor, evs),
        forall|i: int| 0 <= i < y.len() ==> is_rule_result(#[trigger] y[i], actor, evs),
    ensures
        forall|i: int| 0 <= i < (x + y).len() ==> is_rule_result(#[trigger] (x + y)[i], actor, evs),
{
    assert forall|i: int| 0 <= i < (x + y).len() implies is_rule_result(#[trigger] (x + y)[i], actor, evs) by {
        if i < x.len() {
            assert((x + y)[i] == x[i]);
        } else {
            assert((x + y)[i] == y[i - x.len()]);
        }
    }
}

/// The rules find at most five intents for an actor, and each is the
/// actor's, is one of the seven intents of the rules with the confidence
/// of its rule, and rests on evidence made of messages of the actor's
/// events.
pub proof fn rule_results_come_from_events(actor: Seq<char>, evs: Seq<EventView>)
    ensures
        analyze_spec(actor, evs).len() <= 5,
        forall|i: int|
            0 <= i < analyze_spec(actor, evs).len() ==> is_rule_result(
                #[trigger] analyze_spec(actor, evs)[i],
                actor,
                evs,
            ),
{
    let failed = messages_where(evs, |e: EventView| is_failed_login(e));
    let login = last_login_message(evs);
    let before_login = failed_before_last_login(evs);
    let session = messages_where(evs, |e: EventView| is_session(e)).len() > 0;
    let sudo = messages_where(evs, |e: EventView| is_risky_sudo(e));
    let bins = messages_where(evs, |e: EventView| is_suspicious_binary(e));
    let blocks = messages_where(evs, |e: EventView| is_firewall_block(e));
    let exfil = messages_where(evs, |e: EventView| is_large_response(e));
    let logged_in = session || login is Some;
    lemma_messages_where_from(evs, |e: EventView| is_failed_login(e));
    lemma_messages_where_from(evs, |e: EventView| is_risky_sudo(e));
    lemma_messages_where_from(evs, |e: EventView| is_suspicious_binary(e));
    lemma_messages_where_from(evs, |e: EventView| is_firewall_block(e));
    lemma_messages_where_from(evs, |e: EventView| is_large_response(e));
    lemma_login_from(evs);
    lemma_from_messages_concat(sudo, bins, evs);
    let r1 = if failed.len() >= FAILED_LOGIN_THRESHOLD {
        seq![intent(actor, "reconnaissance"@, 75, failed)]
    } else {
        seq![]
    };
    let r2 = if before_login.len() > CREDENTIAL_FAILED_LOGINS && login is Some {
        seq![intent(actor, "credential_access"@, 85, failed.push(login->0))]
    } else {
        seq![]
    };
    let r3 = if logged_in && sudo.len() > 0 && bins.len() > 0 {
        seq![intent(actor, "privilege_escalation + persistence"@, 90, sudo + bins)]
    } else if logged_in && sudo.len() > 0 {
        seq![intent(actor, "privilege_escalation"@, 70, sudo)]
    } else if bins.len() > 0 {
        seq![intent(actor, "persistence"@, 50, bins)]
    } else {
        seq![]
    };
    let r4 = if blocks.len() >= FIREWALL_BLOCK_THRESHOLD {
        seq![intent(actor, "reconnaissance"@, 80, blocks)]
    } else {
        seq![]
    };
    let r5 = if exfil.len() > 0 {
        seq![intent(actor, "data_exfiltration"@, 88, exfil)]
    } else {
        seq![]
    };
    assert(analyze_spec(actor, evs) == r1 + r2 + r3 + r4 + r5);
    if before_login.len() > CREDENTIAL_FAILED_LOGINS && login is Some {
        let ev = failed.push(login->0);
        let j = choose|j: int| 0 <= j < evs.len() && #[trigger] evs[j].message == login->0;
        assert forall|m: int| 0 <= m < ev.len() implies is_message_of(#[trigger] ev[m], evs) by {
            if m < failed.len() {
                assert(ev[m] == failed[m]);
            } else {
                assert(evs[j].message == ev[m]);
            }
        }
    }
    assert forall|i: int| 0 <= i < r1.len() implies is_rule_result(#[trigger] r1[i], actor, evs) by {}
    assert forall|i: int| 0 <= i < r2.len() implies is_rule_result(#[trigger] r2[i], actor, evs) by {}
    assert forall|i: int| 0 <= i < r3.len() implies is_rule_result(#[trigger] r3[i], actor, evs) by {}
    assert forall|i: int| 0 <= i < r4.len() implies is_rule_result(#[trigger] r4[i], actor, evs) by {}
    assert forall|i: int| 0 <= i < r5.len() implies is_rule_result(#[trigger] r5[i], actor, evs) by {}
    lemma_all_rule_results_concat(r1, r2, actor, evs);
    lemma_all_rule_results_concat(r1 + r2, r3, actor, evs);
    lemma_all_rule_results_concat(r1 + r2 + r3, r4, actor, evs);
    lemma_all_rule_results_concat(r1 + r2 + r3 + r4, r5, actor, evs);
}

proof fn lemma_orphans_from(evs: Seq<EventView>)
    ensures
        forall|i: int|
            0 <= i < orphans_spec(evs).len() ==> is_orphan(#[trigger] orphans_spec(evs)[i]) && evs.contains(
                orphans_spec(evs)[i],
            ),
    decreases evs.len(),
{
    if evs.len() > 0 {
        let pre = evs.drop_last();
        lemma_orphans_from(pre);
        let r0 = orphans_spec(pre);
        let r = orphans_spec(evs);
        assert forall|i: int| 0 <= i < r.len() implies is_orphan(#[trigger] r[i]) && evs.contains(r[i]) by {
            if i < r0.len() {
                assert(r[i] == r0[i]);
                let w = choose|w: int| 0 <= w < pre.len() && pre[w] == r0[i];
                assert(evs[w] == pre[w]);
            } else {
                assert(evs[evs.len() - 1] == r[i]);
            }
        }
    }
}

proof fn lemma_linked_to_from(orphans: Seq<EventView>, logins: Seq<(Seq<char>, (i64, u32))>, k: Seq<char>)
    ensures
        forall|i: int|
            0 <= i < linked_to(orphans, logins, k).len() ==> matching_actor_spec(
                #[trigger] linked_to(orphans, logins, k)[i],
                logins,
            ) == Some(k) && orphans.contains(linked_to(orphans, logins, k)[i]),
    decreases orphans.len(),
{
    if orphans.len() > 0 {
        let pre = orphans.drop_last();
        lemma_linked_to_from(pre, logins, k);
        let r0 = linked_to(pre, logins, k);
        let r = linked_to(orphans, logins, k);
        assert forall|i: int| 0 <= i < r.len() implies matching_actor_spec(#[trigger] r[i], logins) == Some(k)
            && orphans.contains(r[i]) by {
            if i < r0.len() {
                assert(r[i] == r0[i]);
                let w = choose|w: int| 0 <= w < pre.len() && pre[w] == r0[i];
                assert(orphans[w] == pre[w]);
            } else {
                assert(orphans[orphans.len() - 1] == r[i]);
            }
        }
    }
}

/// Linking keeps the old keys, in order, without the users of linked
/// events: a key has a group after linking exactly when it had one before
/// and is not such a user. The group of every key that is left is its old
/// group followed by the events linked to its actor, and each of those is
/// an orphan event of `evs` that the login of that actor matches.
pub proof fn linking_keeps_groups_and_appends_matching_orphans(a: Groups<Event>, evs: Seq<EventView>)
    requires
        a.wf(),
    ensures
        forall|k: Seq<char>|
            (#[trigger] link_result(
                a.group_of(k),
                orphans_spec(evs),
                logins_spec(a.key_seq(), a.group_seq()),
                k,
            ) is Some) <==> (a.has_key(k) && !is_linked_user(
                orphans_spec(evs),
                logins_spec(a.key_seq(), a.group_seq()),
                k,
            )),
        forall|k: Seq<char>|
            #![trigger a.has_key(k)]
            keys_except(
                a.key_seq(),
                |u: Seq<char>|
                    is_linked_user(orphans_spec(evs), logins_spec(a.key_seq(), a.group_seq()), u),
            ).contains(k) <==> (a.has_key(k) && !is_linked_user(
                orphans_spec(evs),
                logins_spec(a.key_seq(), a.group_seq()),
                k,
            )),
        forall|k: Seq<char>|
            a.has_key(k) && !is_linked_user(
                orphans_spec(evs),
                logins_spec(a.key_seq(), a.group_seq()),
                k,
            ) ==> #[trigger] link_result(
                a.group_of(k),
                orphans_spec(evs),
                logins_spec(a.key_seq(), a.group_seq()),
                k,
            ) == Some(
                a.group_of(k)->0 + linked_to(orphans_spec(evs), logins_spec(a.key_seq(), a.group_seq()), k),
            ),
        forall|k: Seq<char>, i: int|
            0 <= i < linked_to(orphans_spec(evs), logins_spec(a.key_seq(), a.group_seq()), k).len() ==> {
                let x = #[trigger] linked_to(
                    orphans_spec(evs),
                    logins_spec(a.key_seq(), a.group_seq()),
                    k,
                )[i];
                &&& is_orphan(x)
                &&& evs.contains(x)
                &&& matching_actor_spec(x, logins_spec(a.key_seq(), a.group_seq())) == Some(k)
            },
{
    let o = orphans_spec(evs);
    let l = logins_spec(a.key_seq(), a.group_seq());
    lemma_orphans_from(evs);
    lemma_logins_spec_keys(a.key_seq(), a.group_seq());
    lemma_keys_except_subset(a.key_seq(), |u: Seq<char>| is_linked_user(o, l, u));
    assert forall|k: Seq<char>|
        (#[trigger] link_result(a.group_of(k), o, l, k) is Some) <==> (a.has_key(k) && !is_linked_user(o, l, k)) by {
        lemma_linked_to_from(o, l, k);
        if !a.has_key(k) && linked_to(o, l, k).len() > 0 {
            let x = linked_to(o, l, k)[0];
            lemma_matching_actor_is_login(x, l);
            let j = choose|j: int| 0 <= j < l.len() && #[trigger] l[j].0 == k;
            assert(a.key_seq().contains(l[j].0));
        }
    }
    assert forall|k: Seq<char>, i: int| 0 <= i < linked_to(o, l, k).len() implies {
        let x = #[trigger] linked_to(o, l, k)[i];
        &&& is_orphan(x)
        &&& evs.contains(x)
        &&& matching_actor_spec(x, l) == Some(k)
    } by {
        lemma_linked_to_from(o, l, k);
        let x = linked_to(o, l, k)[i];
        let w = choose|w: int| 0 <= w < o.len() && o[w] == x;
        assert(is_orphan(o[w]) && evs.contains(o[w]));
    }
}

proof fn lemma_closest_exists(ds: Seq<Option<i64>>)
    requires
        exists|k: int| 0 <= k < ds.len() && in_window(#[trigger] ds[k]),
    ensures
        exists|j: int| is_closest(ds, j),
    decreases ds.len(),
{
    let n = ds.len() - 1;
    let pre = ds.drop_last();
    if exists|k: int| 0 <= k < pre.len() && in_window(#[trigger] pre[k]) {
        lemma_closest_exists(pre);
        let j0 = choose|j: int| is_closest(pre, j);
        assert(ds[j0] == pre[j0]);
        if in_window(ds[n]) && ds[n]->0 < ds[j0]->0 {
            assert forall|k: int| 0 <= k < ds.len() && in_window(ds[k]) implies ds[n]->0 <= ds[k]->0 by {
                if k < n {
                    assert(ds[k] == pre[k]);
                }
            }
            assert forall|k: int| 0 <= k < n && in_window(ds[k]) implies ds[n]->0 < ds[k]->0 by {
                assert(ds[k] == pre[k]);
            }
            assert(is_closest(ds, n));
        } else {
            assert forall|k: int| 0 <= k < ds.len() && in_window(ds[k]) implies ds[j0]->0 <= ds[k]->0 by {
                if k < n {
                    assert(ds[k] == pre[k]);
                }
            }
            assert forall|k: int| 0 <= k < j0 && in_window(ds[k]) implies ds[j0]->0 < ds[k]->0 by {
                assert(ds[k] == pre[k]);
            }
            assert(is_closest(ds, j0));
        }
    } else {
        let k0 = choose|k: int| 0 <= k < ds.len() && in_window(#[trigger] ds[k]);
        if k0 < n {
            assert(pre[k0] == ds[k0]);
        }
        assert forall|k: int| 0 <= k < n && in_window(ds[k]) implies ds[n]->0 < ds[k]->0 by {
            assert(ds[k] == pre[k]);
        }
        assert(is_closest(ds, n));
    }
}

/// Every orphan event that a login matches is added exactly once: taking
/// the orphan events one by one, the `j`-th is added to the events linked
/// to its matched actor, and to those of no other actor; one that matches
/// no login is added nowhere. An orphan event whose timestamp reads and
/// that some login precedes by at most five minutes has a matched actor,
/// and that actor owns the nearest such login.
pub proof fn each_matching_orphan_is_added_once(
    orphans: Seq<EventView>,
    logins: Seq<(Seq<char>, (i64, u32))>,
    j: int,
)
    requires
        0 <= j < orphans.len(),
    ensures
        forall|k: Seq<char>|
            #[trigger] linked_to(orphans.take(j + 1), logins, k) == (if matching_actor_spec(orphans[j], logins)
                == Some(k) {
                linked_to(orphans.take(j), logins, k).push(orphans[j])
            } else {
                linked_to(orphans.take(j), logins, k)
            }),
        (timestamp_spec(orphans[j].timestamp) matches Some(t) && exists|i: int|
            0 <= i < logins.len() && in_window(#[trigger] chrono_seconds_between(t, logins[i].1)))
            ==> matching_actor_spec(orphans[j], logins) is Some,
        matching_actor_spec(orphans[j], logins) matches Some(a) ==> exists|i: int|
            0 <= i < logins.len() && logins[i].0 == a && in_window(
                chrono_seconds_between(timestamp_spec(orphans[j].timestamp)->0, logins[i].1),
            ) && forall|m: int|
                0 <= m < logins.len() && in_window(
                    #[trigger] chrono_seconds_between(timestamp_spec(orphans[j].timestamp)->0, logins[m].1),
                ) ==> chrono_seconds_between(timestamp_spec(orphans[j].timestamp)->0, logins[i].1)->0
                    <= chrono_seconds_between(timestamp_spec(orphans[j].timestamp)->0, logins[m].1)->0,
{
    assert(orphans.take(j + 1).drop_last() =~= orphans.take(j));
    assert(orphans.take(j + 1).last() == orphans[j]);
    if let Some(t) = timestamp_spec(orphans[j].timestamp) {
        if exists|i: int| 0 <= i < logins.len() && in_window(#[trigger] chrono_seconds_between(t, logins[i].1)) {
            let ds = logins.map_values(|l: (Seq<char>, (i64, u32))| chrono_seconds_between(t, l.1));
            let i = choose|i: int| 0 <= i < logins.len() && in_window(#[trigger] chrono_seconds_between(t, logins[i].1));
            assert(ds[i] == chrono_seconds_between(t, logins[i].1));
            lemma_closest_exists(ds);
        }
    }
    if let Some(a) = matching_actor_spec(orphans[j], logins) {
        linked_event_follows_login(orphans[j], logins, a);
    }
}

/// The number of entries of all `groups` together.
pub open spec fn total_len<V>(groups: Seq<Seq<V>>) -> int
    decreases groups.len(),
{
    if groups.len() == 0 {
        0
    } else {
        total_len(groups.drop_last()) + groups.last().len()
    }
}

/// The number of items of `items` that have a key.
pub open spec fn keyed_count<V>(items: Seq<V>, keyf: spec_fn(V) -> Option<Seq<char>>) -> int
    decreases items.len(),
{
    if items.len() == 0 {
        0
    } else {
        keyed_count(items.drop_last(), keyf) + if keyf(items.last()) is Some {
            1int
        } else {
            0int
        }
    }
}

/// The number of items with one of the keys `ks`, key by key.
spec fn count_per_key<V>(ks: Seq<Seq<char>>, items: Seq<V>, keyf: spec_fn(V) -> Option<Seq<char>>) -> int
    decreases ks.len(),
{
    if ks.len() == 0 {
        0
    } else {
        count_per_key(ks.drop_last(), items, keyf) + items_with_key(items, keyf, ks.last()).len()
    }
}

/// How many of the keys `ks` the key `o` is.
spec fn times_key(ks: Seq<Seq<char>>, o: Option<Seq<char>>) -> int
    decreases ks.len(),
{
    if ks.len() == 0 {
        0
    } else {
        times_key(ks.drop_last(), o) + if o == Some(ks.last()) {
            1int
        } else {
            0int
        }
    }
}

proof fn lemma_times_key(ks: Seq<Seq<char>>, o: Option<Seq<char>>)
    requires
        crate::groups::distinct_keys(ks),
    ensures
        times_key(ks, o) == (if o matches Some(k) && ks.contains(k) {
            1int
        } else {
            0int
        }),
    decreases ks.len(),
{
    if ks.len() > 0 {
        let pre = ks.drop_last();
        assert(crate::groups::distinct_keys(pre)) by {
            assert forall|a: int, b: int| 0 <= a < pre.len() && 0 <= b < pre.len() && a != b implies pre[a] != pre[b] by {
                assert(pre[a] == ks[a] && pre[b] == ks[b]);
            }
        }
        lemma_times_key(pre, o);
        if let Some(k) = o {
            if pre.contains(k) {
                let w = choose|w: int| 0 <= w < pre.len() && pre[w] == k;
                assert(ks[w] == k);
                assert(ks[ks.len() - 1] == ks.last());
                assert(ks.contains(k));
            } else if ks.contains(k) {
                let w = choose|w: int| 0 <= w < ks.len() && ks[w] == k;
                if w < ks.len() - 1 {
                    assert(pre[w] == k);
                }
            } else {
                assert(ks[ks.len() - 1] == ks.last());
            }
        }
    }
}

proof fn lemma_count_per_key_step<V>(ks: Seq<Seq<char>>, items: Seq<V>, keyf: spec_fn(V) -> Option<Seq<char>>)
    requires
        items.len() > 0,
    ensures
        count_per_key(ks, items, keyf) == count_per_key(ks, items.drop_last(), keyf) + times_key(
            ks,
            keyf(items.last()),
        ),
    decreases ks.len(),
{
    if ks.len() > 0 {
        lemma_count_per_key_step(ks.drop_last(), items, keyf);
    }
}

proof fn lemma_count_per_key_empty<V>(ks: Seq<Seq<char>>, items: Seq<V>, keyf: spec_fn(V) -> Option<Seq<char>>)
    requires
        items.len() == 0,
    ensures
        count_per_key(ks, items, keyf) == 0,
    decreases ks.len(),
{
    if ks.len() > 0 {
        lemma_count_per_key_empty(ks.drop_last(), items, keyf);
    }
}

proof fn lemma_count_per_key_all<V>(ks: Seq<Seq<char>>, items: Seq<V>, keyf: spec_fn(V) -> Option<Seq<char>>)
    requires
        crate::groups::distinct_keys(ks),
        forall|j: int| 0 <= j < items.len() ==> (#[trigger] keyf(items[j]) matches Some(k) ==> ks.contains(k)),
    ensures
        count_per_key(ks, items, keyf) == keyed_count(items, keyf),
    decreases items.len(),
{
    if items.len() == 0 {
        lemma_count_per_key_empty(ks, items, keyf);
    } else {
        let pre = items.drop_last();
        assert forall|j: int| 0 <= j < pre.len() implies (#[trigger] keyf(pre[j]) matches Some(k) ==> ks.contains(k)) by {
            assert(pre[j] == items[j]);
        }
        lemma_count_per_key_all(ks, pre, keyf);
        lemma_count_per_key_step(ks, items, keyf);
        lemma_times_key(ks, keyf(items.last()));
        assert(keyf(items[items.len() - 1]) == keyf(items.last()));
    }
}

proof fn lemma_total_len_groups<V>(
    keys: Seq<Seq<char>>,
    groups: Seq<Seq<V>>,
    items: Seq<V>,
    keyf: spec_fn(V) -> Option<Seq<char>>,
)
    requires
        keys.len() == groups.len(),
        forall|p: int| 0 <= p < keys.len() ==> #[trigger] groups[p] == items_with_key(items, keyf, keys[p]),
    ensures
        total_len(groups) == count_per_key(keys, items, keyf),
    decreases keys.len(),
{
    if keys.len() > 0 {
        let k0 = keys.drop_last();
        let g0 = groups.drop_last();
        assert forall|p: int| 0 <= p < k0.len() implies #[trigger] g0[p] == items_with_key(items, keyf, k0[p]) by {
            assert(g0[p] == groups[p] && k0[p] == keys[p]);
        }
        lemma_total_len_groups(k0, g0, items, keyf);
        assert(groups[groups.len() - 1] == groups.last());
    }
}

/// Grouping loses and doubles no event: where `keys` (no key twice) and
/// `groups` hold `items` grouped by `keyf`, as `group_events_per_actor`
/// groups events by actor, the sizes of the groups add up to the number
/// of items that have a key, and no group is empty.
pub proof fn grouping_counts_every_keyed_item_once<V>(
    keys: Seq<Seq<char>>,
    groups: Seq<Seq<V>>,
    items: Seq<V>,
    keyf: spec_fn(V) -> Option<Seq<char>>,
)
    requires
        crate::groups::distinct_keys(keys),
        grouped_by(keys, groups, items, keyf),
    ensures
        total_len(groups) == keyed_count(items, keyf),
        forall|p: int| 0 <= p < groups.len() ==> (#[trigger] groups[p]).len() > 0,
{
    assert forall|j: int| 0 <= j < items.len() implies (#[trigger] keyf(items[j]) matches Some(k) ==> keys.contains(k)) by {
        if let Some(k) = keyf(items[j]) {
            assert(exists|i: int| 0 <= i < items.len() && keyf(items[i]) == Some(k));
        }
    }
    lemma_count_per_key_all(keys, items, keyf);
    lemma_total_len_groups(keys, groups, items, keyf);
    assert forall|p: int| 0 <= p < groups.len() implies (#[trigger] groups[p]).len() > 0 by {
        assert(keys.contains(keys[p]));
        let j = choose|j: int| 0 <= j < items.len() && keyf(items[j]) == Some(keys[p]);
        lemma_items_with_key_contains(items, keyf, keys[p], items[j]);
        assert(items.contains(items[j]));
    }
}

proof fn lemma_events_of_lines_all(
    lines: Seq<Seq<char>>,
    classify: spec_fn(Seq<char>) -> Option<EventView>,
    p: spec_fn(EventView) -> bool,
)
    requires
        forall|l: Seq<char>| #[trigger] classify(l) matches Some(e) ==> p(e),
    ensures
        forall|i: int|
            0 <= i < events_of_lines(lines, classify).len() ==> p(#[trigger] events_of_lines(lines, classify)[i]),
    decreases lines.len(),
{
    if lines.len() > 0 {
        let pre = lines.drop_last();
        lemma_events_of_lines_all(pre, classify, p);
        let r0 = events_of_lines(pre, classify);
        let r = events_of_lines(lines, classify);
        assert forall|i: int| 0 <= i < r.len() implies p(#[trigger] r[i]) by {
            if i < r0.len() {
                assert(r[i] == r0[i]);
            } else {
                assert(classify(lines.last()) is Some);
            }
        }
    }
}

/// An event as `auth.log` gives it: its source is `auth.log`, it is a
/// successful login, a failed login or a sudo command, and it has no size.
/// A sudo command has no source address, and its command is the third
/// group of the match of its line; a login has no command, and its source
/// address is that third group.
pub open spec fn is_auth_event(e: EventView) -> bool {
    let third = group((first_match(auth_patterns(), e.message)->0).1, 3);
    &&& e.source == "auth.log"@
    &&& e.event_type == "ssh_login_success"@ || e.event_type == "ssh_login_failed"@ || e.event_type
        == "sudo_command"@
    &&& e.size is None
    &&& e.event_type == "sudo_command"@ ==> e.ip is None && e.command == third
    &&& e.event_type != "sudo_command"@ ==> e.command is None && e.ip == third
}

/// The events that `parse` of `auth.log` gives for the text `text`.
pub open spec fn auth_events(text: Seq<char>) -> Seq<EventView> {
    events_of_lines(lines_of(text), |l: Seq<char>| auth_line(l))
}

/// `auth.log` gives, in the order of its lines, one event for each line
/// that one of its patterns matches, carrying that line; and each event is
/// a login or a sudo command as `is_auth_event` says: only sudo commands
/// lack a source address that the line's match gives.
pub proof fn auth_events_are_logins_or_sudo(text: Seq<char>)
    ensures
        forall|i: int| 0 <= i < auth_events(text).len() ==> is_auth_event(#[trigger] auth_events(text)[i]),
        forall|i: int|
            0 <= i < auth_events(text).len() ==> auth_line((#[trigger] auth_events(text)[i]).message) == Some(
                auth_events(text)[i],
            ),
{
    reveal_strlit("ssh_login_success");
    reveal_strlit("ssh_login_failed");
    reveal_strlit("sudo_command");
    assert("ssh_login_success"@[1] == 's' && "sudo_command"@[1] == 'u');
    assert("ssh_login_failed"@[1] == 's');
    let classify = |l: Seq<char>| auth_line(l);
    let good = |e: EventView| is_auth_event(e) && auth_line(e.message) == Some(e);
    assert forall|l: Seq<char>| #[trigger] classify(l) is Some implies good(classify(l)->0) by {
        lemma_first_match_in_range(auth_patterns(), l, 0);
        if let Some((k, c)) = first_match(auth_patterns(), l) {
            assert(0 <= k < 3);
        }
    }
    lemma_events_of_lines_all(lines_of(text), classify, good);
}

proof fn lemma_messages_where_contains(evs: Seq<EventView>, p: spec_fn(EventView) -> bool, j: int)
    requires
        0 <= j < evs.len(),
        p(evs[j]),
    ensures
        messages_where(evs, p).contains(evs[j].message),
    decreases evs.len(),
{
    let pre = evs.drop_last();
    let r0 = messages_where(pre, p);
    let r = messages_where(evs, p);
    if j == evs.len() - 1 {
        assert(r == r0.push(evs.last().message));
        assert(r[r0.len() as int] == evs[j].message);
    } else {
        assert(pre[j] == evs[j]);
        lemma_messages_where_contains(pre, p, j);
        let w = choose|w: int| 0 <= w < r0.len() && r0[w] == evs[j].message;
        if p(evs.last()) {
            assert(r[w] == r0[w]);
        }
    }
}

proof fn lemma_login_found(evs: Seq<EventView>, j: int)
    requires
        0 <= j < evs.len(),
        evs[j].event_type == "ssh_login_success"@,
    ensures
        last_login_message(evs) is Some,
    decreases evs.len(),
{
    if j < evs.len() - 1 && evs.last().event_type != "ssh_login_success"@ {
        assert(evs.drop_last()[j] == evs[j]);
        lemma_login_found(evs.drop_last(), j);
    }
}

/// Where the events of an actor hold a started session or a successful
/// login, a sudo command that runs from `/tmp`, starts `/bin/bash` or
/// fetches with `wget`, and a suspicious binary, the rules find privilege
/// escalation with persistence at 0.90 for the actor, shown among others
/// by that command and that binary, whatever else the events hold.
pub proof fn escalation_with_persistence_is_found(actor: Seq<char>, evs: Seq<EventView>, i: int, j: int, k: int)
    requires
        0 <= i < evs.len(),
        0 <= j < evs.len(),
        0 <= k < evs.len(),
        evs[i].event_type == "session_started"@ || evs[i].event_type == "ssh_login_success"@,
        evs[j].event_type == "sudo_command"@,
        evs[j].command matches Some(c) && (contains_seq(c, "/tmp"@) || contains_seq(c, "/bin/bash"@)
            || contains_seq(c, "wget"@)),
        evs[k].event_type == "suspicious_binary"@,
    ensures
        exists|r: int|
            0 <= r < analyze_spec(actor, evs).len() && {
                let x = #[trigger] analyze_spec(actor, evs)[r];
                &&& x.actor == actor
                &&& x.intent == "privilege_escalation + persistence"@
                &&& x.confidence == 90
                &&& x.evidence.contains(evs[j].message)
                &&& x.evidence.contains(evs[k].message)
            },
{
    let failed = messages_where(evs, |e: EventView| is_failed_login(e));
    let login = last_login_message(evs);
    let before_login = failed_before_last_login(evs);
    let sessions = messages_where(evs, |e: EventView| is_session(e));
    let session = sessions.len() > 0;
    let sudo = messages_where(evs, |e: EventView| is_risky_sudo(e));
    let bins = messages_where(evs, |e: EventView| is_suspicious_binary(e));
    let blocks = messages_where(evs, |e: EventView| is_firewall_block(e));
    let exfil = messages_where(evs, |e: EventView| is_large_response(e));
    let logged_in = session || login is Some;
    if evs[i].event_type == "session_started"@ {
        lemma_messages_where_contains(evs, |e: EventView| is_session(e), i);
    } else {
        lemma_login_found(evs, i);
    }
    lemma_messages_where_contains(evs, |e: EventView| is_risky_sudo(e), j);
    lemma_messages_where_contains(evs, |e: EventView| is_suspicious_binary(e), k);
    let r1 = if failed.len() >= FAILED_LOGIN_THRESHOLD {
        seq![intent(actor, "reconnaissance"@, 75, failed)]
    } else {
        seq![]
    };
    let r2 = if before_login.len() > CREDENTIAL_FAILED_LOGINS && login is Some {
        seq![intent(actor, "credential_access"@, 85, failed.push(login->0))]
    } else {
        seq![]
    };
    let ev = sudo + bins;
    let r3 = seq![intent(actor, "privilege_escalation + persistence"@, 90, ev)];
    let r4 = if blocks.len() >= FIREWALL_BLOCK_THRESHOLD {
        seq![intent(actor, "reconnaissance"@, 80, blocks)]
    } else {
        seq![]
    };
    let r5 = if exfil.len() > 0 {
        seq![intent(actor, "data_exfiltration"@, 88, exfil)]
    } else {
        seq![]
    };
    assert(logged_in && sudo.len() > 0 && bins.len() > 0);
    assert(analyze_spec(actor, evs) == r1 + r2 + r3 + r4 + r5);
    let at: int = (r1.len() + r2.len()) as int;
    assert((r1 + r2 + r3 + r4 + r5)[at] == r3[0]);
    let ws = choose|w: int| 0 <= w < sudo.len() && sudo[w] == evs[j].message;
    let wb = choose|w: int| 0 <= w < bins.len() && bins[w] == evs[k].message;
    assert(ev[ws] == sudo[ws]);
    assert(ev[sudo.len() + wb] == bins[wb]);
    assert(analyze_spec(actor, evs)[at].evidence.contains(evs[j].message));
    assert(analyze_spec(actor, evs)[at].evidence.contains(evs[k].message));
}

/// The orphan events of `evs` are exactly the events, in order, that have
/// no source address and either no user or are sudo commands; so every
/// event that linking adds to an actor has no source address.
pub proof fn orphans_are_events_without_address(evs: Seq<EventView>)
    ensures
        orphans_spec(evs) == evs.filter(
            |e: EventView| e.ip is None && (e.user is None || e.event_type == "sudo_command"@),
        ),
        forall|i: int| 0 <= i < orphans_spec(evs).len() ==> (#[trigger] orphans_spec(evs)[i]).ip is None,
    decreases evs.len(),
{
    reveal(Seq::filter);
    let p = |e: EventView| e.ip is None && (e.user is None || e.event_type == "sudo_command"@);
    if evs.len() > 0 {
        orphans_are_events_without_address(evs.drop_last());
    }
    assert(orphans_spec(evs) == evs.filter(p));
    lemma_orphans_from(evs);
    assert forall|i: int| 0 <= i < orphans_spec(evs).len() implies (#[trigger] orphans_spec(evs)[i]).ip is None by {
        let w = choose|w: int| 0 <= w < evs.filter(p).len() && evs.filter(p)[w] == orphans_spec(evs)[i];
        assert(evs.filter(p)[i] == orphans_spec(evs)[i]);
        evs.lemma_filter_pred(p, i);
    }
}

/// Every event that linking adds to the group of an actor is one without
/// a source address: an orphan event of `evs` that has no user or is a
/// sudo command.
pub proof fn linked_events_have_no_address(
    evs: Seq<EventView>,
    logins: Seq<(Seq<char>, (i64, u32))>,
    k: Seq<char>,
)
    ensures
        forall|i: int|
            0 <= i < linked_to(orphans_spec(evs), logins, k).len() ==> {
                let x = #[trigger] linked_to(orphans_spec(evs), logins, k)[i];
                &&& x.ip is None
                &&& x.user is None || x.event_type == "sudo_command"@
                &&& evs.contains(x)
            },
{
    orphans_are_events_without_address(evs);
    lemma_linked_to_from(orphans_spec(evs), logins, k);
    let p = |e: EventView| e.ip is None && (e.user is None || e.event_type == "sudo_command"@);
    assert forall|i: int| 0 <= i < linked_to(orphans_spec(evs), logins, k).len() implies {
        let x = #[trigger] linked_to(orphans_spec(evs), logins, k)[i];
        &&& x.ip is None
        &&& x.user is None || x.event_type == "sudo_command"@
        &&& evs.contains(x)
    } by {
        let x = linked_to(orphans_spec(evs), logins, k)[i];
        let w = choose|w: int| 0 <= w < orphans_spec(evs).len() && orphans_spec(evs)[w] == x;
        evs.lemma_filter_pred(p, w);
        lemma_orphans_from(evs);
        assert(evs.contains(orphans_spec(evs)[w]));
    }
}

proof fn lemma_all_evidence_contains(g: Seq<IntentView>, x: Seq<char>)
    ensures
        all_evidence(g).contains(x) <==> exists|i: int, m: int|
            0 <= i < g.len() && 0 <= m < g[i].evidence.len() && #[trigger] g[i].evidence[m] == x,
    decreases g.len(),
{
    if g.len() > 0 {
        let pre = g.drop_last();
        lemma_all_evidence_contains(pre, x);
        let a = all_evidence(pre);
        let b = g.last().evidence;
        assert(all_evidence(g) == a + b);
        if (a + b).contains(x) {
            let w = choose|w: int| 0 <= w < (a + b).len() && (a + b)[w] == x;
            if w < a.len() {
                assert((a + b)[w] == a[w]);
                let (i, m) = choose|i: int, m: int|
                    0 <= i < pre.len() && 0 <= m < pre[i].evidence.len() && #[trigger] pre[i].evidence[m] == x;
                assert(g[i] == pre[i]);
            } else {
                assert((a + b)[w] == b[w - a.len()]);
                assert(g[g.len() - 1].evidence[w - a.len()] == x);
            }
        }
        if exists|i: int, m: int| 0 <= i < g.len() && 0 <= m < g[i].evidence.len() && #[trigger] g[i].evidence[m] == x {
            let (i, m) = choose|i: int, m: int|
                0 <= i < g.len() && 0 <= m < g[i].evidence.len() && #[trigger] g[i].evidence[m] == x;
            if i < pre.len() {
                assert(pre[i] == g[i]);
                assert(pre[i].evidence[m] == x);
                let w = choose|w: int| 0 <= w < a.len() && a[w] == x;
                assert((a + b)[w] == a[w]);
            } else {
                assert(g[i] == g.last());
                assert((a + b)[a.len() + m] == b[m]);
            }
        }
    }
}

/// A summary lists, each once and sorted, exactly the intents of its
/// results, whatever their confidence, and exactly the lines of evidence
/// of its results; it names its actor and counts its results.
pub proof fn summary_lists_exactly_its_results(s: SummaryView, k: Seq<char>, g: Seq<IntentView>)
    requires
        is_summary_of(s, k, g),
    ensures
        s.actor == k,
        s.result_count == g.len(),
        strictly_sorted(s.intents),
        strictly_sorted(s.evidence),
        forall|x: Seq<char>|
            #[trigger] s.intents.contains(x) <==> exists|i: int| 0 <= i < g.len() && g[i].intent == x,
        forall|x: Seq<char>|
            #[trigger] s.evidence.contains(x) <==> exists|i: int, m: int|
                0 <= i < g.len() && 0 <= m < g[i].evidence.len() && #[trigger] g[i].evidence[m] == x,
{
    assert forall|x: Seq<char>|
        #[trigger] s.intents.contains(x) <==> exists|i: int| 0 <= i < g.len() && g[i].intent == x by {
        let names = intent_names(g);
        assert(s.intents.contains(x) <==> names.contains(x));
        if names.contains(x) {
            let w = choose|w: int| 0 <= w < names.len() && names[w] == x;
            assert(g[w].intent == x);
        }
        if exists|i: int| 0 <= i < g.len() && g[i].intent == x {
            let i = choose|i: int| 0 <= i < g.len() && g[i].intent == x;
            assert(names[i] == x);
        }
    }
    assert forall|x: Seq<char>|
        #[trigger] s.evidence.contains(x) <==> exists|i: int, m: int|
            0 <= i < g.len() && 0 <= m < g[i].evidence.len() && #[trigger] g[i].evidence[m] == x by {
        lemma_all_evidence_contains(g, x);
    }
}

/// The summaries in doubt are exactly those whose average confidence lies
/// strictly between 0.30 and 0.70, in their order: none of them is left
/// out and no other is added.
pub proof fn doubt_selection_is_exactly_the_band(ss: Seq<SummaryView>)
    ensures
        in_doubt_spec(ss) == ss.filter(
            |s: SummaryView| 30 * s.result_count < s.confidence_sum && s.confidence_sum < 70 * s.result_count,
        ),
        forall|i: int|
            0 <= i < ss.len() && 30 * ss[i].result_count < ss[i].confidence_sum && ss[i].confidence_sum < 70
                * ss[i].result_count ==> in_doubt_spec(ss).contains(#[trigger] ss[i]),
    decreases ss.len(),
{
    reveal(Seq::filter);
    let p = |s: SummaryView| 30 * s.result_count < s.confidence_sum && s.confidence_sum < 70 * s.result_count;
    if ss.len() > 0 {
        doubt_selection_is_exactly_the_band(ss.drop_last());
    }
    assert(in_doubt_spec(ss) == ss.filter(p));
    assert forall|i: int|
        0 <= i < ss.len() && 30 * ss[i].result_count < ss[i].confidence_sum && ss[i].confidence_sum < 70
            * ss[i].result_count implies in_doubt_spec(ss).contains(#[trigger] ss[i]) by {
        ss.lemma_filter_contains(p, i);
    }
}

/// The question about an actor holds its first twenty lines of evidence,
/// or all of them where it has fewer, each after `- ` on a line of its own,
/// between its intents and the form of the answer.
pub proof fn prompt_holds_the_first_twenty_evidence_lines(s: SummaryView)
    ensures
        prompt_spec(s) == PROMPT_HEAD@ + s.actor + PROMPT_INTENTS@ + join_spec(s.intents, ", "@)
            + PROMPT_EVIDENCE@ + join_spec(
            s.evidence.take(
                if s.evidence.len() < 20 {
                    s.evidence.len() as int
                } else {
                    20
                },
            ),
            "\n- "@,
        ) + answer_format(),
{
    let n: int = if s.evidence.len() < 20 { s.evidence.len() as int } else { 20 };
    assert(first_n(s.evidence, PROMPT_EVIDENCE_LINES as int) =~= s.evidence.take(n));
}

/// The lines `ls`, each followed by a line feed, one after the other.
pub open spec fn joined_lines(ls: Seq<Seq<char>>) -> Seq<char>
    decreases ls.len(),
{
    if ls.len() == 0 {
        seq![]
    } else {
        ls[0] + seq!['\n'] + joined_lines(ls.drop_first())
    }
}

/// A log is read line by line without losing or adding a character: no
/// line holds a line feed, and, for a text without carriage returns, the
/// lines, each followed by a line feed, give the text back (with a line
/// feed added at its end where it has none there).
pub proof fn lines_give_the_text_back(s: Seq<char>)
    ensures
        forall|i: int, j: int|
            0 <= i < lines_of(s).len() && 0 <= j < lines_of(s)[i].len() ==> #[trigger] lines_of(s)[i][j] != '\n',
        (forall|j: int| 0 <= j < s.len() ==> #[trigger] s[j] != '\r') ==> joined_lines(lines_of(s)) == (if s.len()
            == 0 || s.last() == '\n' {
            s
        } else {
            s.push('\n')
        }),
    decreases s.len(),
{
    if s.len() > 0 {
        if exists|i: int| crate::text::first_newline_at(s, i) {
            let i = choose|i: int| crate::text::first_newline_at(s, i);
            crate::text::lemma_lines_of_unfold(s, i);
            let rest = s.skip(i + 1);
            lines_give_the_text_back(rest);
            let ls = lines_of(s);
            let head = crate::text::strip_cr(s.take(i));
            assert(ls == seq![head] + lines_of(rest));
            assert forall|a: int, j: int| 0 <= a < ls.len() && 0 <= j < ls[a].len() implies #[trigger] ls[a][j]
                != '\n' by {
                if a == 0 {
                    assert(ls[0] == head);
                    assert(head[j] == s[j]);
                } else {
                    assert(ls[a] == lines_of(rest)[a - 1]);
                }
            }
            if forall|j: int| 0 <= j < s.len() ==> #[trigger] s[j] != '\r' {
                assert forall|j: int| 0 <= j < rest.len() implies #[trigger] rest[j] != '\r' by {
                    assert(rest[j] == s[i + 1 + j]);
                }
                if i > 0 {
                    assert(s.take(i).last() == s[i - 1]);
                }
                assert(head == s.take(i));
                assert(ls.drop_first() =~= lines_of(rest));
                assert(ls[0] == head);
                assert(joined_lines(ls) == head + seq!['\n'] + joined_lines(lines_of(rest)));
                if rest.len() == 0 {
                    assert(s.len() == i + 1);
                    assert(s.last() == '\n');
                    assert(s.take(i) + seq!['\n'] + rest =~= s);
                } else {
                    assert(rest.last() == s.last());
                    if s.last() == '\n' {
                        assert(s.take(i) + seq!['\n'] + rest =~= s);
                    } else {
                        assert(s.take(i) + seq!['\n'] + rest.push('\n') =~= s.push('\n'));
                    }
                }
            }
        } else {
            assert(lines_of(s) == seq![s]);
            assert forall|j: int| 0 <= j < s.len() implies #[trigger] s[j] != '\n' by {
                if s[j] == '\n' {
                    lemma_first_newline_exists(s, j);
                }
            }
            assert(s[s.len() - 1] != '\n');
            let ls = lines_of(s);
            assert(ls[0] == s);
            assert(ls.drop_first() =~= Seq::<Seq<char>>::empty());
            assert(joined_lines(ls.drop_first()) == Seq::<char>::empty());
            assert(joined_lines(ls) == s + seq!['\n'] + Seq::<char>::empty());
            assert(joined_lines(ls) =~= s.push('\n'));
        }
    }
}

proof fn lemma_first_newline_exists(s: Seq<char>, j: int)
    requires
        0 <= j < s.len(),
        s[j] == '\n',
    ensures
        exists|m: int| crate::text::first_newline_at(s, m),
    decreases j,
{
    if exists|q: int| 0 <= q < j && s[q] == '\n' {
        let q = choose|q: int| 0 <= q < j && s[q] == '\n';
        lemma_first_newline_exists(s, q);
    } else {
        assert(crate::text::first_newline_at(s, j));
    }
}

} // verus!
