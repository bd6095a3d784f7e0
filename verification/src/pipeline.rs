//! The whole analysis of the four logs: parsing, grouping per actor,
//! linking of orphan events, the rules, summaries per actor, and the
//! selection of the actors whose confidence is in doubt.

use vstd::prelude::*;
use crate::detection::{filter_low_confidence, in_doubt_spec};
use crate::detection::rules::{analyze, analyze_spec};
use crate::groups::{Groups, grouped_by, keys_except, keys_in_order};
use crate::grouping::{
    actor_key, aggregate_results, group_events_per_actor, is_linked_user, is_summary_of,
    link_orphan_events,
    link_result, logins_spec, orphans_spec, result_key, summarize,
};
use crate::models::event::{
    ActorSummary, Event, EventView, IntentResult, IntentView, events_view, intents_view,
    summaries_view,
};
use crate::parser::events_of_lines;
use crate::parser::auth::auth_line;
use crate::parser::nginx::nginx_line;
use crate::parser::syslog::syslog_line;
use crate::parser::ufw::ufw_line;
use crate::text::lines_of;

verus! {

/// What the analysis of the logs gives.
pub struct Analysis {
    /// The events of all logs: those of `auth.log`, then `syslog`, then
    /// `ufw.log`, then the access log.
    pub events: Vec<Event>,
    /// The events per actor, orphan events linked.
    pub actors: Groups<Event>,
    /// The intents found, actor after actor.
    pub results: Vec<IntentResult>,
    /// One summary per actor with intents.
    pub summaries: Vec<ActorSummary>,
    /// The summaries whose confidence is in doubt.
    pub in_doubt: Vec<ActorSummary>,
}

/// The events of the four logs, one log after the other.
pub open spec fn all_events_spec(auth: Seq<char>, syslog: Seq<char>, ufw: Seq<char>, nginx: Seq<char>) -> Seq<EventView> {
    events_of_lines(lines_of(auth), |l: Seq<char>| auth_line(l)) + events_of_lines(
        lines_of(syslog),
        |l: Seq<char>| syslog_line(l),
    ) + events_of_lines(lines_of(ufw), |l: Seq<char>| ufw_line(l)) + events_of_lines(
        lines_of(nginx),
        |l: Seq<char>| nginx_line(l),
    )
}

/// The intents that the rules find for each actor, actor after actor.
pub open spec fn results_spec(keys: Seq<Seq<char>>, groups: Seq<Seq<EventView>>) -> Seq<IntentView>
    decreases keys.len(),
{
    if keys.len() == 0 || groups.len() == 0 {
        seq![]
    } else {
        results_spec(keys.drop_last(), groups.drop_last()) + analyze_spec(keys.last(), groups.last())
    }
}

/// The intents that the rules find for each actor of `actors`.
pub fn analyze_actors(actors: &Groups<Event>) -> (r: Vec<IntentResult>)
    requires
        actors.wf(),
    ensures
        intents_view(r@) == results_spec(actors.key_seq(), actors.group_seq()),
{
    let ghost ks = actors.key_seq();
    let ghost gs = actors.group_seq();
    let mut r: Vec<IntentResult> = Vec::new();
    let mut p: usize = 0;
    assert(intents_view(r@) =~= results_spec(ks.take(0), gs.take(0)));
    while p < actors.len()
        invariant
            actors.wf(),
            ks == actors.key_seq(),
            gs == actors.group_seq(),
            p <= ks.len(),
            intents_view(r@) == results_spec(ks.take(p as int), gs.take(p as int)),
        decreases ks.len() - p,
    {
        let found = analyze(actors.key_at(p).as_str(), actors.group_at(p));
        assert(ks.take(p + 1).drop_last() =~= ks.take(p as int));
        assert(gs.take(p + 1).drop_last() =~= gs.take(p as int));
        let ghost base = intents_view(r@);
        let ghost fv = intents_view(found@);
        let mut j: usize = 0;
        while j < found.len()
            invariant
                j <= found@.len(),
                fv == intents_view(found@),
                intents_view(r@) == base + fv.take(j as int),
            decreases found@.len() - j,
        {
            let ghost before = r@;
            r.push(found[j].clone());
            assert(intents_view(r@) =~= intents_view(before).push(fv[j as int]));
            assert(intents_view(r@) =~= base + fv.take(j + 1));
            j += 1;
        }
        assert(fv.take(found@.len() as int) =~= fv);
        p += 1;
    }
    assert(ks.take(ks.len() as int) =~= ks);
    assert(gs.take(gs.len() as int) =~= gs);
    r
}

fn append_events(all: &mut Vec<Event>, more: Vec<Event>)
    ensures
        events_view(final(all)@) == events_view(old(all)@) + events_view(more@),
{
    let ghost base = events_view(all@);
    let mut i: usize = 0;
    while i < more.len()
        invariant
            i <= more@.len(),
            events_view(all@) == base + events_view(more@).take(i as int),
        decreases more@.len() - i,
    {
        let ghost before = all@;
        all.push(more[i].clone());
        assert(events_view(all@) =~= events_view(before).push(more@[i as int]@));
        assert(events_view(all@) =~= base + events_view(more@).take(i + 1));
        i += 1;
    }
    assert(events_view(more@).take(more@.len() as int) =~= events_view(more@));
}

/// The analysis of the four logs, given as texts.
pub fn run_analysis(auth: &str, syslog: &str, ufw: &str, nginx: &str) -> (a: Analysis)
    ensures
        events_view(a.events@) == all_events_spec(auth@, syslog@, ufw@, nginx@),
        a.actors.wf(),
        exists|g: Groups<Event>|
            {
                &&& g.wf()
                &&& grouped_by(g.key_seq(), g.group_seq(), events_view(a.events@), |e: EventView| actor_key(e))
                &&& g.key_seq() == keys_in_order(events_view(a.events@), |e: EventView| actor_key(e))
                &&& forall|k: Seq<char>|
                    #![trigger a.actors.group_of(k)]
                    a.actors.group_of(k) == link_result(
                        g.group_of(k),
                        orphans_spec(events_view(a.events@)),
                        logins_spec(g.key_seq(), g.group_seq()),
                        k,
                    )
                &&& a.actors.key_seq() == keys_except(
                    g.key_seq(),
                    |k: Seq<char>|
                        is_linked_user(
                            orphans_spec(events_view(a.events@)),
                            logins_spec(g.key_seq(), g.group_seq()),
                            k,
                        ),
                )
            },
        intents_view(a.results@) == results_spec(a.actors.key_seq(), a.actors.group_seq()),
        exists|g: Groups<IntentResult>|
            {
                &&& g.wf()
                &&& grouped_by(g.key_seq(), g.group_seq(), intents_view(a.results@), |x: IntentView| result_key(x))
                &&& g.key_seq() == keys_in_order(intents_view(a.results@), |x: IntentView| result_key(x))
                &&& a.summaries@.len() == g.key_seq().len()
                &&& forall|p: int|
                    0 <= p < a.summaries@.len() ==> is_summary_of(
                        #[trigger] summaries_view(a.summaries@)[p],
                        g.key_seq()[p],
                        g.group_seq()[p],
                    )
            },
        summaries_view(a.in_doubt@) == in_doubt_spec(summaries_view(a.summaries@)),
{
    let mut events: Vec<Event> = Vec::new();
    append_events(&mut events, crate::parser::auth::parse(auth));
    append_events(&mut events, crate::parser::syslog::parse(syslog));
    append_events(&mut events, crate::parser::ufw::parse(ufw));
    append_events(&mut events, crate::parser::nginx::parse(nginx));
    assert(events_view(events@) =~= all_events_spec(auth@, syslog@, ufw@, nginx@));
    let copy = clone_events(&events);
    let mut actors = group_events_per_actor(copy);
    let ghost g0 = actors;
    link_orphan_events(&mut actors, &events);
    let results = analyze_actors(&actors);
    let grouped = aggregate_results(clone_results(&results));
    let ghost g1 = grouped;
    let summaries = summarize(grouped);
    let in_doubt = filter_low_confidence(&summaries);
    let a = Analysis { events, actors, results, summaries, in_doubt };
    assert(g0.wf());
    assert(g1.wf());
    a
}

fn clone_events(v: &Vec<Event>) -> (r: Vec<Event>)
    ensures
        events_view(r@) == events_view(v@),
{
    let mut r: Vec<Event> = Vec::new();
    let mut i: usize = 0;
    assert(events_view(r@) =~= events_view(v@).take(0));
    while i < v.len()
        invariant
            i <= v@.len(),
            events_view(r@) == events_view(v@).take(i as int),
        decreases v@.len() - i,
    {
        let ghost before = r@;
        r.push(v[i].clone());
        assert(events_view(r@) =~= events_view(before).push(v@[i as int]@));
        assert(events_view(r@) =~= events_view(v@).take(i + 1));
        i += 1;
    }
    assert(events_view(v@).take(v@.len() as int) =~= events_view(v@));
    r
}

fn clone_results(v: &Vec<IntentResult>) -> (r: Vec<IntentResult>)
    ensures
        intents_view(r@) == intents_view(v@),
{
    let mut r: Vec<IntentResult> = Vec::new();
    let mut i: usize = 0;
    assert(intents_view(r@) =~= intents_view(v@).take(0));
    while i < v.len()
        invariant
            i <= v@.len(),
            intents_view(r@) == intents_view(v@).take(i as int),
        decreases v@.len() - i,
    {
        let ghost before = r@;
        r.push(v[i].clone());
        assert(intents_view(r@) =~= intents_view(before).push(v@[i as int]@));
        assert(intents_view(r@) =~= intents_view(v@).take(i + 1));
        i += 1;
    }
    assert(intents_view(v@).take(v@.len() as int) =~= intents_view(v@));
    r
}

} // verus!
