//! Events read from the logs, intent results found by the rules, and
//! summaries per actor.
//!
//! Confidences are whole hundredths: `75` stands for a confidence of 0.75.

use vstd::prelude::*;

verus! {

/// One event read from a log line.
pub struct Event {
    pub timestamp: String,
    pub source: String,
    pub user: Option<String>,
    pub ip: Option<String>,
    pub event_type: String,
    pub command: Option<String>,
    pub message: String,
    pub size: Option<i64>,
}

/// The mathematical value of an [`Event`].
pub struct EventView {
    pub timestamp: Seq<char>,
    pub source: Seq<char>,
    pub user: Option<Seq<char>>,
    pub ip: Option<Seq<char>>,
    pub event_type: Seq<char>,
    pub command: Option<Seq<char>>,
    pub message: Seq<char>,
    pub size: Option<i64>,
}

/// The view of an optional string.
pub open spec fn opt_view(o: Option<String>) -> Option<Seq<char>> {
    match o {
        Some(s) => Some(s@),
        None => None,
    }
}

impl View for Event {
    type V = EventView;

    open spec fn view(&self) -> EventView {
        EventView {
            timestamp: self.timestamp@,
            source: self.source@,
            user: opt_view(self.user),
            ip: opt_view(self.ip),
            event_type: self.event_type@,
            command: opt_view(self.command),
            message: self.message@,
            size: self.size,
        }
    }
}

/// A copy of an optional string.
pub fn clone_opt_string(o: &Option<String>) -> (r: Option<String>)
    ensures
        opt_view(r) == opt_view(*o),
{
    match o {
        Some(s) => Some(s.clone()),
        None => None,
    }
}

impl Clone for Event {
    fn clone(&self) -> (r: Self)
        ensures
            r@ == self@,
    {
        Event {
            timestamp: self.timestamp.clone(),
            source: self.source.clone(),
            user: clone_opt_string(&self.user),
            ip: clone_opt_string(&self.ip),
            event_type: self.event_type.clone(),
            command: clone_opt_string(&self.command),
            message: self.message.clone(),
            size: self.size,
        }
    }
}

/// The views of a sequence of events.
pub open spec fn events_view(evs: Seq<Event>) -> Seq<EventView> {
    evs.map_values(|e: Event| e@)
}

/// An intent that the rules found for an actor, with its confidence in
/// hundredths and the log lines that show it.
pub struct IntentResult {
    pub actor: String,
    pub intent: String,
    pub confidence: u32,
    pub evidence: Vec<String>,
}

/// The mathematical value of an [`IntentResult`].
pub struct IntentView {
    pub actor: Seq<char>,
    pub intent: Seq<char>,
    pub confidence: u32,
    pub evidence: Seq<Seq<char>>,
}

impl View for IntentResult {
    type V = IntentView;

    open spec fn view(&self) -> IntentView {
        IntentView {
            actor: self.actor@,
            intent: self.intent@,
            confidence: self.confidence,
            evidence: self.evidence.deep_view(),
        }
    }
}

/// A copy of a vector of strings.
pub fn clone_strings(v: &Vec<String>) -> (r: Vec<String>)
    ensures
        r.deep_view() == v.deep_view(),
{
    let mut r: Vec<String> = Vec::new();
    let mut i: usize = 0;
    while i < v.len()
        invariant
            i <= v@.len(),
            r.deep_view() == v.deep_view().take(i as int),
        decreases v@.len() - i,
    {
        let ghost old_r = r.deep_view();
        let c = v[i].clone();
        r.push(c);
        assert(r.deep_view() =~= old_r.push(v@[i as int]@));
        assert(r.deep_view() =~= v.deep_view().take(i + 1));
        i += 1;
    }
    assert(v.deep_view().take(v@.len() as int) =~= v.deep_view());
    r
}

impl Clone for IntentResult {
    fn clone(&self) -> (r: Self)
        ensures
            r@ == self@,
    {
        IntentResult {
            actor: self.actor.clone(),
            intent: self.intent.clone(),
            confidence: self.confidence,
            evidence: clone_strings(&self.evidence),
        }
    }
}

/// The views of a sequence of intent results.
pub open spec fn intents_view(rs: Seq<IntentResult>) -> Seq<IntentView> {
    rs.map_values(|r: IntentResult| r@)
}

/// All intents and evidence found for one actor. The confidence of the
/// actor is the average `confidence_sum / result_count` of the confidences
/// (in hundredths) of its results.
pub struct ActorSummary {
    pub actor: String,
    pub intents: Vec<String>,
    pub confidence_sum: u128,
    pub result_count: usize,
    pub evidence: Vec<String>,
}

/// The mathematical value of an [`ActorSummary`].
pub struct SummaryView {
    pub actor: Seq<char>,
    pub intents: Seq<Seq<char>>,
    pub confidence_sum: u128,
    pub result_count: usize,
    pub evidence: Seq<Seq<char>>,
}

impl View for ActorSummary {
    type V = SummaryView;

    open spec fn view(&self) -> SummaryView {
        SummaryView {
            actor: self.actor@,
            intents: self.intents.deep_view(),
            confidence_sum: self.confidence_sum,
            result_count: self.result_count,
            evidence: self.evidence.deep_view(),
        }
    }
}

impl Clone for ActorSummary {
    fn clone(&self) -> (r: Self)
        ensures
            r@ == self@,
    {
        ActorSummary {
            actor: self.actor.clone(),
            intents: clone_strings(&self.intents),
            confidence_sum: self.confidence_sum,
            result_count: self.result_count,
            evidence: clone_strings(&self.evidence),
        }
    }
}

/// The views of a sequence of summaries.
pub open spec fn summaries_view(ss: Seq<ActorSummary>) -> Seq<SummaryView> {
    ss.map_values(|s: ActorSummary| s@)
}

} // verus!
