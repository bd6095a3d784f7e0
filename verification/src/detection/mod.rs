//! Detection of the intent behind the events of an actor: rules over the
//! events, selection of the actors whose confidence is in doubt, and the
//! question put to a language model about them.

pub mod llm;
pub mod rules;
pub mod table;

use vstd::prelude::*;
use crate::models::event::{ActorSummary, SummaryView, summaries_view};

verus! {

/// The lower end, in hundredths, of the confidences that are in doubt.
pub const DOUBT_LOW: u128 = 30;

/// The upper end, in hundredths, of the confidences that are in doubt.
pub const DOUBT_HIGH: u128 = 70;

/// The average confidence of `s` lies strictly between 0.30 and 0.70.
pub open spec fn in_doubt(s: SummaryView) -> bool {
    DOUBT_LOW * s.result_count < s.confidence_sum && s.confidence_sum < DOUBT_HIGH * s.result_count
}

/// The summaries of `ss` whose confidence is in doubt, in order.
pub open spec fn in_doubt_spec(ss: Seq<SummaryView>) -> Seq<SummaryView>
    decreases ss.len(),
{
    if ss.len() == 0 {
        seq![]
    } else {
        let rest = in_doubt_spec(ss.drop_last());
        if in_doubt(ss.last()) {
            rest.push(ss.last())
        } else {
            rest
        }
    }
}

/// The summaries whose average confidence lies strictly between 0.30 and
/// 0.70, in order: those that a language model is asked about.
pub fn filter_low_confidence(summaries: &Vec<ActorSummary>) -> (r: Vec<ActorSummary>)
    ensures
        summaries_view(r@) == in_doubt_spec(summaries_view(summaries@)),
{
    let ghost sv = summaries_view(summaries@);
    let mut r: Vec<ActorSummary> = Vec::new();
    let mut i: usize = 0;
    assert(summaries_view(r@) =~= in_doubt_spec(sv.take(0)));
    while i < summaries.len()
        invariant
            i <= summaries@.len(),
            sv == summaries_view(summaries@),
            summaries_view(r@) == in_doubt_spec(sv.take(i as int)),
        decreases summaries@.len() - i,
    {
        let s = &summaries[i];
        assert(sv.take(i + 1).drop_last() =~= sv.take(i as int));
        assert(sv.take(i + 1).last() == s@);
        let count = s.result_count as u128;
        if DOUBT_LOW * count < s.confidence_sum && s.confidence_sum < DOUBT_HIGH * count {
            let ghost before = r@;
            r.push(s.clone());
            assert(summaries_view(r@) =~= summaries_view(before).push(s@));
        }
        i += 1;
    }
    assert(sv.take(summaries@.len() as int) =~= sv);
    r
}

} // verus!
