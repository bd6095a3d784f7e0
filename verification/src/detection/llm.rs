//! The question put to a language model about an actor whose confidence is
//! in doubt, the reading of its answer, and the evidence line made of it.

use vstd::prelude::*;
use vstd::string::StringExecFns;
use crate::models::event::{ActorSummary, SummaryView};
use crate::text::{copy_str, join, join_spec};

verus! {

/// The text of the question before the actor.
pub const PROMPT_HEAD: &'static str = "Je bent een cybersecurity analyst. Analyseer de volgende actor en bepaal de aanvalsintentie.\n        \n\nActor: ";

/// The text between the actor and the intents found by the rules.
pub const PROMPT_INTENTS: &'static str = "\nGevonden intents door rules: ";

/// The text between the intents and the evidence.
pub const PROMPT_EVIDENCE: &'static str = "\nEvidence:\n- ";

/// The field of the answer that holds its intents.
pub const ANSWER_INTENTS: &'static str = "intents";

/// The field of the answer that holds its confidence.
pub const ANSWER_CONFIDENCE: &'static str = "total_confidence";

/// The field of the answer that holds its reasoning.
pub const ANSWER_REASONING: &'static str = "reasoning";

/// The text after the evidence, up to the name of the intents field: the
/// start of the form of the answer asked for.
pub const FORMAT_HEAD: &'static str = "\n\nGeef je antwoord in dit exacte JSON formaat, houd reasoning onder 20 woorden.:\n{\n  \"";

/// The form of the intents field, up to the name of the confidence field.
pub const FORMAT_INTENTS: &'static str = "\": [\"reconnaissance\"|\"credential_access\"|\"privilege_escalation\"|\"persistence\"|\"data_exfiltration\"|\"benign\"],\n  \"";

/// The form of the confidence field, up to the name of the reasoning field.
pub const FORMAT_CONFIDENCE: &'static str = "\": 0.0-1.0,\n  \"";

/// The form of the reasoning field, and the end of the question.
pub const FORMAT_TAIL: &'static str = "\": \"korte uitleg\"\n}\n\nGeef ALLEEN het JSON object terug, geen andere tekst.";

/// The form of the answer asked for, with its three fields by name.
pub open spec fn answer_format() -> Seq<char> {
    FORMAT_HEAD@ + ANSWER_INTENTS@ + FORMAT_INTENTS@ + ANSWER_CONFIDENCE@ + FORMAT_CONFIDENCE@
        + ANSWER_REASONING@ + FORMAT_TAIL@
}

/// At most this many lines of evidence go into the question.
pub const PROMPT_EVIDENCE_LINES: usize = 20;

/// The chat model asked where none is configured.
pub const DEFAULT_CHAT_MODEL: &'static str = "gpt-4o-mini";

/// The first `n` entries of `s`, or all of them where there are fewer.
pub open spec fn first_n<A>(s: Seq<A>, n: int) -> Seq<A> {
    if s.len() <= n {
        s
    } else {
        s.take(n)
    }
}

/// The question about the actor of `s`: its actor, its intents separated
/// by `, `, its first 20 lines of evidence, each on a line of its own
/// after `- `, and the form of the answer asked for.
pub open spec fn prompt_spec(s: SummaryView) -> Seq<char> {
    PROMPT_HEAD@ + s.actor + PROMPT_INTENTS@ + join_spec(s.intents, ", "@) + PROMPT_EVIDENCE@
        + join_spec(first_n(s.evidence, PROMPT_EVIDENCE_LINES as int), "\n- "@) + answer_format()
}

/// The question put to a language model about the actor of `summary`.
pub fn llm_prompt(summary: &ActorSummary) -> (r: String)
    ensures
        r@ == prompt_spec(summary@),
{
    let mut first: Vec<String> = Vec::new();
    let mut i: usize = 0;
    let ghost ev = summary.evidence.deep_view();
    while i < summary.evidence.len() && i < PROMPT_EVIDENCE_LINES
        invariant
            i <= summary.evidence@.len(),
            i <= PROMPT_EVIDENCE_LINES,
            ev == summary.evidence.deep_view(),
            first.deep_view() == ev.take(i as int),
        decreases summary.evidence@.len() - i,
    {
        let ghost before = first.deep_view();
        first.push(summary.evidence[i].clone());
        assert(first.deep_view() =~= before.push(ev[i as int]));
        assert(first.deep_view() =~= ev.take(i + 1));
        i += 1;
    }
    assert(first.deep_view() =~= first_n(ev, PROMPT_EVIDENCE_LINES as int));
    let mut r = copy_str(PROMPT_HEAD);
    r.append(summary.actor.as_str());
    r.append(PROMPT_INTENTS);
    let intents = join(&summary.intents, ", ");
    r.append(intents.as_str());
    r.append(PROMPT_EVIDENCE);
    let evidence = join(&first, "\n- ");
    r.append(evidence.as_str());
    r.append(FORMAT_HEAD);
    r.append(ANSWER_INTENTS);
    r.append(FORMAT_INTENTS);
    r.append(ANSWER_CONFIDENCE);
    r.append(FORMAT_CONFIDENCE);
    r.append(ANSWER_REASONING);
    r.append(FORMAT_TAIL);
    r
}

/// What `serde_json` reads from the field `key` of the JSON text
/// `content`: the items of that field, each with its text where it is a
/// string, where `content` is JSON and the field is an array; else `None`.
pub uninterp spec fn json_array_texts(content: Seq<char>, key: Seq<char>) -> Option<Seq<Option<Seq<char>>>>;

/// Whether `content` is JSON whose field `key` is a number, as `serde_json`
/// reads it.
pub uninterp spec fn json_is_number(content: Seq<char>, key: Seq<char>) -> bool;

/// The text of the field `key` of the JSON text `content`, as `serde_json`
/// reads it, where `content` is JSON and that field is a string.
pub uninterp spec fn json_text(content: Seq<char>, key: Seq<char>) -> Option<Seq<char>>;

/// `serde_json::from_str` reads `content` as a `serde_json::Value`;
/// indexing it by `key` (null where the field is missing or `content` is no
/// object) and `as_array` give the field's items, each read by `as_str`.
/// Claimed: the result is `json_array_texts` of the two arguments.
#[verifier::external_body]
fn field_array_texts(content: &str, key: &str) -> (r: Option<Vec<Option<String>>>)
    ensures
        r.deep_view() == json_array_texts(content@, key@),
{
    let v: serde_json::Value = serde_json::from_str(content).ok()?;
    let items = v[key].as_array()?;
    Some(items.iter().map(|x| x.as_str().map(|t| t.to_string())).collect())
}

/// `serde_json::from_str` reads `content`, and `as_f64` reads its field
/// `key`; without the crate's `arbitrary_precision` feature every number
/// has an `f64` reading, so this tells whether the field is a number.
/// Claimed: the result is `json_is_number` of the two arguments.
#[verifier::external_body]
fn field_is_number(content: &str, key: &str) -> (r: bool)
    ensures
        r == json_is_number(content@, key@),
{
    match serde_json::from_str::<serde_json::Value>(content) {
        Ok(v) => v[key].as_f64().is_some(),
        Err(_) => false,
    }
}

/// `serde_json::from_str` reads `content`, and `as_str` reads its field
/// `key`. Claimed: the result is `json_text` of the two arguments.
#[verifier::external_body]
fn field_text(content: &str, key: &str) -> (r: Option<String>)
    ensures
        r.deep_view() == json_text(content@, key@),
{
    let v: serde_json::Value = serde_json::from_str(content).ok()?;
    v[key].as_str().map(|t| t.to_string())
}

/// The texts among `items`, in order; items that are no string are left out.
pub open spec fn string_items(items: Seq<Option<Seq<char>>>) -> Seq<Seq<char>>
    decreases items.len(),
{
    if items.len() == 0 {
        seq![]
    } else {
        match items.last() {
            Some(t) => string_items(items.drop_last()).push(t),
            None => string_items(items.drop_last()),
        }
    }
}

/// What the answer `content` gives: its intents (the strings among the
/// items of its field `intents`, in order) and its reasoning (its field
/// `reasoning`), where `intents` is an array, `total_confidence` a number
/// and `reasoning` a string; else nothing.
pub open spec fn llm_answer_spec(content: Seq<char>) -> Option<(Seq<Seq<char>>, Seq<char>)> {
    match (json_array_texts(content, ANSWER_INTENTS@), json_text(content, ANSWER_REASONING@)) {
        (Some(items), Some(reasoning)) => if json_is_number(content, ANSWER_CONFIDENCE@) {
            Some((string_items(items), reasoning))
        } else {
            None
        },
        _ => None,
    }
}

/// The intents and the reasoning of the model's answer `content`: the
/// string items of its array `intents`, in order, and its text
/// `reasoning`; `None` unless `intents` is an array, `total_confidence` a
/// number and `reasoning` a string.
pub fn read_llm_answer(content: &str) -> (r: Option<(Vec<String>, String)>)
    ensures
        r.deep_view() == llm_answer_spec(content@),
{
    let items = match field_array_texts(content, ANSWER_INTENTS) {
        Some(items) => items,
        None => return None,
    };
    let reasoning = match field_text(content, ANSWER_REASONING) {
        Some(r) => r,
        None => return None,
    };
    if !field_is_number(content, ANSWER_CONFIDENCE) {
        return None;
    }
    let ghost iv = items.deep_view();
    let mut intents: Vec<String> = Vec::new();
    let mut i: usize = 0;
    while i < items.len()
        invariant
            i <= items@.len(),
            iv == items.deep_view(),
            intents.deep_view() == string_items(iv.take(i as int)),
        decreases items@.len() - i,
    {
        assert(iv.take(i + 1).drop_last() =~= iv.take(i as int));
        assert(iv[i as int] == items@[i as int].deep_view());
        match &items[i] {
            Some(t) => {
                let ghost before = intents.deep_view();
                intents.push(t.clone());
                assert(intents.deep_view() =~= before.push(t@));
            },
            None => {},
        }
        i += 1;
    }
    assert(iv.take(items@.len() as int) =~= iv);
    Some((intents, reasoning))
}

/// The text that starts the evidence line made of the model's reasoning.
pub const LLM_EVIDENCE_PREFIX: &'static str = "LLM analyse: ";

/// The evidence line made of the reasoning that the model gave.
pub fn llm_evidence(reasoning: &str) -> (r: String)
    ensures
        r@ == LLM_EVIDENCE_PREFIX@ + reasoning@,
{
    let mut r = copy_str(LLM_EVIDENCE_PREFIX);
    r.append(reasoning);
    r
}

/// The chat model to ask: the configured one, or else the default one.
pub fn chat_model(configured: Option<String>) -> (r: String)
    ensures
        r@ == (match configured {
            Some(m) => m@,
            None => DEFAULT_CHAT_MODEL@,
        }),
{
    match configured {
        Some(m) => m,
        None => copy_str(DEFAULT_CHAT_MODEL),
    }
}

} // verus!
