//! The vector store of actors: its collection, the text that is embedded
//! for an actor, and the identity of the actor's point.

use vstd::prelude::*;
use vstd::string::StringExecFns;
use crate::models::event::{ActorSummary, SummaryView};
use crate::text::{copy_str, join, join_spec};
use uuid::Uuid;

verus! {

/// The collection that holds the actors.
pub const COLLECTION_NAME: &'static str = "actors";

/// The length of the vectors in the collection.
pub const VECTOR_SIZE: u64 = 1536;

/// The embedding model used where none is configured.
pub const DEFAULT_EMBED_MODEL: &'static str = "text-embedding-3-small";

/// Whether `name` is among the names of the collections that exist.
pub fn collection_exists(names: &Vec<String>, name: &str) -> (r: bool)
    ensures
        r == names.deep_view().contains(name@),
{
    let ghost nv = names.deep_view();
    let mut i: usize = 0;
    while i < names.len()
        invariant
            i <= names@.len(),
            nv == names.deep_view(),
            forall|j: int| 0 <= j < i ==> nv[j] != name@,
        decreases names@.len() - i,
    {
        if crate::text::str_eq(names[i].as_str(), name) {
            assert(nv[i as int] == name@);
            return true;
        }
        i += 1;
    }
    false
}

/// The text embedded for the actor of `s`: the actor, its intents and its
/// evidence, separated by single spaces.
pub open spec fn vector_text_spec(s: SummaryView) -> Seq<char> {
    s.actor + " "@ + join_spec(s.intents, " "@) + " "@ + join_spec(s.evidence, " "@)
}

/// The text embedded for the actor of `summary`.
pub fn actor_vector_text(summary: &ActorSummary) -> (r: String)
    ensures
        r@ == vector_text_spec(summary@),
{
    let mut r = copy_str(summary.actor.as_str());
    r.append(" ");
    let intents = join(&summary.intents, " ");
    r.append(intents.as_str());
    r.append(" ");
    let evidence = join(&summary.evidence, " ");
    r.append(evidence.as_str());
    r
}

/// The text of the name-based (version 5) UUID that the `uuid` crate
/// derives for the UTF-8 bytes of `name` in the DNS namespace.
pub uninterp spec fn uuid_v5_dns(name: Seq<char>) -> Seq<char>;

/// `Uuid::new_v5(&Uuid::NAMESPACE_DNS, name.as_bytes())` of the `uuid`
/// crate, written out by `to_string`. Claimed: the text is `uuid_v5_dns`
/// of `name`.
#[verifier::external_body]
fn uuid_v5_dns_text(name: &str) -> (r: String)
    ensures
        r@ == uuid_v5_dns(name@),
{
    Uuid::new_v5(&Uuid::NAMESPACE_DNS, name.as_bytes()).to_string()
}

/// The identity of the point of `actor` in the collection: the same actor
/// always gets the same point.
pub fn actor_point_id(actor: &str) -> (r: String)
    ensures
        r@ == uuid_v5_dns(actor@),
{
    uuid_v5_dns_text(actor)
}

/// The embedding model to use: the configured one, or else the default one.
pub fn embed_model(configured: Option<String>) -> (r: String)
    ensures
        r@ == (match configured {
            Some(m) => m@,
            None => DEFAULT_EMBED_MODEL@,
        }),
{
    match configured {
        Some(m) => m,
        None => copy_str(DEFAULT_EMBED_MODEL),
    }
}

} // verus!
