use intentiq::models::event::ActorSummary;
use intentiq::storage::qdrant::{actor_point_id, actor_vector_text, collection_exists, embed_model};

#[test]
fn vector_text_joins_with_spaces() {
    let s = ActorSummary {
        actor: "1.2.3.4".to_string(),
        intents: vec!["a".to_string(), "b".to_string()],
        confidence_sum: 0,
        result_count: 0,
        evidence: vec!["x y".to_string(), "z".to_string()],
    };
    assert_eq!(actor_vector_text(&s), "1.2.3.4 a b x y z");
}

#[test]
fn point_id_is_uuid_v5_of_actor() {
    assert_eq!(actor_point_id("185.220.101.12"), "1d9d5f8d-f97d-5b88-8564-c4c11c2bfe30");
    assert_eq!(actor_point_id("185.220.101.12"), actor_point_id("185.220.101.12"));
    assert_ne!(actor_point_id("a"), "a");
}

#[test]
fn collection_lookup_and_models() {
    let names = vec!["other".to_string(), "actors".to_string()];
    assert!(collection_exists(&names, "actors"));
    assert!(!collection_exists(&names, "act"));
    assert_eq!(embed_model(None), "text-embedding-3-small");
    assert_eq!(embed_model(Some("m".to_string())), "m");
}
