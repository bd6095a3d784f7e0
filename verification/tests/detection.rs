use intentiq::detection::filter_low_confidence;
use intentiq::detection::llm::{chat_model, llm_evidence, llm_prompt, read_llm_answer};
use intentiq::detection::rules::analyze;
use intentiq::grouping::{aggregate_results, summarize};
use intentiq::models::event::{ActorSummary, Event, IntentResult};

fn ev(ty: &str, msg: &str) -> Event {
    Event {
        timestamp: "May  6 09:00:00".to_string(),
        source: "test".to_string(),
        user: None,
        ip: Some("9.9.9.9".to_string()),
        event_type: ty.to_string(),
        command: None,
        message: msg.to_string(),
        size: None,
    }
}

fn sudo(cmd: &str, msg: &str) -> Event {
    let mut e = ev("sudo_command", msg);
    e.command = Some(cmd.to_string());
    e
}

fn http(ty: &str, size: i64, msg: &str) -> Event {
    let mut e = ev(ty, msg);
    e.size = Some(size);
    e
}

fn intents(rs: &Vec<IntentResult>) -> Vec<(String, u32)> {
    rs.iter().map(|r| (r.intent.clone(), r.confidence)).collect()
}

fn failed(n: usize) -> Vec<Event> {
    (0..n).map(|i| ev("ssh_login_failed", &format!("fail {}", i))).collect()
}

#[test]
fn reconnaissance_from_five_failed_logins() {
    assert!(analyze("a", &failed(4)).is_empty());
    let r = analyze("a", &failed(5));
    assert_eq!(intents(&r), vec![("reconnaissance".to_string(), 75)]);
    assert_eq!(r[0].actor, "a");
    assert_eq!(r[0].evidence.len(), 5);
}

#[test]
fn credential_access_after_failures_and_success() {
    let mut evs = failed(4);
    evs.push(ev("ssh_login_success", "ok 1"));
    evs.push(ev("ssh_login_success", "ok 2"));
    let r = analyze("a", &evs);
    assert_eq!(intents(&r), vec![("credential_access".to_string(), 85)]);
    assert_eq!(r[0].evidence, vec!["fail 0", "fail 1", "fail 2", "fail 3", "ok 2"]);
    let mut three = failed(3);
    three.push(ev("ssh_login_success", "ok"));
    assert!(analyze("a", &three).is_empty());
}

#[test]
fn credential_access_needs_failures_before_the_login() {
    let mut evs = vec![ev("ssh_login_success", "ok")];
    evs.extend(failed(4));
    assert!(analyze("a", &evs).is_empty());
    let mut mixed = failed(2);
    mixed.push(ev("ssh_login_success", "ok 1"));
    mixed.extend(failed(2));
    mixed.push(ev("ssh_login_success", "ok 2"));
    let r = analyze("a", &mixed);
    assert_eq!(intents(&r), vec![("credential_access".to_string(), 85)]);
    assert_eq!(r[0].evidence, vec!["fail 0", "fail 1", "fail 0", "fail 1", "ok 2"]);
    let mut late = failed(4);
    late.push(ev("ssh_login_success", "ok"));
    late.extend(failed(1));
    let r = analyze("a", &late);
    assert_eq!(intents(&r), vec![("reconnaissance".to_string(), 75), ("credential_access".to_string(), 85)]);
    assert_eq!(r[1].evidence, vec!["fail 0", "fail 1", "fail 2", "fail 3", "fail 0", "ok"]);
}

#[test]
fn escalation_and_persistence() {
    let evs = vec![
        ev("ssh_login_success", "login"),
        sudo("/usr/bin/wget http://x/p.sh", "s1"),
        sudo("/usr/bin/ls", "harmless"),
        ev("suspicious_binary", "b1"),
    ];
    let r = analyze("a", &evs);
    assert_eq!(intents(&r), vec![("privilege_escalation + persistence".to_string(), 90)]);
    assert_eq!(r[0].evidence, vec!["s1", "b1"]);
}

#[test]
fn escalation_after_session_or_login() {
    let r = analyze("a", &vec![ev("session_started", "s"), sudo("/tmp/x", "s1")]);
    assert_eq!(intents(&r), vec![("privilege_escalation".to_string(), 70)]);
    let r = analyze("a", &vec![ev("ssh_login_success", "l"), sudo("/bin/bash", "s1")]);
    assert_eq!(intents(&r), vec![("privilege_escalation".to_string(), 70)]);
    assert!(analyze("a", &vec![sudo("/bin/bash", "s1")]).is_empty());
}

#[test]
fn persistence_from_binary_alone() {
    let r = analyze("a", &vec![sudo("/bin/bash", "s1"), ev("suspicious_binary", "b")]);
    assert_eq!(intents(&r), vec![("persistence".to_string(), 50)]);
    assert_eq!(r[0].evidence, vec!["b"]);
}

#[test]
fn reconnaissance_from_firewall_blocks() {
    let evs: Vec<Event> = (0..5).map(|i| ev("firewall_block", &format!("b{}", i))).collect();
    assert_eq!(intents(&analyze("a", &evs)), vec![("reconnaissance".to_string(), 80)]);
    assert!(analyze("a", &evs[..4].to_vec()).is_empty());
}

#[test]
fn exfiltration_from_large_answers() {
    let evs = vec![
        http("http_success", 49999, "small"),
        http("http_success", 50000, "big"),
        http("http_not_found", 98304, "big 404"),
    ];
    let r = analyze("a", &evs);
    assert_eq!(intents(&r), vec![("data_exfiltration".to_string(), 88)]);
    assert_eq!(r[0].evidence, vec!["big"]);
    assert!(analyze("a", &vec![ev("http_success", "no size")]).is_empty());
    assert!(analyze("a", &vec![http("http_not_found", 60000, "big 404")]).is_empty());
}

#[test]
fn readme_example_actor() {
    let mut evs = failed(5);
    evs.push(ev("ssh_login_success", "login"));
    evs.push(sudo("/bin/bash", "sudo bash"));
    evs.push(ev("suspicious_binary", "bin"));
    evs.push(http("http_success", 98304, "export"));
    let r = analyze("185.220.101.12", &evs);
    assert_eq!(
        intents(&r),
        vec![
            ("reconnaissance".to_string(), 75),
            ("credential_access".to_string(), 85),
            ("privilege_escalation + persistence".to_string(), 90),
            ("data_exfiltration".to_string(), 88),
        ]
    );
    let s = summarize(aggregate_results(r));
    assert_eq!(s.len(), 1);
    assert_eq!(
        s[0].intents,
        vec!["credential_access", "data_exfiltration", "privilege_escalation + persistence", "reconnaissance"]
    );
    assert_eq!(s[0].confidence_sum, 338);
    assert_eq!(s[0].result_count, 4);
    assert_eq!(s[0].confidence_sum as f64 / s[0].result_count as f64, 84.5);
}

fn summary(actor: &str, sum: u128, count: usize) -> ActorSummary {
    ActorSummary { actor: actor.to_string(), intents: vec![], confidence_sum: sum, result_count: count, evidence: vec![] }
}

#[test]
fn doubtful_confidence_band() {
    let all = vec![
        summary("half", 50, 1),
        summary("high", 90, 1),
        summary("edge low", 30, 1),
        summary("edge high", 140, 2),
        summary("mixed", 125, 2),
        summary("none", 0, 0),
        summary("just above", 31, 1),
    ];
    let picked: Vec<String> = filter_low_confidence(&all).iter().map(|s| s.actor.clone()).collect();
    assert_eq!(picked, vec!["half", "mixed", "just above"]);
}

#[test]
fn prompt_text() {
    let s = ActorSummary {
        actor: "10.0.0.5".to_string(),
        intents: vec!["persistence".to_string(), "reconnaissance".to_string()],
        confidence_sum: 50,
        result_count: 1,
        evidence: (0..25).map(|i| format!("line {}", i)).collect(),
    };
    let evidence = s.evidence.iter().take(20).cloned().collect::<Vec<_>>().join("\n- ");
    let expected = format!(
        "Je bent een cybersecurity analyst. Analyseer de volgende actor en bepaal de aanvalsintentie.
        

Actor: {}
Gevonden intents door rules: {}
Evidence:
- {}

Geef je antwoord in dit exacte JSON formaat, houd reasoning onder 20 woorden.:
{{
  \"intents\": [\"reconnaissance\"|\"credential_access\"|\"privilege_escalation\"|\"persistence\"|\"data_exfiltration\"|\"benign\"],
  \"total_confidence\": 0.0-1.0,
  \"reasoning\": \"korte uitleg\"
}}

Geef ALLEEN het JSON object terug, geen andere tekst.",
        s.actor,
        s.intents.join(", "),
        evidence
    );
    assert_eq!(llm_prompt(&s), expected);
    assert_eq!(llm_evidence("mogelijk legitiem"), "LLM analyse: mogelijk legitiem");
    assert_eq!(chat_model(None), "gpt-4o-mini");
    assert_eq!(chat_model(Some("other".to_string())), "other");
}

#[test]
fn reading_the_model_answer() {
    let ok = r#"{"intents": ["persistence", 3, "benign"], "total_confidence": 0.5, "reasoning": "binary in /tmp"}"#;
    assert_eq!(
        read_llm_answer(ok),
        Some((vec!["persistence".to_string(), "benign".to_string()], "binary in /tmp".to_string()))
    );
    let whole = r#"{"intents": [], "total_confidence": 1, "reasoning": ""}"#;
    assert_eq!(read_llm_answer(whole), Some((vec![], "".to_string())));
    assert_eq!(read_llm_answer("not json"), None);
    assert_eq!(read_llm_answer(r#"{"intents": "x", "total_confidence": 0.5, "reasoning": "r"}"#), None);
    assert_eq!(read_llm_answer(r#"{"intents": [], "total_confidence": "high", "reasoning": "r"}"#), None);
    assert_eq!(read_llm_answer(r#"{"intents": [], "total_confidence": 0.5}"#), None);
}
