use intentiq::grouping::{
    aggregate_results, closest_in_window, collect_orphan_events, collect_successful_logins,
    find_matching_actor, group_events_per_actor, link_orphan_events, summarize, track_linked_user,
};
use intentiq::models::event::{Event, IntentResult};
use intentiq::utils::{parse_timestamp, LogTime};

fn ev(ts: &str, user: Option<&str>, ip: Option<&str>, ty: &str, msg: &str) -> Event {
    Event {
        timestamp: ts.to_string(),
        source: "test".to_string(),
        user: user.map(|u| u.to_string()),
        ip: ip.map(|i| i.to_string()),
        event_type: ty.to_string(),
        command: None,
        message: msg.to_string(),
        size: None,
    }
}

fn res(actor: &str, intent: &str, conf: u32, evidence: &[&str]) -> IntentResult {
    IntentResult {
        actor: actor.to_string(),
        intent: intent.to_string(),
        confidence: conf,
        evidence: evidence.iter().map(|e| e.to_string()).collect(),
    }
}

fn messages(v: &Vec<Event>) -> Vec<String> {
    v.iter().map(|e| e.message.clone()).collect()
}

#[test]
fn groups_by_address_then_user() {
    let events = vec![
        ev("t", Some("john"), Some("1.1.1.1"), "ssh_login_success", "e1"),
        ev("t", Some("root"), None, "sudo_command", "e2"),
        ev("t", None, None, "suspicious_binary", "e3"),
        ev("t", None, Some("1.1.1.1"), "http_success", "e4"),
    ];
    let g = group_events_per_actor(events);
    assert_eq!(g.keys, vec!["1.1.1.1".to_string(), "root".to_string()]);
    assert_eq!(messages(&g.values[0]), vec!["e1", "e4"]);
    assert_eq!(messages(&g.values[1]), vec!["e2"]);
}

#[test]
fn aggregates_results_per_actor() {
    let g = aggregate_results(vec![
        res("a", "x", 75, &[]),
        res("b", "y", 50, &[]),
        res("a", "z", 88, &[]),
    ]);
    assert_eq!(g.keys, vec!["a".to_string(), "b".to_string()]);
    assert_eq!(g.values[0].len(), 2);
    assert_eq!(g.values[0][1].intent, "z");
    assert_eq!(g.values[1][0].intent, "y");
}

#[test]
fn summary_sorts_and_dedups_and_averages() {
    let g = aggregate_results(vec![
        res("a", "reconnaissance", 75, &["m2", "m1"]),
        res("a", "credential_access", 85, &["m1", "m3"]),
        res("a", "reconnaissance", 80, &["m0"]),
    ]);
    let s = summarize(g);
    assert_eq!(s.len(), 1);
    assert_eq!(s[0].actor, "a");
    assert_eq!(s[0].intents, vec!["credential_access".to_string(), "reconnaissance".to_string()]);
    assert_eq!(s[0].evidence, vec!["m0", "m1", "m2", "m3"]);
    assert_eq!(s[0].confidence_sum, 240);
    assert_eq!(s[0].result_count, 3);
}

#[test]
fn summary_orders_as_string_ord() {
    let g = aggregate_results(vec![res("a", "b", 1, &["Zeta", "alpha", "é", "ab", "a", "Zeta"])]);
    let s = summarize(g);
    let mut expected: Vec<String> = vec!["Zeta", "alpha", "é", "ab", "a"].iter().map(|x| x.to_string()).collect();
    expected.sort();
    expected.dedup();
    assert_eq!(s[0].evidence, expected);
}

#[test]
fn closest_login_in_window() {
    assert_eq!(closest_in_window(&vec![Some(150), Some(50), Some(-5), Some(301), None]), Some(1));
    assert_eq!(closest_in_window(&vec![Some(10), Some(10)]), Some(0));
    assert_eq!(closest_in_window(&vec![Some(0), Some(300)]), Some(0));
    assert_eq!(closest_in_window(&vec![Some(-1), Some(301), None]), None);
    assert_eq!(closest_in_window(&vec![]), None);
}

fn t(ts: &str) -> LogTime {
    parse_timestamp(ts).unwrap()
}

#[test]
fn matching_actor_is_closest_login_before_event() {
    let logins = vec![
        ("A".to_string(), t("May  6 09:10:00")),
        ("B".to_string(), t("May  6 09:12:00")),
        ("C".to_string(), t("May  6 09:20:00")),
    ];
    let e = ev("May  6 09:14:30", None, None, "suspicious_binary", "x");
    assert_eq!(find_matching_actor(&e, &logins), Some("B".to_string()));
    let late = ev("May  6 09:17:01", None, None, "suspicious_binary", "x");
    assert_eq!(find_matching_actor(&late, &logins), None);
    let edge = ev("May  6 09:17:00", None, None, "suspicious_binary", "x");
    assert_eq!(find_matching_actor(&edge, &logins), Some("B".to_string()));
    let unreadable = ev("yesterday", None, None, "suspicious_binary", "x");
    assert_eq!(find_matching_actor(&unreadable, &logins), None);
}

#[test]
fn equal_logins_take_the_first() {
    let logins = vec![
        ("A".to_string(), t("May  6 09:10:00")),
        ("B".to_string(), t("May  6 09:10:00")),
    ];
    let e = ev("May  6 09:11:00", None, None, "suspicious_binary", "x");
    assert_eq!(find_matching_actor(&e, &logins), Some("A".to_string()));
}

#[test]
fn orphans_and_logins() {
    let all = vec![
        ev("May  6 09:12:01", Some("john"), Some("1.2.3.4"), "ssh_login_success", "login"),
        ev("May  6 09:13:00", Some("root"), None, "sudo_command", "sudo"),
        ev("May  6 09:13:30", Some("root"), None, "session_started", "session"),
        ev("May  6 09:14:00", None, None, "suspicious_binary", "bin"),
        ev("garbage", Some("john"), Some("5.5.5.5"), "ssh_login_success", "bad login"),
    ];
    assert_eq!(messages(&collect_orphan_events(&all)), vec!["sudo", "bin"]);
    let g = group_events_per_actor(all.clone());
    let logins = collect_successful_logins(&g);
    assert_eq!(logins.len(), 1);
    assert_eq!(logins[0].0, "1.2.3.4");
    assert_eq!(logins[0].1.secs, 1778058721);
}

#[test]
fn orphan_events_follow_the_login() {
    let all = vec![
        ev("May  6 09:12:01", Some("john"), Some("1.2.3.4"), "ssh_login_success", "login"),
        ev("May  6 09:13:00", Some("root"), None, "sudo_command", "sudo"),
        ev("May  6 09:13:30", Some("root"), None, "session_started", "session"),
        ev("May  6 09:14:00", None, None, "suspicious_binary", "bin"),
        ev("May  6 10:00:00", None, None, "suspicious_binary", "late bin"),
        ev("May  6 09:14:00", Some("eve"), None, "session_started", "eve session"),
    ];
    let mut g = group_events_per_actor(all.clone());
    link_orphan_events(&mut g, &all);
    assert_eq!(g.keys, vec!["1.2.3.4".to_string(), "eve".to_string()]);
    assert_eq!(messages(&g.values[0]), vec!["login", "sudo", "bin"]);
    assert_eq!(messages(&g.values[1]), vec!["eve session"]);
}

#[test]
fn linked_users_are_tracked_once() {
    let mut linked: Vec<String> = Vec::new();
    track_linked_user(&ev("t", Some("root"), None, "sudo_command", "m"), &mut linked);
    track_linked_user(&ev("t", Some("root"), None, "sudo_command", "m"), &mut linked);
    track_linked_user(&ev("t", None, None, "suspicious_binary", "m"), &mut linked);
    track_linked_user(&ev("t", Some("bob"), None, "sudo_command", "m"), &mut linked);
    assert_eq!(linked, vec!["root".to_string(), "bob".to_string()]);
}
