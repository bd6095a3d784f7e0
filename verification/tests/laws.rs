use intentiq::detection::filter_low_confidence;
use intentiq::detection::rules::analyze;
use intentiq::models::event::{ActorSummary, Event};
use intentiq::parser::{auth, nginx, syslog, ufw};
use intentiq::pipeline::run_analysis;
use intentiq::text::split_lines;

fn ev(ty: &str, msg: &str, cmd: Option<&str>, size: Option<i64>) -> Event {
    Event {
        timestamp: "May  6 09:00:00".to_string(),
        source: "test".to_string(),
        user: None,
        ip: Some("1.1.1.1".to_string()),
        event_type: ty.to_string(),
        command: cmd.map(|c| c.to_string()),
        message: msg.to_string(),
        size,
    }
}

#[test]
fn rule_results_belong_to_actor_and_are_bounded() {
    let mut evs: Vec<Event> = (0..12).map(|i| ev("ssh_login_failed", &format!("f{}", i), None, None)).collect();
    evs.push(ev("ssh_login_success", "ok", None, None));
    evs.push(ev("session_started", "s", None, None));
    evs.push(ev("sudo_command", "su", Some("/tmp/run"), None));
    evs.push(ev("suspicious_binary", "b", None, None));
    for i in 0..6 {
        evs.push(ev("firewall_block", &format!("fw{}", i), None, None));
    }
    evs.push(ev("http_success", "x", None, Some(60000)));
    let r = analyze("1.1.1.1", &evs);
    assert_eq!(r.len(), 5);
    let escalations = r
        .iter()
        .filter(|x| x.intent == "privilege_escalation + persistence" || x.intent == "privilege_escalation" || x.intent == "persistence")
        .count();
    assert_eq!(escalations, 1);
    for x in &r {
        assert_eq!(x.actor, "1.1.1.1");
        assert!(50 <= x.confidence && x.confidence <= 90);
        assert!(!x.evidence.is_empty());
    }
}

#[test]
fn doubt_selection_twice_is_once() {
    let s = |a: &str, sum: u128, n: usize| ActorSummary {
        actor: a.to_string(),
        intents: vec![],
        confidence_sum: sum,
        result_count: n,
        evidence: vec![],
    };
    let all = vec![s("a", 50, 1), s("b", 88, 1), s("c", 120, 2), s("d", 69, 1)];
    let once = filter_low_confidence(&all);
    let twice = filter_low_confidence(&once);
    let names = |v: &Vec<ActorSummary>| v.iter().map(|x| x.actor.clone()).collect::<Vec<_>>();
    assert_eq!(names(&once), vec!["a", "c", "d"]);
    assert_eq!(names(&twice), names(&once));
}

#[test]
fn events_come_from_lines() {
    let text = "May  6 09:12:01 server sshd[1]: Accepted password for john from 1.2.3.4 port 1 ssh2\n\
                noise\n\
                May  6 09:16:10 server systemd[1]: Started Session 1 of user root.\n\
                May  6 09:20:01 server kernel: [UFW BLOCK] IN=eth0 SRC=4.4.4.4 DST=1.1.1.1\n\
                4.4.4.4 - - [06/May/2026:09:10:01 +0000] \"GET / HTTP/1.1\" 200 5\n";
    let lines = split_lines(text);
    for evs in [auth::parse(text), syslog::parse(text), ufw::parse(text), nginx::parse(text)] {
        assert!(evs.len() <= lines.len());
        assert_eq!(evs.len(), 1);
        for e in &evs {
            assert!(lines.contains(&e.message));
        }
    }
}

#[test]
fn summaries_stay_within_rule_bounds() {
    let auth_log = "May  6 09:12:01 server sshd[1]: Failed password for root from 7.7.7.7 port 1 ssh2\n".repeat(5);
    let syslog_log = "May  6 09:16:30 server kernel: suspicious binary executed: /tmp/.x\n";
    let a = run_analysis(&auth_log, syslog_log, "", "");
    assert_eq!(a.summaries.len(), 1);
    for s in &a.summaries {
        assert!(s.result_count > 0);
        assert!(50 * s.result_count as u128 <= s.confidence_sum);
        assert!(s.confidence_sum <= 90 * s.result_count as u128);
    }
}

#[test]
fn rules_give_at_most_five_intents_from_messages() {
    let mut evs: Vec<Event> = (0..6).map(|i| ev("ssh_login_failed", &format!("f{}", i), None, None)).collect();
    evs.push(ev("ssh_login_success", "ok", None, None));
    evs.push(ev("sudo_command", "s", Some("/bin/bash"), None));
    evs.push(ev("suspicious_binary", "b", None, None));
    for i in 0..5 {
        evs.push(ev("firewall_block", &format!("w{}", i), None, None));
    }
    evs.push(ev("http_success", "x", None, Some(70000)));
    let r = analyze("a", &evs);
    assert_eq!(r.len(), 5);
    let messages: Vec<String> = evs.iter().map(|e| e.message.clone()).collect();
    for x in &r {
        assert_eq!(x.actor, "a");
        assert!(!x.evidence.is_empty());
        assert!(x.evidence.iter().all(|m| messages.contains(m)));
    }
}

#[test]
fn doubt_selection_keeps_order_and_entries() {
    let mk = |a: &str, sum: u128, count: usize| ActorSummary {
        actor: a.to_string(),
        intents: vec![],
        confidence_sum: sum,
        result_count: count,
        evidence: vec![],
    };
    let all = vec![mk("a", 50, 1), mk("b", 90, 1), mk("c", 100, 2), mk("d", 30, 1)];
    let r = filter_low_confidence(&all);
    let actors: Vec<&str> = r.iter().map(|s| s.actor.as_str()).collect();
    assert_eq!(actors, vec!["a", "c"]);
    assert_eq!(r[1].confidence_sum, 100);
    assert_eq!(r[1].result_count, 2);
}

#[test]
fn average_lies_between_least_and_greatest() {
    let evs = vec![
        ev("suspicious_binary", "b", None, None),
        ev("http_success", "x", None, Some(90000)),
    ];
    let r = analyze("a", &evs);
    let s = intentiq::grouping::summarize(intentiq::grouping::aggregate_results(r));
    assert_eq!(s[0].result_count, 2);
    assert_eq!(s[0].confidence_sum, 138);
    assert!(50 * 2 <= s[0].confidence_sum && s[0].confidence_sum <= 88 * 2);
}

#[test]
fn grouping_counts_every_keyed_event_once() {
    let mut evs = vec![
        ev("a", "1", None, None),
        ev("b", "2", None, None),
    ];
    evs[1].ip = None;
    evs[1].user = Some("root".to_string());
    let mut no_key = ev("c", "3", None, None);
    no_key.ip = None;
    evs.push(no_key);
    evs.push(ev("d", "4", None, None));
    let g = intentiq::grouping::group_events_per_actor(evs);
    let total: usize = g.values.iter().map(|v| v.len()).sum();
    assert_eq!(total, 3);
    assert!(g.values.iter().all(|v| !v.is_empty()));
}

#[test]
fn auth_sudo_events_have_no_address() {
    let text = "May  6 09:16:05 server sudo: root : TTY=pts/0 ; PWD=/root ; COMMAND=/bin/bash\nMay  6 09:14:02 server sshd[1035]: Failed password for invalid user admin from 185.220.101.12 port 41234 ssh2\n";
    let evs = auth::parse(text);
    assert_eq!(evs.len(), 2);
    assert_eq!(evs[0].ip, None);
    assert_eq!(evs[0].command.as_deref(), Some("/bin/bash"));
    assert_eq!(evs[1].ip.as_deref(), Some("185.220.101.12"));
    assert_eq!(evs[1].command, None);
}
