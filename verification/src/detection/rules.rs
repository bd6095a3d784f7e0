//! The rules that find intents in the events of one actor.

use vstd::prelude::*;
use crate::models::event::{Event, EventView, IntentResult, IntentView, events_view, intents_view};
use crate::models::event::clone_strings;
use crate::text::{contains_seq, contains_str, copy_str, str_eq};

verus! {

/// The messages of the events of `evs` that satisfy `p`, in order.
pub open spec fn messages_where(evs: Seq<EventView>, p: spec_fn(EventView) -> bool) -> Seq<Seq<char>>
    decreases evs.len(),
{
    if evs.len() == 0 {
        seq![]
    } else {
        let rest = messages_where(evs.drop_last(), p);
        if p(evs.last()) {
            rest.push(evs.last().message)
        } else {
            rest
        }
    }
}

/// The message of the last successful login among `evs`.
pub open spec fn last_login_message(evs: Seq<EventView>) -> Option<Seq<char>>
    decreases evs.len(),
{
    if evs.len() == 0 {
        None
    } else if evs.last().event_type == "ssh_login_success"@ {
        Some(evs.last().message)
    } else {
        last_login_message(evs.drop_last())
    }
}

/// The messages of the failed logins that come before the last successful
/// login among `evs`; none where there is no successful login.
pub open spec fn failed_before_last_login(evs: Seq<EventView>) -> Seq<Seq<char>>
    decreases evs.len(),
{
    if evs.len() == 0 {
        seq![]
    } else if evs.last().event_type == "ssh_login_success"@ {
        messages_where(evs.drop_last(), |e: EventView| is_failed_login(e))
    } else {
        failed_before_last_login(evs.drop_last())
    }
}

/// A failed ssh login.
pub open spec fn is_failed_login(e: EventView) -> bool {
    e.event_type == "ssh_login_failed"@
}

/// A session that was started.
pub open spec fn is_session(e: EventView) -> bool {
    e.event_type == "session_started"@
}

/// A command that fetches, or runs from `/tmp` or as a shell.
pub open spec fn is_risky_command(c: Seq<char>) -> bool {
    contains_seq(c, "/tmp"@) || contains_seq(c, "/bin/bash"@) || contains_seq(c, "wget"@)
}

/// A sudo command that is risky.
pub open spec fn is_risky_sudo(e: EventView) -> bool {
    e.event_type == "sudo_command"@ && (e.command matches Some(c) && is_risky_command(c))
}

/// A suspicious binary that was run.
pub open spec fn is_suspicious_binary(e: EventView) -> bool {
    e.event_type == "suspicious_binary"@
}

/// A connection that the firewall blocked.
pub open spec fn is_firewall_block(e: EventView) -> bool {
    e.event_type == "firewall_block"@
}

/// The size from which an HTTP answer counts as data taken out.
pub const EXFILTRATION_BYTES: i64 = 50000;

/// A successful HTTP answer of at least 50 000 bytes.
pub open spec fn is_large_response(e: EventView) -> bool {
    e.event_type == "http_success"@ && (e.size matches Some(s) && s >= EXFILTRATION_BYTES)
}

/// The number of failed logins from which they count as reconnaissance.
pub const FAILED_LOGIN_THRESHOLD: usize = 5;

/// The number of firewall blocks from which they count as reconnaissance.
pub const FIREWALL_BLOCK_THRESHOLD: usize = 5;

/// The number of failed logins before a successful one above which the
/// login counts as credential access.
pub const CREDENTIAL_FAILED_LOGINS: usize = 3;

/// An intent result.
pub open spec fn intent(actor: Seq<char>, name: Seq<char>, confidence: u32, evidence: Seq<Seq<char>>) -> IntentView {
    IntentView { actor, intent: name, confidence, evidence }
}

/// The intents that the rules find in the events `evs` of `actor`, in this
/// order:
/// - reconnaissance (0.75), from 5 failed logins on, shown by them;
/// - credential access (0.85), where more than 3 failed logins come before
///   the last successful login, shown by all failed logins and that
///   successful one;
/// - after a session or login, risky sudo commands and a suspicious binary:
///   privilege escalation with persistence (0.90), shown by the commands
///   and binaries; or else, after a session or login, risky sudo commands:
///   privilege escalation (0.70), shown by the commands; or else a
///   suspicious binary: persistence (0.50), shown by the binaries;
/// - reconnaissance (0.80), from 5 firewall blocks on, shown by them;
/// - data exfiltration (0.88), shown by the successful HTTP answers of
///   50 000 bytes or more, where there is one.
pub open spec fn analyze_spec(actor: Seq<char>, evs: Seq<EventView>) -> Seq<IntentView> {
    let failed = messages_where(evs, |e: EventView| is_failed_login(e));
    let login = last_login_message(evs);
    let before_login = failed_before_last_login(evs);
    let session = messages_where(evs, |e: EventView| is_session(e)).len() > 0;
    let sudo = messages_where(evs, |e: EventView| is_risky_sudo(e));
    let bins = messages_where(evs, |e: EventView| is_suspicious_binary(e));
    let blocks = messages_where(evs, |e: EventView| is_firewall_block(e));
    let exfil = messages_where(evs, |e: EventView| is_large_response(e));
    let logged_in = session || login is Some;
    let r1 = if failed.len() >= FAILED_LOGIN_THRESHOLD {
        seq![intent(actor, "reconnaissance"@, 75, failed)]
    } else {
        seq![]
    };
    let r2 = if before_login.len() > CREDENTIAL_FAILED_LOGINS && login is Some {
        seq![intent(actor, "credential_access"@, 85, failed.push(login->0))]
    } else {
        seq![]
    };
    let r3 = if logged_in && sudo.len() > 0 && bins.len() > 0 {
        seq![intent(actor, "privilege_escalation + persistence"@, 90, sudo + bins)]
    } else if logged_in && sudo.len() > 0 {
        seq![intent(actor, "privilege_escalation"@, 70, sudo)]
    } else if bins.len() > 0 {
        seq![intent(actor, "persistence"@, 50, bins)]
    } else {
        seq![]
    };
    let r4 = if blocks.len() >= FIREWALL_BLOCK_THRESHOLD {
        seq![intent(actor, "reconnaissance"@, 80, blocks)]
    } else {
        seq![]
    };
    let r5 = if exfil.len() > 0 {
        seq![intent(actor, "data_exfiltration"@, 88, exfil)]
    } else {
        seq![]
    };
    r1 + r2 + r3 + r4 + r5
}

proof fn lemma_messages_where_step(evs: Seq<EventView>, p: spec_fn(EventView) -> bool, i: int)
    requires
        0 <= i < evs.len(),
    ensures
        messages_where(evs.take(i + 1), p) == (if p(evs[i]) {
            messages_where(evs.take(i), p).push(evs[i].message)
        } else {
            messages_where(evs.take(i), p)
        }),
        last_login_message(evs.take(i + 1)) == (if evs[i].event_type == "ssh_login_success"@ {
            Some(evs[i].message)
        } else {
            last_login_message(evs.take(i))
        }),
        failed_before_last_login(evs.take(i + 1)) == (if evs[i].event_type == "ssh_login_success"@ {
            messages_where(evs.take(i), |e: EventView| is_failed_login(e))
        } else {
            failed_before_last_login(evs.take(i))
        }),
{
    assert(evs.take(i + 1).drop_last() =~= evs.take(i));
}

fn push_message(v: &mut Vec<String>, e: &Event)
    ensures
        final(v).deep_view() == old(v).deep_view().push(e@.message),
{
    let ghost before = v.deep_view();
    v.push(e.message.clone());
    assert(v.deep_view() =~= before.push(e@.message));
}

fn make_intent(actor: &str, name: &str, confidence: u32, evidence: &Vec<String>) -> (r: IntentResult)
    ensures
        r@ == intent(actor@, name@, confidence, evidence.deep_view()),
{
    IntentResult {
        actor: copy_str(actor),
        intent: copy_str(name),
        confidence,
        evidence: clone_strings(evidence),
    }
}

fn concat_strings(a: &Vec<String>, b: &Vec<String>) -> (r: Vec<String>)
    ensures
        r.deep_view() == a.deep_view() + b.deep_view(),
{
    let mut r = clone_strings(a);
    let mut i: usize = 0;
    while i < b.len()
        invariant
            i <= b@.len(),
            r.deep_view() == a.deep_view() + b.deep_view().take(i as int),
        decreases b@.len() - i,
    {
        let ghost before = r.deep_view();
        r.push(b[i].clone());
        assert(r.deep_view() =~= before.push(b@[i as int]@));
        assert(r.deep_view() =~= a.deep_view() + b.deep_view().take(i + 1));
        i += 1;
    }
    assert(b.deep_view().take(b@.len() as int) =~= b.deep_view());
    r
}

/// The intents that the rules find in the events of `actor`.
pub fn analyze(actor: &str, events: &Vec<Event>) -> (results: Vec<IntentResult>)
    ensures
        intents_view(results@) == analyze_spec(actor@, events_view(events@)),
{
    let ghost evs = events_view(events@);
    let ghost pf = |e: EventView| is_failed_login(e);
    let ghost ps = |e: EventView| is_session(e);
    let ghost pu = |e: EventView| is_risky_sudo(e);
    let ghost pb = |e: EventView| is_suspicious_binary(e);
    let ghost pw = |e: EventView| is_firewall_block(e);
    let ghost px = |e: EventView| is_large_response(e);
    let mut failed: Vec<String> = Vec::new();
    let mut login: Option<String> = None;
    let mut before_login: Vec<String> = Vec::new();
    let mut sessions: Vec<String> = Vec::new();
    let mut sudo: Vec<String> = Vec::new();
    let mut bins: Vec<String> = Vec::new();
    let mut blocks: Vec<String> = Vec::new();
    let mut exfil: Vec<String> = Vec::new();
    let mut i: usize = 0;
    assert(evs.take(0) =~= Seq::<EventView>::empty());
    assert(failed.deep_view() =~= Seq::<Seq<char>>::empty());
    assert(before_login.deep_view() =~= Seq::<Seq<char>>::empty());
    assert(sessions.deep_view() =~= Seq::<Seq<char>>::empty());
    assert(sudo.deep_view() =~= Seq::<Seq<char>>::empty());
    assert(bins.deep_view() =~= Seq::<Seq<char>>::empty());
    assert(blocks.deep_view() =~= Seq::<Seq<char>>::empty());
    assert(exfil.deep_view() =~= Seq::<Seq<char>>::empty());
    while i < events.len()
        invariant
            i <= events@.len(),
            evs == events_view(events@),
            pf == (|e: EventView| is_failed_login(e)),
            ps == (|e: EventView| is_session(e)),
            pu == (|e: EventView| is_risky_sudo(e)),
            pb == (|e: EventView| is_suspicious_binary(e)),
            pw == (|e: EventView| is_firewall_block(e)),
            px == (|e: EventView| is_large_response(e)),
            failed.deep_view() == messages_where(evs.take(i as int), pf),
            login.deep_view() == last_login_message(evs.take(i as int)),
            before_login.deep_view() == failed_before_last_login(evs.take(i as int)),
            sessions.deep_view() == messages_where(evs.take(i as int), ps),
            sudo.deep_view() == messages_where(evs.take(i as int), pu),
            bins.deep_view() == messages_where(evs.take(i as int), pb),
            blocks.deep_view() == messages_where(evs.take(i as int), pw),
            exfil.deep_view() == messages_where(evs.take(i as int), px),
        decreases events@.len() - i,
    {
        let e = &events[i];
        assert(evs[i as int] == e@);
        proof {
            lemma_messages_where_step(evs, pf, i as int);
            lemma_messages_where_step(evs, ps, i as int);
            lemma_messages_where_step(evs, pu, i as int);
            lemma_messages_where_step(evs, pb, i as int);
            lemma_messages_where_step(evs, pw, i as int);
            lemma_messages_where_step(evs, px, i as int);
        }
        let ty = e.event_type.as_str();
        if str_eq(ty, "ssh_login_success") {
            login = Some(e.message.clone());
            before_login = clone_strings(&failed);
            assert(pf =~= (|e: EventView| is_failed_login(e)));
        }
        if str_eq(ty, "ssh_login_failed") {
            push_message(&mut failed, e);
        }

        if str_eq(ty, "session_started") {
            push_message(&mut sessions, e);
        }
        if str_eq(ty, "sudo_command") {
            if let Some(cmd) = &e.command {
                let c = cmd.as_str();
                if contains_str(c, "/tmp") || contains_str(c, "/bin/bash") || contains_str(c, "wget") {
                    push_message(&mut sudo, e);
                }
            }
        }
        if str_eq(ty, "suspicious_binary") {
            push_message(&mut bins, e);
        }
        if str_eq(ty, "firewall_block") {
            push_message(&mut blocks, e);
        }
        if str_eq(ty, "http_success") {
            if let Some(size) = e.size {
                if size >= EXFILTRATION_BYTES {
                    push_message(&mut exfil, e);
                }
            }
        }
        i += 1;
    }
    assert(evs.take(events@.len() as int) =~= evs);
    let logged_in = sessions.len() > 0 || login.is_some();
    let mut results: Vec<IntentResult> = Vec::new();
    let ghost r1 = intents_view(results@);
    if failed.len() >= FAILED_LOGIN_THRESHOLD {
        results.push(make_intent(actor, "reconnaissance", 75, &failed));
    }
    let ghost r2 = intents_view(results@);
    if before_login.len() > CREDENTIAL_FAILED_LOGINS {
        if let Some(msg) = &login {
            let mut evidence = clone_strings(&failed);
            let ghost before = evidence.deep_view();
            evidence.push(msg.clone());
            assert(evidence.deep_view() =~= before.push(msg@));
            results.push(make_intent(actor, "credential_access", 85, &evidence));
        }
    }
    let ghost r3 = intents_view(results@);
    if logged_in && sudo.len() > 0 && bins.len() > 0 {
        let evidence = concat_strings(&sudo, &bins);
        results.push(make_intent(actor, "privilege_escalation + persistence", 90, &evidence));
    } else if logged_in && sudo.len() > 0 {
        results.push(make_intent(actor, "privilege_escalation", 70, &sudo));
    } else if bins.len() > 0 {
        results.push(make_intent(actor, "persistence", 50, &bins));
    }
    let ghost r4 = intents_view(results@);
    if blocks.len() >= FIREWALL_BLOCK_THRESHOLD {
        results.push(make_intent(actor, "reconnaissance", 80, &blocks));
    }
    if exfil.len() > 0 {
        results.push(make_intent(actor, "data_exfiltration", 88, &exfil));
    }
    assert(intents_view(results@) =~= analyze_spec(actor@, evs));
    results
}

} // verus!
