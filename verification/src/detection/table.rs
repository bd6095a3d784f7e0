//! The rule table of the detection, stated as laws over the events of an
//! actor: which intent each rule finds, with which confidence, on which
//! events, and with which evidence.

use vstd::prelude::*;
use crate::detection::rules::{
    analyze_spec, failed_before_last_login, intent, is_failed_login, is_firewall_block,
    is_large_response, is_risky_sudo, is_session, is_suspicious_binary, last_login_message,
    messages_where,
};
use crate::models::event::{EventView, IntentView};
use crate::text::contains_seq;

verus! {

/// The failed ssh logins among `evs`, in order.
pub open spec fn failed_logins(evs: Seq<EventView>) -> Seq<EventView> {
    evs.filter(|e: EventView| e.event_type == "ssh_login_failed"@)
}

/// The sudo commands among `evs` that run from `/tmp`, start `/bin/bash` or
/// fetch with `wget`, in order.
pub open spec fn risky_sudo_commands(evs: Seq<EventView>) -> Seq<EventView> {
    evs.filter(
        |e: EventView|
            e.event_type == "sudo_command"@ && (e.command matches Some(c) && (contains_seq(c, "/tmp"@)
                || contains_seq(c, "/bin/bash"@) || contains_seq(c, "wget"@))),
    )
}

/// The suspicious binaries among `evs`, in order.
pub open spec fn suspicious_binaries(evs: Seq<EventView>) -> Seq<EventView> {
    evs.filter(|e: EventView| e.event_type == "suspicious_binary"@)
}

/// The connections among `evs` that the firewall blocked, in order.
pub open spec fn firewall_blocks(evs: Seq<EventView>) -> Seq<EventView> {
    evs.filter(|e: EventView| e.event_type == "firewall_block"@)
}

/// The successful HTTP answers among `evs` of at least 50 000 bytes, in
/// order.
pub open spec fn large_successful_answers(evs: Seq<EventView>) -> Seq<EventView> {
    evs.filter(|e: EventView| e.event_type == "http_success"@ && (e.size matches Some(s) && s >= 50000))
}

/// The messages of `evs`, in order.
pub open spec fn messages(evs: Seq<EventView>) -> Seq<Seq<char>> {
    evs.map_values(|e: EventView| e.message)
}

/// Some event of `evs` is a started session or a successful ssh login.
pub open spec fn has_session_or_login(evs: Seq<EventView>) -> bool {
    exists|i: int|
        0 <= i < evs.len() && (#[trigger] evs[i].event_type == "session_started"@ || evs[i].event_type
            == "ssh_login_success"@)
}

/// Event `j` of `evs` is the last successful ssh login among them.
pub open spec fn is_last_login(evs: Seq<EventView>, j: int) -> bool {
    &&& 0 <= j < evs.len()
    &&& evs[j].event_type == "ssh_login_success"@
    &&& forall|m: int| j < m < evs.len() ==> (#[trigger] evs[m]).event_type != "ssh_login_success"@
}

/// The results among `rs` with confidence `c` (in hundredths), in order.
#[verifier::opaque]
pub open spec fn with_confidence(rs: Seq<IntentView>, c: u32) -> Seq<IntentView> {
    rs.filter(|r: IntentView| r.confidence == c)
}

proof fn lemma_messages_where_filter(evs: Seq<EventView>, p: spec_fn(EventView) -> bool, q: spec_fn(EventView) -> bool)
    requires
        forall|e: EventView| #[trigger] p(e) == q(e),
    ensures
        messages_where(evs, p) == messages(evs.filter(q)),
    decreases evs.len(),
{
    reveal(Seq::filter);
    if evs.len() > 0 {
        lemma_messages_where_filter(evs.drop_last(), p, q);
        let f0 = evs.drop_last().filter(q);
        if q(evs.last()) {
            assert(messages(f0.push(evs.last())) =~= messages(f0).push(evs.last().message));
        }
    } else {
        assert(messages(evs.filter(q)) =~= Seq::<Seq<char>>::empty());
    }
}

proof fn lemma_filter_nonempty<A>(s: Seq<A>, p: spec_fn(A) -> bool)
    ensures
        s.filter(p).len() > 0 <==> exists|i: int| 0 <= i < s.len() && p(#[trigger] s[i]),
{
    if s.filter(p).len() > 0 {
        s.lemma_filter_pred(p, 0);
        s.lemma_filter_contains_rev(p, s.filter(p)[0]);
        let i = choose|i: int| 0 <= i < s.len() && s[i] == s.filter(p)[0];
        assert(p(s[i]));
    }
    if exists|i: int| 0 <= i < s.len() && p(#[trigger] s[i]) {
        let i = choose|i: int| 0 <= i < s.len() && p(#[trigger] s[i]);
        s.lemma_filter_contains(p, i);
    }
}

proof fn lemma_singleton_filter(x: IntentView, c: u32)
    ensures
        with_confidence(seq![x], c) == (if x.confidence == c {
            seq![x]
        } else {
            seq![]
        }),
{
    reveal(with_confidence);
    reveal(Seq::filter);
    let p = |r: IntentView| r.confidence == c;
    let e = seq![x].drop_last();
    assert(e.len() == 0);
    assert(e.filter(p) == e);
    assert(seq![x].last() == x);
    assert(seq![x].filter(p) == (if p(x) { e.push(x) } else { e }));
    assert(e.push(x) =~= seq![x]);
    assert(e =~= Seq::<IntentView>::empty());
}

proof fn lemma_empty_filter(c: u32)
    ensures
        with_confidence(Seq::<IntentView>::empty(), c) == Seq::<IntentView>::empty(),
{
    reveal(with_confidence);
    reveal(Seq::filter);
}

proof fn lemma_login_none(evs: Seq<EventView>)
    requires
        forall|m: int| 0 <= m < evs.len() ==> (#[trigger] evs[m]).event_type != "ssh_login_success"@,
    ensures
        last_login_message(evs) is None,
    decreases evs.len(),
{
    if evs.len() > 0 {
        let pre = evs.drop_last();
        assert forall|m: int| 0 <= m < pre.len() implies (#[trigger] pre[m]).event_type != "ssh_login_success"@ by {
            assert(pre[m] == evs[m]);
        }
        lemma_login_none(pre);
        assert(evs[evs.len() - 1] == evs.last());
    }
}

proof fn lemma_last_login(evs: Seq<EventView>, j: int)
    requires
        is_last_login(evs, j),
    ensures
        last_login_message(evs) == Some(evs[j].message),
        failed_before_last_login(evs) == messages_where(evs.take(j), |e: EventView| is_failed_login(e)),
    decreases evs.len(),
{
    if j < evs.len() - 1 {
        let pre = evs.drop_last();
        assert(evs[evs.len() - 1] == evs.last());
        assert(pre[j] == evs[j]);
        assert forall|m: int| j < m < pre.len() implies (#[trigger] pre[m]).event_type != "ssh_login_success"@ by {
            assert(pre[m] == evs[m]);
        }
        lemma_last_login(pre, j);
        assert(pre.take(j) =~= evs.take(j));
    } else {
        assert(evs.drop_last() =~= evs.take(j));
    }
}

proof fn lemma_login_some_has_success(evs: Seq<EventView>)
    ensures
        last_login_message(evs) is Some ==> exists|i: int|
            0 <= i < evs.len() && (#[trigger] evs[i]).event_type == "ssh_login_success"@,
    decreases evs.len(),
{
    if evs.len() > 0 {
        let pre = evs.drop_last();
        lemma_login_some_has_success(pre);
        assert(evs[evs.len() - 1] == evs.last());
        if last_login_message(evs) is Some && evs.last().event_type != "ssh_login_success"@ {
            let i = choose|i: int| 0 <= i < pre.len() && (#[trigger] pre[i]).event_type == "ssh_login_success"@;
            assert(evs[i] == pre[i]);
        }
    }
}

proof fn lemma_login_found_again(evs: Seq<EventView>, j: int)
    requires
        0 <= j < evs.len(),
        evs[j].event_type == "ssh_login_success"@,
    ensures
        last_login_message(evs) is Some,
    decreases evs.len(),
{
    if j < evs.len() - 1 && evs.last().event_type != "ssh_login_success"@ {
        assert(evs.drop_last()[j] == evs[j]);
        lemma_login_found_again(evs.drop_last(), j);
    }
}

/// Where the events `evs` hold some successful ssh login, one of them is
/// the last.
proof fn lemma_last_login_exists(evs: Seq<EventView>)
    requires
        exists|i: int| 0 <= i < evs.len() && (#[trigger] evs[i]).event_type == "ssh_login_success"@,
    ensures
        exists|j: int| is_last_login(evs, j),
    decreases evs.len(),
{
    let n = evs.len() - 1;
    if evs[n].event_type == "ssh_login_success"@ {
        assert(is_last_login(evs, n));
    } else {
        let pre = evs.drop_last();
        let i = choose|i: int| 0 <= i < evs.len() && (#[trigger] evs[i]).event_type == "ssh_login_success"@;
        assert(pre[i] == evs[i]);
        lemma_last_login_exists(pre);
        let j = choose|j: int| is_last_login(pre, j);
        assert(pre[j] == evs[j]);
        assert forall|m: int| j < m < evs.len() implies (#[trigger] evs[m]).event_type != "ssh_login_success"@ by {
            if m < n {
                assert(pre[m] == evs[m]);
            }
        }
        assert(is_last_login(evs, j));
    }
}

#[verifier::opaque]
spec fn part_failed(actor: Seq<char>, evs: Seq<EventView>) -> Seq<IntentView> {
    let failed = messages_where(evs, |e: EventView| is_failed_login(e));
    if failed.len() >= 5 {
        seq![intent(actor, "reconnaissance"@, 75, failed)]
    } else {
        seq![]
    }
}

#[verifier::opaque]
spec fn part_credential(actor: Seq<char>, evs: Seq<EventView>) -> Seq<IntentView> {
    let failed = messages_where(evs, |e: EventView| is_failed_login(e));
    let login = last_login_message(evs);
    if failed_before_last_login(evs).len() > 3 && login is Some {
        seq![intent(actor, "credential_access"@, 85, failed.push(login->0))]
    } else {
        seq![]
    }
}

#[verifier::opaque]
spec fn logged_in_spec(evs: Seq<EventView>) -> bool {
    messages_where(evs, |e: EventView| is_session(e)).len() > 0 || last_login_message(evs) is Some
}

#[verifier::opaque]
spec fn part_escalation(actor: Seq<char>, evs: Seq<EventView>) -> Seq<IntentView> {
    let sudo = messages_where(evs, |e: EventView| is_risky_sudo(e));
    let bins = messages_where(evs, |e: EventView| is_suspicious_binary(e));
    let logged_in = logged_in_spec(evs);
    if logged_in && sudo.len() > 0 && bins.len() > 0 {
        seq![intent(actor, "privilege_escalation + persistence"@, 90, sudo + bins)]
    } else if logged_in && sudo.len() > 0 {
        seq![intent(actor, "privilege_escalation"@, 70, sudo)]
    } else if bins.len() > 0 {
        seq![intent(actor, "persistence"@, 50, bins)]
    } else {
        seq![]
    }
}

#[verifier::opaque]
spec fn part_blocks(actor: Seq<char>, evs: Seq<EventView>) -> Seq<IntentView> {
    let blocks = messages_where(evs, |e: EventView| is_firewall_block(e));
    if blocks.len() >= 5 {
        seq![intent(actor, "reconnaissance"@, 80, blocks)]
    } else {
        seq![]
    }
}

#[verifier::opaque]
spec fn part_exfil(actor: Seq<char>, evs: Seq<EventView>) -> Seq<IntentView> {
    let exfil = messages_where(evs, |e: EventView| is_large_response(e));
    if exfil.len() > 0 {
        seq![intent(actor, "data_exfiltration"@, 88, exfil)]
    } else {
        seq![]
    }
}

proof fn lemma_parts(actor: Seq<char>, evs: Seq<EventView>)
    ensures
        analyze_spec(actor, evs) == part_failed(actor, evs) + part_credential(actor, evs) + part_escalation(
            actor,
            evs,
        ) + part_blocks(actor, evs) + part_exfil(actor, evs),
        part_failed(actor, evs).len() <= 1,
        part_credential(actor, evs).len() <= 1,
        part_escalation(actor, evs).len() <= 1,
        part_blocks(actor, evs).len() <= 1,
        part_exfil(actor, evs).len() <= 1,
        part_failed(actor, evs).len() == 1 ==> part_failed(actor, evs)[0].confidence == 75,
        part_credential(actor, evs).len() == 1 ==> part_credential(actor, evs)[0].confidence == 85,
        part_escalation(actor, evs).len() == 1 ==> (part_escalation(actor, evs)[0].confidence == 90
            || part_escalation(actor, evs)[0].confidence == 70 || part_escalation(actor, evs)[0].confidence
            == 50),
        part_blocks(actor, evs).len() == 1 ==> part_blocks(actor, evs)[0].confidence == 80,
        part_exfil(actor, evs).len() == 1 ==> part_exfil(actor, evs)[0].confidence == 88,
{
    reveal(part_failed);
    reveal(part_credential);
    reveal(part_escalation);
    reveal(part_blocks);
    reveal(part_exfil);
    reveal(logged_in_spec);
}

proof fn lemma_single_part(r: Seq<IntentView>, c: u32)
    requires
        r.len() <= 1,
    ensures
        with_confidence(r, c) == (if r.len() > 0 && r[0].confidence == c {
            r
        } else {
            seq![]
        }),
{
    lemma_empty_filter(c);
    if r.len() > 0 {
        lemma_singleton_filter(r[0], c);
        assert(r =~= seq![r[0]]);
    } else {
        assert(r =~= Seq::<IntentView>::empty());
    }
}

proof fn lemma_with_confidence_parts(actor: Seq<char>, evs: Seq<EventView>, c: u32)
    ensures
        with_confidence(analyze_spec(actor, evs), c) == with_confidence(part_failed(actor, evs), c)
            + with_confidence(part_credential(actor, evs), c) + with_confidence(part_escalation(actor, evs), c)
            + with_confidence(part_blocks(actor, evs), c) + with_confidence(part_exfil(actor, evs), c),
{
    reveal(with_confidence);
    lemma_parts(actor, evs);
    let r1 = part_failed(actor, evs);
    let r2 = part_credential(actor, evs);
    let r3 = part_escalation(actor, evs);
    let r4 = part_blocks(actor, evs);
    let r5 = part_exfil(actor, evs);
    let p = |r: IntentView| r.confidence == c;
    Seq::filter_distributes_over_add(r1 + r2 + r3 + r4, r5, p);
    Seq::filter_distributes_over_add(r1 + r2 + r3, r4, p);
    Seq::filter_distributes_over_add(r1 + r2, r3, p);
    Seq::filter_distributes_over_add(r1, r2, p);
}

/// The intent of confidence `c` that the rules find, as the one part of
/// the rules that can give it.
proof fn lemma_confidence_part(actor: Seq<char>, evs: Seq<EventView>, c: u32)
    ensures
        c == 75 ==> with_confidence(analyze_spec(actor, evs), c) == part_failed(actor, evs),
        c == 85 ==> with_confidence(analyze_spec(actor, evs), c) == part_credential(actor, evs),
        c == 80 ==> with_confidence(analyze_spec(actor, evs), c) == part_blocks(actor, evs),
        c == 88 ==> with_confidence(analyze_spec(actor, evs), c) == part_exfil(actor, evs),
        (c == 90 || c == 70 || c == 50) ==> with_confidence(analyze_spec(actor, evs), c) == with_confidence(
            part_escalation(actor, evs),
            c,
        ),
{
    lemma_with_confidence_parts(actor, evs, c);
    lemma_parts(actor, evs);
    let r1 = part_failed(actor, evs);
    let r2 = part_credential(actor, evs);
    let r3 = part_escalation(actor, evs);
    let r4 = part_blocks(actor, evs);
    let r5 = part_exfil(actor, evs);
    lemma_single_part(r1, c);
    lemma_single_part(r2, c);
    lemma_single_part(r3, c);
    lemma_single_part(r4, c);
    lemma_single_part(r5, c);
    let e = Seq::<IntentView>::empty();
    if c == 75 {
        assert(r1 + e + with_confidence(r3, c) + e + e =~= r1);
    }
    if c == 85 {
        assert(e + r2 + with_confidence(r3, c) + e + e =~= r2);
    }
    if c == 80 {
        assert(e + e + with_confidence(r3, c) + r4 + e =~= r4);
    }
    if c == 88 {
        assert(e + e + with_confidence(r3, c) + e + r5 =~= r5);
    }
    if c == 90 || c == 70 || c == 50 {
        assert(e + e + with_confidence(r3, c) + e + e =~= with_confidence(r3, c));
    }
}

/// The events of the table, read from the events as the rules read them.
proof fn lemma_table_events(evs: Seq<EventView>)
    ensures
        messages_where(evs, |e: EventView| is_failed_login(e)) == messages(failed_logins(evs)),
        messages_where(evs, |e: EventView| is_risky_sudo(e)) == messages(risky_sudo_commands(evs)),
        messages_where(evs, |e: EventView| is_suspicious_binary(e)) == messages(suspicious_binaries(evs)),
        messages_where(evs, |e: EventView| is_firewall_block(e)) == messages(firewall_blocks(evs)),
        messages_where(evs, |e: EventView| is_large_response(e)) == messages(large_successful_answers(evs)),
        logged_in_spec(evs) == has_session_or_login(evs),
{
    reveal(logged_in_spec);
    let qf = |e: EventView| e.event_type == "ssh_login_failed"@;
    let qs = |e: EventView| e.event_type == "session_started"@;
    let qu = |e: EventView|
        e.event_type == "sudo_command"@ && (e.command matches Some(c) && (contains_seq(c, "/tmp"@)
            || contains_seq(c, "/bin/bash"@) || contains_seq(c, "wget"@)));
    let qb = |e: EventView| e.event_type == "suspicious_binary"@;
    let qw = |e: EventView| e.event_type == "firewall_block"@;
    let qx = |e: EventView| e.event_type == "http_success"@ && (e.size matches Some(s) && s >= 50000);
    lemma_messages_where_filter(evs, |e: EventView| is_failed_login(e), qf);
    lemma_messages_where_filter(evs, |e: EventView| is_session(e), qs);
    lemma_messages_where_filter(evs, |e: EventView| is_risky_sudo(e), qu);
    lemma_messages_where_filter(evs, |e: EventView| is_suspicious_binary(e), qb);
    lemma_messages_where_filter(evs, |e: EventView| is_firewall_block(e), qw);
    lemma_messages_where_filter(evs, |e: EventView| is_large_response(e), qx);
    lemma_filter_nonempty(evs, qs);
    lemma_login_some_has_success(evs);
    let session = messages_where(evs, |e: EventView| is_session(e)).len() > 0;
    assert(session == (evs.filter(qs).len() > 0));
    if has_session_or_login(evs) {
        let i = choose|i: int|
            0 <= i < evs.len() && (#[trigger] evs[i].event_type == "session_started"@ || evs[i].event_type
                == "ssh_login_success"@);
        if evs[i].event_type == "session_started"@ {
            assert(qs(evs[i]));
        } else {
            lemma_login_found_again(evs, i);
        }
    }
    if session {
        let i = choose|i: int| 0 <= i < evs.len() && qs(#[trigger] evs[i]);
        assert(evs[i].event_type == "session_started"@);
    }
    if last_login_message(evs) is Some {
        let i = choose|i: int| 0 <= i < evs.len() && (#[trigger] evs[i]).event_type == "ssh_login_success"@;
        assert(evs[i].event_type == "ssh_login_success"@);
    }
}

proof fn lemma_escalation_split(r3: Seq<IntentView>)
    requires
        r3.len() <= 1,
        r3.len() == 1 ==> (r3[0].confidence == 90 || r3[0].confidence == 70 || r3[0].confidence == 50),
    ensures
        r3 == with_confidence(r3, 90) + with_confidence(r3, 70) + with_confidence(r3, 50),
{
    lemma_single_part(r3, 90);
    lemma_single_part(r3, 70);
    lemma_single_part(r3, 50);
    let e = Seq::<IntentView>::empty();
    if r3.len() == 0 {
        assert(e + e + e =~= r3);
    } else if r3[0].confidence == 90 {
        assert(r3 + e + e =~= r3);
    } else if r3[0].confidence == 70 {
        assert(e + r3 + e =~= r3);
    } else {
        assert(e + e + r3 =~= r3);
    }
}

proof fn lemma_regroup(
    rs: Seq<IntentView>,
    r1: Seq<IntentView>,
    r2: Seq<IntentView>,
    r3: Seq<IntentView>,
    r4: Seq<IntentView>,
    r5: Seq<IntentView>,
    a: Seq<IntentView>,
    b: Seq<IntentView>,
    c: Seq<IntentView>,
)
    requires
        rs == r1 + r2 + r3 + r4 + r5,
        r3 == a + b + c,
    ensures
        rs == r1 + r2 + a + b + c + r4 + r5,
{
    assert(r1 + r2 + (a + b + c) + r4 + r5 =~= r1 + r2 + a + b + c + r4 + r5);
}

/// The rules find their intents in the order of the table, grouped by
/// confidence: reconnaissance from failed logins (0.75), credential access
/// (0.85), privilege escalation with persistence (0.90), privilege
/// escalation (0.70), persistence (0.50), reconnaissance from firewall
/// blocks (0.80), data exfiltration (0.88); no result has another
/// confidence.
pub proof fn rule_table_order(actor: Seq<char>, evs: Seq<EventView>)
    ensures
        ({
            let rs = analyze_spec(actor, evs);
            rs == with_confidence(rs, 75) + with_confidence(rs, 85) + with_confidence(rs, 90)
                + with_confidence(rs, 70) + with_confidence(rs, 50) + with_confidence(rs, 80)
                + with_confidence(rs, 88)
        }),
{
    let rs = analyze_spec(actor, evs);
    let r1 = part_failed(actor, evs);
    let r2 = part_credential(actor, evs);
    let r3 = part_escalation(actor, evs);
    let r4 = part_blocks(actor, evs);
    let r5 = part_exfil(actor, evs);
    assert(rs == r1 + r2 + r3 + r4 + r5 && r3.len() <= 1 && (r3.len() == 1 ==> (r3[0].confidence == 90
        || r3[0].confidence == 70 || r3[0].confidence == 50))) by {
        lemma_parts(actor, evs);
    }
    assert(with_confidence(rs, 75) == r1) by {
        lemma_confidence_part(actor, evs, 75);
    }
    assert(with_confidence(rs, 85) == r2) by {
        lemma_confidence_part(actor, evs, 85);
    }
    assert(with_confidence(rs, 80) == r4) by {
        lemma_confidence_part(actor, evs, 80);
    }
    assert(with_confidence(rs, 88) == r5) by {
        lemma_confidence_part(actor, evs, 88);
    }
    assert(with_confidence(rs, 90) == with_confidence(r3, 90)) by {
        lemma_confidence_part(actor, evs, 90);
    }
    assert(with_confidence(rs, 70) == with_confidence(r3, 70)) by {
        lemma_confidence_part(actor, evs, 70);
    }
    assert(with_confidence(rs, 50) == with_confidence(r3, 50)) by {
        lemma_confidence_part(actor, evs, 50);
    }
    lemma_escalation_split(r3);
    lemma_regroup(rs, r1, r2, r3, r4, r5, with_confidence(r3, 90), with_confidence(r3, 70), with_confidence(r3, 50));
}

/// Reconnaissance from failed logins (0.75) is found exactly where the
/// actor has at least 5 failed logins, shown by all of them, in order.
pub proof fn rule_reconnaissance_from_failed_logins(actor: Seq<char>, evs: Seq<EventView>)
    ensures
        with_confidence(analyze_spec(actor, evs), 75) == (if failed_logins(evs).len() >= 5 {
            seq![(IntentView { actor, intent: "reconnaissance"@, confidence: 75, evidence: messages(failed_logins(evs)) })]
        } else {
            seq![]
        }),
{
    lemma_confidence_part(actor, evs, 75);
    lemma_table_events(evs);
    reveal(part_failed);
    assert(messages(failed_logins(evs)).len() == failed_logins(evs).len());
}

/// Credential access (0.85) is found exactly where more than 3 failed
/// logins come before the last successful login, shown by all failed
/// logins and then that login; without a successful login it is not found.
pub proof fn rule_credential_access(actor: Seq<char>, evs: Seq<EventView>)
    ensures
        forall|j: int|
            #[trigger] is_last_login(evs, j) ==> with_confidence(analyze_spec(actor, evs), 85) == (if failed_logins(
                evs.take(j),
            ).len() > 3 {
                seq![
                    (IntentView {
                        actor,
                        intent: "credential_access"@,
                        confidence: 85,
                        evidence: messages(failed_logins(evs)).push(evs[j].message),
                    }),
                ]
            } else {
                seq![]
            }),
        (forall|m: int| 0 <= m < evs.len() ==> (#[trigger] evs[m]).event_type != "ssh_login_success"@)
            ==> with_confidence(analyze_spec(actor, evs), 85) == Seq::<IntentView>::empty(),
{
    lemma_confidence_part(actor, evs, 85);
    lemma_table_events(evs);
    reveal(part_credential);
    assert forall|j: int| #[trigger] is_last_login(evs, j) implies with_confidence(analyze_spec(actor, evs), 85)
        == (if failed_logins(evs.take(j)).len() > 3 {
        seq![
            (IntentView {
                actor,
                intent: "credential_access"@,
                confidence: 85,
                evidence: messages(failed_logins(evs)).push(evs[j].message),
            }),
        ]
    } else {
        seq![]
    }) by {
        lemma_last_login(evs, j);
        lemma_table_events(evs.take(j));
        assert(messages(failed_logins(evs.take(j))).len() == failed_logins(evs.take(j)).len());
    }
    if forall|m: int| 0 <= m < evs.len() ==> (#[trigger] evs[m]).event_type != "ssh_login_success"@ {
        lemma_login_none(evs);
    }
}

/// Privilege escalation with persistence (0.90), privilege escalation
/// (0.70) and persistence (0.50): the first is found exactly after a
/// session or a login with a risky sudo command and a suspicious binary,
/// shown by the commands and then the binaries; the second exactly after a
/// session or a login with a risky sudo command and no suspicious binary,
/// shown by the commands; the third exactly where there is a suspicious
/// binary and not both a session or login and a risky sudo command, shown
/// by the binaries.
pub proof fn rule_escalation_and_persistence(actor: Seq<char>, evs: Seq<EventView>)
    ensures
        with_confidence(analyze_spec(actor, evs), 90) == (if has_session_or_login(evs) && risky_sudo_commands(
            evs,
        ).len() > 0 && suspicious_binaries(evs).len() > 0 {
            seq![
                (IntentView {
                    actor,
                    intent: "privilege_escalation + persistence"@,
                    confidence: 90,
                    evidence: messages(risky_sudo_commands(evs)) + messages(suspicious_binaries(evs)),
                }),
            ]
        } else {
            seq![]
        }),
        with_confidence(analyze_spec(actor, evs), 70) == (if has_session_or_login(evs) && risky_sudo_commands(
            evs,
        ).len() > 0 && suspicious_binaries(evs).len() == 0 {
            seq![
                (IntentView {
                    actor,
                    intent: "privilege_escalation"@,
                    confidence: 70,
                    evidence: messages(risky_sudo_commands(evs)),
                }),
            ]
        } else {
            seq![]
        }),
        with_confidence(analyze_spec(actor, evs), 50) == (if suspicious_binaries(evs).len() > 0 && !(
        has_session_or_login(evs) && risky_sudo_commands(evs).len() > 0) {
            seq![(IntentView { actor, intent: "persistence"@, confidence: 50, evidence: messages(suspicious_binaries(evs)) })]
        } else {
            seq![]
        }),
{
    lemma_confidence_part(actor, evs, 90);
    lemma_confidence_part(actor, evs, 70);
    lemma_confidence_part(actor, evs, 50);
    lemma_table_events(evs);
    lemma_parts(actor, evs);
    reveal(part_escalation);
    let r3 = part_escalation(actor, evs);
    lemma_single_part(r3, 90);
    lemma_single_part(r3, 70);
    lemma_single_part(r3, 50);
    assert(messages(risky_sudo_commands(evs)).len() == risky_sudo_commands(evs).len());
    assert(messages(suspicious_binaries(evs)).len() == suspicious_binaries(evs).len());
}

/// Reconnaissance from firewall blocks (0.80) is found exactly where at
/// least 5 connections of the actor were blocked, shown by all of them;
/// data exfiltration (0.88) exactly where the actor has a successful HTTP
/// answer of 50 000 bytes or more, shown by all such answers.
pub proof fn rule_blocks_and_exfiltration(actor: Seq<char>, evs: Seq<EventView>)
    ensures
        with_confidence(analyze_spec(actor, evs), 80) == (if firewall_blocks(evs).len() >= 5 {
            seq![(IntentView { actor, intent: "reconnaissance"@, confidence: 80, evidence: messages(firewall_blocks(evs)) })]
        } else {
            seq![]
        }),
        with_confidence(analyze_spec(actor, evs), 88) == (if large_successful_answers(evs).len() > 0 {
            seq![
                (IntentView {
                    actor,
                    intent: "data_exfiltration"@,
                    confidence: 88,
                    evidence: messages(large_successful_answers(evs)),
                }),
            ]
        } else {
            seq![]
        }),
{
    lemma_confidence_part(actor, evs, 80);
    lemma_confidence_part(actor, evs, 88);
    lemma_table_events(evs);
    reveal(part_blocks);
    reveal(part_exfil);
    assert(messages(firewall_blocks(evs)).len() == firewall_blocks(evs).len());
    assert(messages(large_successful_answers(evs)).len() == large_successful_answers(evs).len());
}

} // verus!
