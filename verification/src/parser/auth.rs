//! Parser for `auth.log`: ssh logins and sudo commands.

use vstd::prelude::*;
use crate::matching::{
    CapturesView, first_match, get_group, get_group_or_empty, group, group_or_empty,
    lemma_first_match_in_range, match_lines, match_view, patterns_view,
};
use crate::models::event::{Event, EventView, events_view};
use crate::parser::{classify_line, events_of_lines, lemma_events_of_lines_step};
use crate::text::{copy_str, lines_of, split_lines};

verus! {

/// A successful ssh login: timestamp, user and source address.
pub const LOGIN_ACCEPTED: &'static str = r"(\w+\s+\d+\s+\d+:\d+:\d+).*sshd.*Accepted password for (\w+) from ([\d.]+)";

/// A failed ssh login: timestamp, user and source address.
pub const LOGIN_FAILED: &'static str = r"(\w+\s+\d+\s+\d+:\d+:\d+).*sshd.*Failed password for (?:invalid user )?(\w+) from ([\d.]+)";

/// A sudo command: timestamp, user and command.
pub const SUDO_COMMAND: &'static str = r"(\w+\s+\d+\s+\d+:\d+:\d+).*sudo:\s+(\w+).*COMMAND=(.+)";

/// The patterns of `auth.log`, in the order in which they are tried.
pub open spec fn auth_patterns() -> Seq<Seq<char>> {
    seq![LOGIN_ACCEPTED@, LOGIN_FAILED@, SUDO_COMMAND@]
}

/// The event type that pattern `kind` gives.
pub open spec fn auth_event_type(kind: int) -> Seq<char> {
    if kind == 0 {
        "ssh_login_success"@
    } else if kind == 1 {
        "ssh_login_failed"@
    } else {
        "sudo_command"@
    }
}

/// The event that pattern `kind` makes of `line` from the groups `caps`:
/// group 1 is the timestamp, group 2 the user, and group 3 the source
/// address, or for a sudo command the command.
pub open spec fn auth_event(kind: int, caps: CapturesView, line: Seq<char>) -> EventView {
    EventView {
        timestamp: group_or_empty(caps, 1),
        source: "auth.log"@,
        user: group(caps, 2),
        ip: if kind == 2 { None } else { group(caps, 3) },
        event_type: auth_event_type(kind),
        command: if kind == 2 { group(caps, 3) } else { None },
        message: line,
        size: None,
    }
}

/// The event of one `auth.log` line, where one of the patterns matches it.
pub open spec fn auth_line(line: Seq<char>) -> Option<EventView> {
    classify_line(auth_patterns(), |k: int, c: CapturesView, l: Seq<char>| auth_event(k, c, l), line)
}

/// The event that pattern `kind` of `auth.log` (0: accepted login,
/// 1: failed login, 2: sudo command) makes of `line`, given the groups of
/// its match.
pub fn event_from_captures(kind: usize, caps: &Vec<Option<String>>, line: &str) -> (e: Event)
    requires
        kind < 3,
    ensures
        e@ == auth_event(kind as int, caps.deep_view(), line@),
{
    let timestamp = get_group_or_empty(caps, 1);
    let user = get_group(caps, 2);
    let third = get_group(caps, 3);
    let (ip, command) = if kind == 2 {
        (None, third)
    } else {
        (third, None)
    };
    let event_type = if kind == 0 {
        copy_str("ssh_login_success")
    } else if kind == 1 {
        copy_str("ssh_login_failed")
    } else {
        copy_str("sudo_command")
    };
    Event {
        timestamp,
        source: copy_str("auth.log"),
        user,
        ip,
        event_type,
        command,
        message: copy_str(line),
        size: None,
    }
}

/// The events of the lines of an `auth.log` text, in order.
pub fn parse(contents: &str) -> (events: Vec<Event>)
    ensures
        events_view(events@) == events_of_lines(lines_of(contents@), |l: Seq<char>| auth_line(l)),
{
    let lines = split_lines(contents);
    let patterns: Vec<&str> = vec![LOGIN_ACCEPTED, LOGIN_FAILED, SUDO_COMMAND];
    assert(patterns_view(patterns@) =~= auth_patterns());
    let matched = match_lines(&patterns, &lines);
    let ghost ls = lines.deep_view();
    let ghost classify = |l: Seq<char>| auth_line(l);
    let mut events: Vec<Event> = Vec::new();
    let mut i: usize = 0;
    assert(ls.take(0) =~= Seq::<Seq<char>>::empty());
    while i < lines.len()
        invariant
            i <= lines@.len(),
            ls == lines.deep_view(),
            ls == lines_of(contents@),
            classify == (|l: Seq<char>| auth_line(l)),
            matched@.len() == lines@.len(),
            forall|l: int|
                0 <= l < lines@.len() ==> #[trigger] match_view(matched@[l]) == first_match(
                    auth_patterns(),
                    lines@[l]@,
                ),
            events_view(events@) == events_of_lines(ls.take(i as int), classify),
        decreases lines@.len() - i,
    {
        proof {
            lemma_events_of_lines_step(ls, classify, i as int);
            assert(ls[i as int] == lines@[i as int]@);
        }
        let ghost m = match_view(matched@[i as int]);
        match &matched[i] {
            Some((k, caps)) => {
                assert(m == Some((*k as int, caps.deep_view())));
                assert(*k < 3) by {
                    lemma_first_match_in_range(auth_patterns(), lines@[i as int]@, 0);
                }
                let e = event_from_captures(*k, caps, lines[i].as_str());
                assert(auth_line(lines@[i as int]@) == Some(e@));
                assert(classify(ls[i as int]) == Some(e@));
                events.push(e);
                assert(events_view(events@) =~= events_view(events@.drop_last()).push(e@));
            },
            None => {
                assert(auth_line(lines@[i as int]@) == None::<EventView>);
                assert(classify(ls[i as int]) == None::<EventView>);
            },
        }
        i += 1;
    }
    assert(ls.take(lines@.len() as int) =~= ls);
    events
}

} // verus!
