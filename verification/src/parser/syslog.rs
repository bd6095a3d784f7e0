//! Parser for `syslog`: sessions, suspicious binaries and started processes.

use vstd::prelude::*;
use crate::matching::{
    CapturesView, first_match, get_group, get_group_or_empty, group, group_or_empty,
    lemma_first_match_in_range, match_lines, match_view, patterns_view,
};
use crate::models::event::{Event, EventView, events_view};
use crate::parser::{classify_line, events_of_lines, lemma_events_of_lines_step};
use crate::text::{copy_str, lines_of, split_lines};

verus! {

/// A session started for a user: timestamp and user.
pub const SESSION_STARTED: &'static str = r"(\w+\s+\d+\s+\d+:\d+:\d+).*Started Session \d+ of user (\w+)";

/// A suspicious binary that was run: timestamp and binary.
pub const SUSPICIOUS_BINARY: &'static str = r"(\w+\s+\d+\s+\d+:\d+:\d+).*suspicious binary executed: (\S+)";

/// A process that was started: timestamp and process name.
pub const PROCESS_STARTED: &'static str = r"(\w+\s+\d+\s+\d+:\d+:\d+).*Started Process ID \d+ \((\S+)\)";

/// The patterns of `syslog`, in the order in which they are tried.
pub open spec fn syslog_patterns() -> Seq<Seq<char>> {
    seq![SESSION_STARTED@, SUSPICIOUS_BINARY@, PROCESS_STARTED@]
}

/// The event type that pattern `kind` gives.
pub open spec fn syslog_event_type(kind: int) -> Seq<char> {
    if kind == 0 {
        "session_started"@
    } else if kind == 1 {
        "suspicious_binary"@
    } else {
        "process_started"@
    }
}

/// The event that pattern `kind` makes of `line` from the groups `caps`:
/// group 1 is the timestamp and group 2 the user of a session, or else the
/// binary or process.
pub open spec fn syslog_event(kind: int, caps: CapturesView, line: Seq<char>) -> EventView {
    EventView {
        timestamp: group_or_empty(caps, 1),
        source: "syslog"@,
        user: if kind == 0 { group(caps, 2) } else { None },
        ip: None,
        event_type: syslog_event_type(kind),
        command: if kind == 0 { None } else { group(caps, 2) },
        message: line,
        size: None,
    }
}

/// The event of one `syslog` line, where one of the patterns matches it.
pub open spec fn syslog_line(line: Seq<char>) -> Option<EventView> {
    classify_line(syslog_patterns(), |k: int, c: CapturesView, l: Seq<char>| syslog_event(k, c, l), line)
}

/// The event that pattern `kind` of `syslog` (0: session started,
/// 1: suspicious binary, 2: process started) makes of `line`, given the
/// groups of its match.
pub fn event_from_captures(kind: usize, caps: &Vec<Option<String>>, line: &str) -> (e: Event)
    requires
        kind < 3,
    ensures
        e@ == syslog_event(kind as int, caps.deep_view(), line@),
{
    let timestamp = get_group_or_empty(caps, 1);
    let second = get_group(caps, 2);
    let (user, command) = if kind == 0 {
        (second, None)
    } else {
        (None, second)
    };
    let event_type = if kind == 0 {
        copy_str("session_started")
    } else if kind == 1 {
        copy_str("suspicious_binary")
    } else {
        copy_str("process_started")
    };
    Event {
        timestamp,
        source: copy_str("syslog"),
        user,
        ip: None,
        event_type,
        command,
        message: copy_str(line),
        size: None,
    }
}

/// The events of the lines of a `syslog` text, in order.
pub fn parse(contents: &str) -> (events: Vec<Event>)
    ensures
        events_view(events@) == events_of_lines(lines_of(contents@), |l: Seq<char>| syslog_line(l)),
{
    let lines = split_lines(contents);
    let patterns: Vec<&str> = vec![SESSION_STARTED, SUSPICIOUS_BINARY, PROCESS_STARTED];
    assert(patterns_view(patterns@) =~= syslog_patterns());
    let matched = match_lines(&patterns, &lines);
    let ghost ls = lines.deep_view();
    let ghost classify = |l: Seq<char>| syslog_line(l);
    let mut events: Vec<Event> = Vec::new();
    let mut i: usize = 0;
    assert(ls.take(0) =~= Seq::<Seq<char>>::empty());
    while i < lines.len()
        invariant
            i <= lines@.len(),
            ls == lines.deep_view(),
            ls == lines_of(contents@),
            classify == (|l: Seq<char>| syslog_line(l)),
            matched@.len() == lines@.len(),
            forall|l: int|
                0 <= l < lines@.len() ==> #[trigger] match_view(matched@[l]) == first_match(
                    syslog_patterns(),
                    lines@[l]@,
                ),
            events_view(events@) == events_of_lines(ls.take(i as int), classify),
        decreases lines@.len() - i,
    {
        proof {
            lemma_events_of_lines_step(ls, classify, i as int);
            assert(ls[i as int] == lines@[i as int]@);
        }
        let ghost m = match_view(matched@[i as int]);
        match &matched[i] {
            Some((k, caps)) => {
                assert(m == Some((*k as int, caps.deep_view())));
                assert(*k < 3) by {
                    lemma_first_match_in_range(syslog_patterns(), lines@[i as int]@, 0);
                }
                let e = event_from_captures(*k, caps, lines[i].as_str());
                assert(syslog_line(lines@[i as int]@) == Some(e@));
                assert(classify(ls[i as int]) == Some(e@));
                events.push(e);
                assert(events_view(events@) =~= events_view(events@.drop_last()).push(e@));
            },
            None => {
                assert(syslog_line(lines@[i as int]@) == None::<EventView>);
                assert(classify(ls[i as int]) == None::<EventView>);
            },
        }
        i += 1;
    }
    assert(ls.take(lines@.len() as int) =~= ls);
    events
}

} // verus!
