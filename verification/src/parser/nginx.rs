//! Parser for the nginx access log: answered requests with their status
//! class and size.

use vstd::prelude::*;
use crate::matching::{
    CapturesView, first_match, get_group, get_group_or_empty, group, group_or_empty,
    lemma_first_match_in_range, match_lines, match_view, patterns_view,
};
use crate::models::event::{Event, EventView, events_view};
use crate::parser::{classify_line, events_of_lines, lemma_events_of_lines_step};
use crate::text::{copy_str, lines_of, parse_i64, parse_i64_spec, split_lines};

verus! {

/// A request answered with status 2xx: address, time, request and size.
pub const HTTP_SUCCESS: &'static str = r#"([\d.]+)\s-\s-\s\[([^\]]*)\]\s\"([^\"]+)\"\s2\d\d\s(\d+)$"#;

/// A request answered with status 404: address, time, request and size.
pub const HTTP_NOT_FOUND: &'static str = r#"([\d.]+)\s-\s-\s\[([^\]]*)\]\s\"([^\"]+)\"\s404\s(\d+)$"#;

/// A request answered with status 403: address, time, request and size.
pub const HTTP_FORBIDDEN: &'static str = r#"([\d.]+)\s-\s-\s\[([^\]]*)\]\s\"([^\"]+)\"\s403\s(\d+)$"#;

/// A request answered with status 5xx: address, time, request and size.
pub const HTTP_SERVER_ERROR: &'static str = r#"([\d.]+)\s-\s-\s\[([^\]]*)\]\s\"([^\"]+)\"\s5\d\d\s(\d+)$"#;

/// The patterns of the access log, in the order in which they are tried.
pub open spec fn nginx_patterns() -> Seq<Seq<char>> {
    seq![HTTP_SUCCESS@, HTTP_NOT_FOUND@, HTTP_FORBIDDEN@, HTTP_SERVER_ERROR@]
}

/// The event type that pattern `kind` gives.
pub open spec fn nginx_event_type(kind: int) -> Seq<char> {
    if kind == 0 {
        "http_success"@
    } else if kind == 1 {
        "http_not_found"@
    } else if kind == 2 {
        "http_forbidden"@
    } else {
        "http_server_error"@
    }
}

/// The event that pattern `kind` makes of `line` from the groups `caps`:
/// group 1 is the client address, group 2 the time, group 3 the request and
/// group 4 the size of the answer, read as an `i64`.
pub open spec fn nginx_event(kind: int, caps: CapturesView, line: Seq<char>) -> EventView {
    EventView {
        timestamp: group_or_empty(caps, 2),
        source: "nginx_access"@,
        user: None,
        ip: Some(group_or_empty(caps, 1)),
        event_type: nginx_event_type(kind),
        command: Some(group_or_empty(caps, 3)),
        message: line,
        size: match group(caps, 4) {
            Some(t) => parse_i64_spec(t),
            None => None,
        },
    }
}

/// The event of one access log line, where one of the patterns matches it.
pub open spec fn nginx_line(line: Seq<char>) -> Option<EventView> {
    classify_line(nginx_patterns(), |k: int, c: CapturesView, l: Seq<char>| nginx_event(k, c, l), line)
}

/// The event that pattern `kind` of the access log (0: 2xx, 1: 404,
/// 2: 403, 3: 5xx) makes of `line`, given the groups of its match.
pub fn event_from_captures(kind: usize, caps: &Vec<Option<String>>, line: &str) -> (e: Event)
    requires
        kind < 4,
    ensures
        e@ == nginx_event(kind as int, caps.deep_view(), line@),
{
    let size = match get_group(caps, 4) {
        Some(t) => parse_i64(t.as_str()),
        None => None,
    };
    let event_type = if kind == 0 {
        copy_str("http_success")
    } else if kind == 1 {
        copy_str("http_not_found")
    } else if kind == 2 {
        copy_str("http_forbidden")
    } else {
        copy_str("http_server_error")
    };
    Event {
        timestamp: get_group_or_empty(caps, 2),
        source: copy_str("nginx_access"),
        user: None,
        ip: Some(get_group_or_empty(caps, 1)),
        event_type,
        command: Some(get_group_or_empty(caps, 3)),
        message: copy_str(line),
        size,
    }
}

/// The events of the lines of an nginx access log text, in order.
pub fn parse(contents: &str) -> (events: Vec<Event>)
    ensures
        events_view(events@) == events_of_lines(lines_of(contents@), |l: Seq<char>| nginx_line(l)),
{
    let lines = split_lines(contents);
    let patterns: Vec<&str> = vec![HTTP_SUCCESS, HTTP_NOT_FOUND, HTTP_FORBIDDEN, HTTP_SERVER_ERROR];
    assert(patterns_view(patterns@) =~= nginx_patterns());
    let matched = match_lines(&patterns, &lines);
    let ghost ls = lines.deep_view();
    let ghost classify = |l: Seq<char>| nginx_line(l);
    let mut events: Vec<Event> = Vec::new();
    let mut i: usize = 0;
    assert(ls.take(0) =~= Seq::<Seq<char>>::empty());
    while i < lines.len()
        invariant
            i <= lines@.len(),
            ls == lines.deep_view(),
            ls == lines_of(contents@),
            classify == (|l: Seq<char>| nginx_line(l)),
            matched@.len() == lines@.len(),
            forall|l: int|
                0 <= l < lines@.len() ==> #[trigger] match_view(matched@[l]) == first_match(
                    nginx_patterns(),
                    lines@[l]@,
                ),
            events_view(events@) == events_of_lines(ls.take(i as int), classify),
        decreases lines@.len() - i,
    {
        proof {
            lemma_events_of_lines_step(ls, classify, i as int);
            assert(ls[i as int] == lines@[i as int]@);
        }
        let ghost m = match_view(matched@[i as int]);
        match &matched[i] {
            Some((k, caps)) => {
                assert(m == Some((*k as int, caps.deep_view())));
                assert(*k < 4) by {
                    lemma_first_match_in_range(nginx_patterns(), lines@[i as int]@, 0);
                }
                let e = event_from_captures(*k, caps, lines[i].as_str());
                assert(nginx_line(lines@[i as int]@) == Some(e@));
                assert(classify(ls[i as int]) == Some(e@));
                events.push(e);
                assert(events_view(events@) =~= events_view(events@.drop_last()).push(e@));
            },
            None => {
                assert(nginx_line(lines@[i as int]@) == None::<EventView>);
                assert(classify(ls[i as int]) == None::<EventView>);
            },
        }
        i += 1;
    }
    assert(ls.take(lines@.len() as int) =~= ls);
    events
}

} // verus!
