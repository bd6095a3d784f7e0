//! Parser for `ufw.log`: connections that the firewall blocked.

use vstd::prelude::*;
use crate::matching::{
    CapturesView, first_match, get_group, get_group_or_empty, group, group_or_empty,
    lemma_first_match_in_range, match_lines, match_view, patterns_view,
};
use crate::models::event::{Event, EventView, events_view};
use crate::parser::{classify_line, events_of_lines, lemma_events_of_lines_step};
use crate::text::{copy_str, lines_of, split_lines};

verus! {

/// A blocked connection: timestamp and source address.
pub const FIREWALL_BLOCK: &'static str = r"(\w+\s+\d+\s+\d+:\d+:\d+).*SRC=([\d.]+)\s+DST=";

/// The patterns of `ufw.log`.
pub open spec fn ufw_patterns() -> Seq<Seq<char>> {
    seq![FIREWALL_BLOCK@]
}

/// The event that the pattern makes of `line` from the groups `caps`:
/// group 1 is the timestamp and group 2 the source address.
pub open spec fn ufw_event(kind: int, caps: CapturesView, line: Seq<char>) -> EventView {
    EventView {
        timestamp: group_or_empty(caps, 1),
        source: "ufw"@,
        user: None,
        ip: group(caps, 2),
        event_type: "firewall_block"@,
        command: None,
        message: line,
        size: None,
    }
}

/// The event of one `ufw.log` line, where the pattern matches it.
pub open spec fn ufw_line(line: Seq<char>) -> Option<EventView> {
    classify_line(ufw_patterns(), |k: int, c: CapturesView, l: Seq<char>| ufw_event(k, c, l), line)
}

/// The event that the pattern of `ufw.log` makes of `line`, given the
/// groups of its match.
pub fn event_from_captures(kind: usize, caps: &Vec<Option<String>>, line: &str) -> (e: Event)
    requires
        kind < 1,
    ensures
        e@ == ufw_event(kind as int, caps.deep_view(), line@),
{
    Event {
        timestamp: get_group_or_empty(caps, 1),
        source: copy_str("ufw"),
        user: None,
        ip: get_group(caps, 2),
        event_type: copy_str("firewall_block"),
        command: None,
        message: copy_str(line),
        size: None,
    }
}

/// The events of the lines of a `ufw.log` text, in order.
pub fn parse(contents: &str) -> (events: Vec<Event>)
    ensures
        events_view(events@) == events_of_lines(lines_of(contents@), |l: Seq<char>| ufw_line(l)),
{
    let lines = split_lines(contents);
    let patterns: Vec<&str> = vec![FIREWALL_BLOCK];
    assert(patterns_view(patterns@) =~= ufw_patterns());
    let matched = match_lines(&patterns, &lines);
    let ghost ls = lines.deep_view();
    let ghost classify = |l: Seq<char>| ufw_line(l);
    let mut events: Vec<Event> = Vec::new();
    let mut i: usize = 0;
    assert(ls.take(0) =~= Seq::<Seq<char>>::empty());
    while i < lines.len()
        invariant
            i <= lines@.len(),
            ls == lines.deep_view(),
            ls == lines_of(contents@),
            classify == (|l: Seq<char>| ufw_line(l)),
            matched@.len() == lines@.len(),
            forall|l: int|
                0 <= l < lines@.len() ==> #[trigger] match_view(matched@[l]) == first_match(
                    ufw_patterns(),
                    lines@[l]@,
                ),
            events_view(events@) == events_of_lines(ls.take(i as int), classify),
        decreases lines@.len() - i,
    {
        proof {
            lemma_events_of_lines_step(ls, classify, i as int);
            assert(ls[i as int] == lines@[i as int]@);
        }
        let ghost m = match_view(matched@[i as int]);
        match &matched[i] {
            Some((k, caps)) => {
                assert(m == Some((*k as int, caps.deep_view())));
                assert(*k < 1) by {
                    lemma_first_match_in_range(ufw_patterns(), lines@[i as int]@, 0);
                }
                let e = event_from_captures(*k, caps, lines[i].as_str());
                assert(ufw_line(lines@[i as int]@) == Some(e@));
                assert(classify(ls[i as int]) == Some(e@));
                events.push(e);
                assert(events_view(events@) =~= events_view(events@.drop_last()).push(e@));
            },
            None => {
                assert(ufw_line(lines@[i as int]@) == None::<EventView>);
                assert(classify(ls[i as int]) == None::<EventView>);
            },
        }
        i += 1;
    }
    assert(ls.take(lines@.len() as int) =~= ls);
    events
}

} // verus!
