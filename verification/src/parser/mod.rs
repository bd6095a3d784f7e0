//! Parsers for the four log formats. Each log line is matched against the
//! patterns of its format in order; the first pattern that matches makes
//! the line into one event, and a line that no pattern matches is skipped.

pub mod auth;
pub mod nginx;
pub mod syslog;
pub mod ufw;

use vstd::prelude::*;
use crate::matching::{CapturesView, first_match};
use crate::models::event::EventView;

verus! {

/// The events of `lines`, in order: one for each line that `classify` makes
/// into an event.
pub open spec fn events_of_lines(
    lines: Seq<Seq<char>>,
    classify: spec_fn(Seq<char>) -> Option<EventView>,
) -> Seq<EventView>
    decreases lines.len(),
{
    if lines.len() == 0 {
        seq![]
    } else {
        let rest = events_of_lines(lines.drop_last(), classify);
        match classify(lines.last()) {
            Some(e) => rest.push(e),
            None => rest,
        }
    }
}

/// The event that the patterns of a format make of `line`, where one of them
/// matches: `build` makes the event from the index of the first matching
/// pattern and its groups.
pub open spec fn classify_line(
    patterns: Seq<Seq<char>>,
    build: spec_fn(int, CapturesView, Seq<char>) -> EventView,
    line: Seq<char>,
) -> Option<EventView> {
    match first_match(patterns, line) {
        Some((k, c)) => Some(build(k, c, line)),
        None => None,
    }
}

pub proof fn lemma_events_of_lines_step(
    lines: Seq<Seq<char>>,
    classify: spec_fn(Seq<char>) -> Option<EventView>,
    i: int,
)
    requires
        0 <= i < lines.len(),
    ensures
        events_of_lines(lines.take(i + 1), classify) == (match classify(lines[i]) {
            Some(e) => events_of_lines(lines.take(i), classify).push(e),
            None => events_of_lines(lines.take(i), classify),
        }),
{
    assert(lines.take(i + 1).drop_last() =~= lines.take(i));
}

} // verus!
