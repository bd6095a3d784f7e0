//! Pattern matching of log lines through the `regex` crate.

use vstd::prelude::*;
use regex::Regex;

verus! {

/// The capture groups of one match: entry `i` holds the text of group `i`
/// (group 0 is the whole match), or `None` where the group took no part.
pub type CapturesView = Seq<Option<Seq<char>>>;

/// What the `regex` crate finds when `pattern` is matched against
/// `haystack`: the groups of the leftmost-first match, or `None` where the
/// pattern does not compile or does not match.
pub uninterp spec fn regex_captures(pattern: Seq<char>, haystack: Seq<char>) -> Option<
    Seq<Option<Seq<char>>>,
>;

/// `Regex::new` of the `regex` crate compiles `pattern` once, and
/// `Regex::captures` is taken of it on each line; each match is handed back
/// as the texts of its groups (`Captures::iter`, `Match::as_str`). Claimed:
/// one result per line, each equal to `regex_captures` of the pattern and
/// that line. Where `Regex::new` fails, every result is `None`.
#[verifier::external_body]
pub(crate) fn captures_each(pattern: &str, lines: &Vec<String>) -> (r: Vec<
    Option<Vec<Option<String>>>,
>)
    ensures
        r@.len() == lines@.len(),
        forall|i: int|
            0 <= i < lines@.len() ==> #[trigger] r@[i].deep_view() == regex_captures(
                pattern@,
                lines@[i]@,
            ),
{
    match Regex::new(pattern) {
        Ok(re) => lines.iter().map(
            |l| re.captures(l).map(|c| c.iter().map(|m| m.map(|m| m.as_str().to_string())).collect()),
        ).collect(),
        Err(_) => lines.iter().map(|_| None).collect(),
    }
}

/// The text of group `i` of a match, where the group took part.
pub open spec fn group(caps: CapturesView, i: int) -> Option<Seq<char>> {
    if 0 <= i < caps.len() {
        caps[i]
    } else {
        None
    }
}

/// The text of group `i` of a match, or the empty text.
pub open spec fn group_or_empty(caps: CapturesView, i: int) -> Seq<char> {
    match group(caps, i) {
        Some(t) => t,
        None => seq![],
    }
}

/// The text of group `i` of a match, where the group took part.
pub fn get_group(caps: &Vec<Option<String>>, i: usize) -> (r: Option<String>)
    ensures
        r.deep_view() == group(caps.deep_view(), i as int),
{
    if i < caps.len() {
        match &caps[i] {
            Some(s) => Some(s.clone()),
            None => None,
        }
    } else {
        None
    }
}

/// The text of group `i` of a match, or the empty text.
pub fn get_group_or_empty(caps: &Vec<Option<String>>, i: usize) -> (r: String)
    ensures
        r@ == group_or_empty(caps.deep_view(), i as int),
{
    match get_group(caps, i) {
        Some(s) => s,
        None => String::new(),
    }
}

/// The first of `patterns`, from index `k` on, that matches `line`, with its
/// groups.
pub open spec fn first_match_from(patterns: Seq<Seq<char>>, line: Seq<char>, k: int) -> Option<
    (int, CapturesView),
>
    decreases patterns.len() - k,
{
    if k < 0 || k >= patterns.len() {
        None
    } else {
        match regex_captures(patterns[k], line) {
            Some(c) => Some((k, c)),
            None => first_match_from(patterns, line, k + 1),
        }
    }
}

/// The first of `patterns` that matches `line`, with its groups.
pub open spec fn first_match(patterns: Seq<Seq<char>>, line: Seq<char>) -> Option<
    (int, CapturesView),
> {
    first_match_from(patterns, line, 0)
}

/// The first matching pattern lies among the patterns.
pub proof fn lemma_first_match_in_range(patterns: Seq<Seq<char>>, line: Seq<char>, k: int)
    ensures
        first_match_from(patterns, line, k) matches Some((j, _)) ==> k <= j < patterns.len(),
    decreases patterns.len() - k,
{
    if 0 <= k < patterns.len() {
        lemma_first_match_in_range(patterns, line, k + 1);
    }
}

/// The view of a pattern index with the groups of its match.
pub open spec fn match_view(m: Option<(usize, Vec<Option<String>>)>) -> Option<(int, CapturesView)> {
    match m {
        Some((k, c)) => Some((k as int, c.deep_view())),
        None => None,
    }
}

/// The views of a list of patterns.
pub open spec fn patterns_view(patterns: Seq<&str>) -> Seq<Seq<char>> {
    patterns.map_values(|p: &str| p@)
}

fn clone_captures(c: &Vec<Option<String>>) -> (r: Vec<Option<String>>)
    ensures
        r.deep_view() == c.deep_view(),
{
    let mut r: Vec<Option<String>> = Vec::new();
    let mut i: usize = 0;
    while i < c.len()
        invariant
            i <= c@.len(),
            r.deep_view() == c.deep_view().take(i as int),
        decreases c@.len() - i,
    {
        let ghost old_r = r.deep_view();
        let g = get_group(c, i);
        r.push(g);
        assert(r.deep_view() =~= old_r.push(c@[i as int].deep_view()));
        assert(r.deep_view() =~= c.deep_view().take(i + 1));
        i += 1;
    }
    assert(c.deep_view().take(c@.len() as int) =~= c.deep_view());
    r
}

/// For each line, the first of `patterns` that matches it, with the groups
/// of that match.
pub fn match_lines(patterns: &Vec<&str>, lines: &Vec<String>) -> (r: Vec<
    Option<(usize, Vec<Option<String>>)>,
>)
    ensures
        r@.len() == lines@.len(),
        forall|i: int|
            0 <= i < lines@.len() ==> #[trigger] match_view(r@[i]) == first_match(
                patterns_view(patterns@),
                lines@[i]@,
            ),
{
    let ghost pv = patterns_view(patterns@);
    let mut table: Vec<Vec<Option<Vec<Option<String>>>>> = Vec::new();
    let mut k: usize = 0;
    while k < patterns.len()
        invariant
            k <= patterns@.len(),
            pv == patterns_view(patterns@),
            table@.len() == k,
            forall|j: int, i: int|
                0 <= j < k && 0 <= i < lines@.len() ==> #[trigger] table@[j]@[i].deep_view()
                    == regex_captures(pv[j], lines@[i]@) && table@[j]@.len() == lines@.len(),
            forall|j: int| 0 <= j < k ==> #[trigger] table@[j]@.len() == lines@.len(),
        decreases patterns@.len() - k,
    {
        let caps = captures_each(patterns[k], lines);
        table.push(caps);
        k += 1;
    }
    let mut r: Vec<Option<(usize, Vec<Option<String>>)>> = Vec::new();
    let mut i: usize = 0;
    while i < lines.len()
        invariant
            i <= lines@.len(),
            pv == patterns_view(patterns@),
            table@.len() == patterns@.len(),
            forall|j: int, l: int|
                0 <= j < patterns@.len() && 0 <= l < lines@.len() ==> #[trigger] table@[j]@[l].deep_view()
                    == regex_captures(pv[j], lines@[l]@),
            forall|j: int| 0 <= j < patterns@.len() ==> #[trigger] table@[j]@.len() == lines@.len(),
            r@.len() == i,
            forall|l: int| 0 <= l < i ==> #[trigger] match_view(r@[l]) == first_match(pv, lines@[l]@),
        decreases lines@.len() - i,
    {
        let mut found: Option<(usize, Vec<Option<String>>)> = None;
        let mut k: usize = patterns.len();
        assert(first_match_from(pv, lines@[i as int]@, k as int) == None::<(int, CapturesView)>);
        while k > 0
            invariant
                k <= patterns@.len(),
                i < lines@.len(),
                pv == patterns_view(patterns@),
                table@.len() == patterns@.len(),
                forall|j: int, l: int|
                    0 <= j < patterns@.len() && 0 <= l < lines@.len() ==> #[trigger] table@[j]@[l].deep_view()
                        == regex_captures(pv[j], lines@[l]@),
                forall|j: int| 0 <= j < patterns@.len() ==> #[trigger] table@[j]@.len() == lines@.len(),
                match_view(found) == first_match_from(pv, lines@[i as int]@, k as int),
            decreases k,
        {
            k -= 1;
            let ghost cv = table@[k as int]@[i as int].deep_view();
            assert(cv == regex_captures(pv[k as int], lines@[i as int]@));
            match &table[k][i] {
                Some(c) => {
                    found = Some((k, clone_captures(c)));
                },
                None => {},
            }
        }
        r.push(found);
        i += 1;
    }
    r
}

} // verus!
