//! The order of strings (that of `Ord` on `String`: lexicographic by
//! character) and sorted lists of distinct strings.

use vstd::prelude::*;
use crate::text::chars_of;

verus! {

/// `a` comes before `b`: at the first position where they differ the
/// character of `a` is smaller, or `a` is a proper prefix of `b`.
pub open spec fn lex_lt(a: Seq<char>, b: Seq<char>) -> bool
    decreases a.len(),
{
    if a.len() == 0 {
        b.len() > 0
    } else if b.len() == 0 {
        false
    } else if (a[0] as int) < (b[0] as int) {
        true
    } else if a[0] == b[0] {
        lex_lt(a.drop_first(), b.drop_first())
    } else {
        false
    }
}

/// Each string of `s` comes before all that follow it.
pub open spec fn strictly_sorted(s: Seq<Seq<char>>) -> bool {
    forall|i: int, j: int| 0 <= i < j < s.len() ==> lex_lt(#[trigger] s[i], #[trigger] s[j])
}

/// `r` holds each string of `items` once, in order: the sorted list of
/// the distinct strings of `items`.
pub open spec fn sorted_distinct_of(r: Seq<Seq<char>>, items: Seq<Seq<char>>) -> bool {
    &&& strictly_sorted(r)
    &&& forall|x: Seq<char>| r.contains(x) <==> items.contains(x)
}

pub proof fn lemma_lex_irreflexive(a: Seq<char>)
    ensures
        !lex_lt(a, a),
    decreases a.len(),
{
    if a.len() > 0 {
        lemma_lex_irreflexive(a.drop_first());
    }
}

pub proof fn lemma_lex_total(a: Seq<char>, b: Seq<char>)
    ensures
        a == b || lex_lt(a, b) || lex_lt(b, a),
    decreases a.len(),
{
    if a.len() > 0 && b.len() > 0 && a[0] == b[0] {
        lemma_lex_total(a.drop_first(), b.drop_first());
        if a.drop_first() == b.drop_first() {
            assert(a =~= seq![a[0]] + a.drop_first());
            assert(b =~= seq![b[0]] + b.drop_first());
        }
    } else if a.len() == 0 && b.len() == 0 {
        assert(a =~= b);
    }
}

pub proof fn lemma_lex_transitive(a: Seq<char>, b: Seq<char>, c: Seq<char>)
    requires
        lex_lt(a, b),
        lex_lt(b, c),
    ensures
        lex_lt(a, c),
    decreases a.len(),
{
    if a.len() > 0 && b.len() > 0 && c.len() > 0 && a[0] == b[0] && b[0] == c[0] {
        lemma_lex_transitive(a.drop_first(), b.drop_first(), c.drop_first());
    }
}

pub proof fn lemma_lex_asymmetric(a: Seq<char>, b: Seq<char>)
    requires
        lex_lt(a, b),
    ensures
        !lex_lt(b, a),
{
    if lex_lt(b, a) {
        lemma_lex_transitive(a, b, a);
        lemma_lex_irreflexive(a);
    }
}

/// Whether `a` comes before `b`.
pub fn lex_less(a: &Vec<char>, b: &Vec<char>) -> (r: bool)
    ensures
        r == lex_lt(a@, b@),
{
    let mut i: usize = 0;
    assert(a@.skip(0) =~= a@);
    assert(b@.skip(0) =~= b@);
    assert(a@.take(0) =~= b@.take(0));
    while i < a.len() && i < b.len()
        invariant
            i <= a@.len(),
            i <= b@.len(),
            a@.take(i as int) == b@.take(i as int),
            lex_lt(a@, b@) == lex_lt(a@.skip(i as int), b@.skip(i as int)),
        decreases a@.len() - i,
    {
        let ghost sa = a@.skip(i as int);
        let ghost sb = b@.skip(i as int);
        assert(sa[0] == a@[i as int]);
        assert(sb[0] == b@[i as int]);
        if a[i] < b[i] {
            return true;
        }
        if a[i] != b[i] {
            return false;
        }
        assert(sa.drop_first() =~= a@.skip(i + 1));
        assert(sb.drop_first() =~= b@.skip(i + 1));
        assert(a@.take(i + 1) =~= a@.take(i as int).push(a@[i as int]));
        assert(b@.take(i + 1) =~= b@.take(i as int).push(b@[i as int]));
        i += 1;
    }
    let ghost sa = a@.skip(i as int);
    let ghost sb = b@.skip(i as int);
    assert(sa.len() == 0 || sb.len() == 0);
    i < b.len()
}

/// Adds `x` to the sorted list of distinct strings `out`, where it is not
/// there yet, at its place in the order.
pub fn insert_sorted(out: &mut Vec<String>, x: &String)
    requires
        strictly_sorted(old(out).deep_view()),
    ensures
        strictly_sorted(final(out).deep_view()),
        forall|y: Seq<char>|
            final(out).deep_view().contains(y) <==> (old(out).deep_view().contains(y) || y == x@),
{
    let xc = chars_of(x.as_str());
    let ghost ov = out.deep_view();
    let mut p: usize = 0;
    while p < out.len()
        invariant
            p <= out@.len(),
            ov == out.deep_view(),
            xc@ == x@,
            forall|j: int| 0 <= j < p ==> lex_lt(#[trigger] ov[j], x@),
        ensures
            p <= out@.len(),
            forall|j: int| 0 <= j < p ==> lex_lt(#[trigger] ov[j], x@),
            p < out@.len() ==> !lex_lt(ov[p as int], x@),
        decreases out@.len() - p,
    {
        let oc = chars_of(out[p].as_str());
        assert(oc@ == ov[p as int]);
        if !lex_less(&oc, &xc) {
            break;
        }
        p += 1;
    }
    if p < out.len() {
        let oc = chars_of(out[p].as_str());
        assert(oc@ == ov[p as int]);
        if crate::text::chars_eq(&oc, &xc) {
            assert(ov[p as int] == x@);
            assert(ov.contains(x@));
            return;
        }
    }
    proof {
        if p < ov.len() {
            lemma_lex_total(ov[p as int], x@);
        }
    }
    out.insert(p, x.clone());
    let ghost nv = out.deep_view();
    assert(nv =~= ov.insert(p as int, x@));
    assert forall|i: int, j: int| 0 <= i < j < nv.len() implies lex_lt(#[trigger] nv[i], #[trigger] nv[j]) by {
        if j < p {
            assert(nv[i] == ov[i] && nv[j] == ov[j]);
        } else if j == p {
            assert(nv[j] == x@);
            assert(nv[i] == ov[i]);
        } else if i > p {
            assert(nv[i] == ov[i - 1] && nv[j] == ov[j - 1]);
        } else if i == p {
            assert(nv[i] == x@);
            assert(nv[j] == ov[j - 1]);
            if j - 1 > p {
                lemma_lex_transitive(x@, ov[p as int], ov[j - 1]);
            }
        } else {
            assert(nv[i] == ov[i]);
            assert(nv[j] == ov[j - 1]);
            assert(lex_lt(ov[i], x@));
            if j - 1 > p {
                lemma_lex_transitive(x@, ov[p as int], ov[j - 1]);
            }
            lemma_lex_transitive(ov[i], x@, ov[j - 1]);
        }
    }
    assert forall|y: Seq<char>| nv.contains(y) <==> (ov.contains(y) || y == x@) by {
        if nv.contains(y) {
            let w = choose|w: int| 0 <= w < nv.len() && nv[w] == y;
            if w < p {
                assert(ov[w] == y);
            } else if w > p {
                assert(ov[w - 1] == y);
            }
        }
        if ov.contains(y) {
            let w = choose|w: int| 0 <= w < ov.len() && ov[w] == y;
            if w < p {
                assert(nv[w] == y);
            } else {
                assert(nv[w + 1] == y);
            }
        }
        if y == x@ {
            assert(nv[p as int] == y);
        }
    }
}

/// The distinct strings of `items`, sorted.
pub fn sorted_distinct(items: &Vec<String>) -> (r: Vec<String>)
    ensures
        sorted_distinct_of(r.deep_view(), items.deep_view()),
{
    let mut r: Vec<String> = Vec::new();
    let mut i: usize = 0;
    let ghost iv = items.deep_view();
    while i < items.len()
        invariant
            i <= items@.len(),
            iv == items.deep_view(),
            strictly_sorted(r.deep_view()),
            forall|x: Seq<char>| r.deep_view().contains(x) <==> iv.take(i as int).contains(x),
        decreases items@.len() - i,
    {
        insert_sorted(&mut r, &items[i]);
        assert forall|x: Seq<char>| r.deep_view().contains(x) <==> iv.take(i + 1).contains(x) by {
            let t0 = iv.take(i as int);
            let t1 = iv.take(i + 1);
            if t1.contains(x) {
                let w = choose|w: int| 0 <= w < t1.len() && t1[w] == x;
                if w < i {
                    assert(t0[w] == x);
                }
            }
            if t0.contains(x) {
                let w = choose|w: int| 0 <= w < t0.len() && t0[w] == x;
                assert(t1[w] == x);
            }
            assert(t1[i as int] == items@[i as int]@);
        }
        i += 1;
    }
    assert(iv.take(items@.len() as int) =~= iv);
    r
}

} // verus!
