//! Values grouped under distinct string keys.

use vstd::prelude::*;

verus! {

/// Values grouped under distinct keys: `values[i]` is the group of
/// `keys[i]`. Keys keep the order in which they were first added.
pub struct Groups<T> {
    pub keys: Vec<String>,
    pub values: Vec<Vec<T>>,
}

/// No key occurs twice in `keys`.
pub open spec fn distinct_keys(keys: Seq<Seq<char>>) -> bool {
    forall|i: int, j: int| 0 <= i < keys.len() && 0 <= j < keys.len() && i != j ==> keys[i] != keys[j]
}

/// The items of `items` whose key is `k`, in order.
pub open spec fn items_with_key<V>(items: Seq<V>, keyf: spec_fn(V) -> Option<Seq<char>>, k: Seq<char>) -> Seq<V>
    decreases items.len(),
{
    if items.len() == 0 {
        seq![]
    } else {
        let rest = items_with_key(items.drop_last(), keyf, k);
        if keyf(items.last()) == Some(k) {
            rest.push(items.last())
        } else {
            rest
        }
    }
}

/// The distinct keys of `items`, in the order of their first item.
pub open spec fn keys_in_order<V>(items: Seq<V>, keyf: spec_fn(V) -> Option<Seq<char>>) -> Seq<Seq<char>>
    decreases items.len(),
{
    if items.len() == 0 {
        seq![]
    } else {
        let rest = keys_in_order(items.drop_last(), keyf);
        match keyf(items.last()) {
            Some(k) => if rest.contains(k) {
                rest
            } else {
                rest.push(k)
            },
            None => rest,
        }
    }
}

/// `keys` and `groups` hold `items` grouped by `keyf`: the keys are those
/// of the items that have one, and the group of each key holds the items
/// with that key, in order. Items without a key stand in no group.
pub open spec fn grouped_by<V>(
    keys: Seq<Seq<char>>,
    groups: Seq<Seq<V>>,
    items: Seq<V>,
    keyf: spec_fn(V) -> Option<Seq<char>>,
) -> bool {
    &&& keys.len() == groups.len()
    &&& forall|k: Seq<char>|
        keys.contains(k) <==> exists|j: int| 0 <= j < items.len() && keyf(items[j]) == Some(k)
    &&& forall|p: int| 0 <= p < keys.len() ==> #[trigger] groups[p] == items_with_key(items, keyf, keys[p])
}

/// No item of `items` has key `k`, so its group is empty.
pub proof fn lemma_items_with_key_none<V>(items: Seq<V>, keyf: spec_fn(V) -> Option<Seq<char>>, k: Seq<char>)
    requires
        forall|j: int| 0 <= j < items.len() ==> keyf(items[j]) != Some(k),
    ensures
        items_with_key(items, keyf, k) == Seq::<V>::empty(),
    decreases items.len(),
{
    if items.len() > 0 {
        lemma_items_with_key_none(items.drop_last(), keyf, k);
    }
}

/// One step of grouping: `items[i]` is added to the grouping of the first
/// `i` items as `Groups::push_value` adds it.
pub proof fn lemma_grouped_by_step<V>(
    keys0: Seq<Seq<char>>,
    groups0: Seq<Seq<V>>,
    keys1: Seq<Seq<char>>,
    groups1: Seq<Seq<V>>,
    items: Seq<V>,
    keyf: spec_fn(V) -> Option<Seq<char>>,
    i: int,
)
    requires
        0 <= i < items.len(),
        distinct_keys(keys0),
        grouped_by(keys0, groups0, items.take(i), keyf),
        keyf(items[i]) is None ==> keys1 == keys0 && groups1 == groups0,
        keyf(items[i]) matches Some(k) ==> (keys0.contains(k) ==> {
            let p = keys0.index_of(k);
            &&& keys1 == keys0
            &&& groups1 == groups0.update(p, groups0[p].push(items[i]))
        }),
        keyf(items[i]) matches Some(k) ==> (!keys0.contains(k) ==> {
            &&& keys1 == keys0.push(k)
            &&& groups1 == groups0.push(seq![items[i]])
        }),
    ensures
        grouped_by(keys1, groups1, items.take(i + 1), keyf),
{
    let pre = items.take(i);
    let post = items.take(i + 1);
    let x = items[i];
    assert(post.drop_last() =~= pre);
    assert(post.last() == x);
    assert forall|k: Seq<char>|
        keys1.contains(k) <==> exists|j: int| 0 <= j < post.len() && keyf(post[j]) == Some(k) by {
        if keys1.contains(k) {
            if keys0.contains(k) {
                let j = choose|j: int| 0 <= j < pre.len() && keyf(pre[j]) == Some(k);
                assert(post[j] == pre[j]);
            } else {
                assert(keyf(post[i]) == Some(k));
            }
        }
        if exists|j: int| 0 <= j < post.len() && keyf(post[j]) == Some(k) {
            let j = choose|j: int| 0 <= j < post.len() && keyf(post[j]) == Some(k);
            if j < i {
                assert(pre[j] == post[j]);
                assert(keys0.contains(k));
                if let Some(kx) = keyf(x) {
                    if !keys0.contains(kx) {
                        assert(keys1[keys0.index_of(k)] == k);
                    }
                }
            } else {
                if keys0.contains(k) {
                    assert(keys1[keys0.index_of(k)] == k);
                } else {
                    assert(keys1[keys0.len() as int] == k);
                }
            }
        }
    }
    assert forall|p: int| 0 <= p < keys1.len() implies #[trigger] groups1[p] == items_with_key(
        post,
        keyf,
        keys1[p],
    ) by {
        let k = keys1[p];
        if p < keys0.len() {
            assert(keys1[p] == keys0[p]);
            assert(groups0[p] == items_with_key(pre, keyf, k));
            if let Some(kx) = keyf(x) {
                if keys0.contains(kx) {
                    let q = keys0.index_of(kx);
                    lemma_index_of_distinct(keys0, q);
                    if p == q {
                        assert(k == kx);
                    } else {
                        assert(keys0[q] == kx);
                        assert(k != kx);
                    }
                }
            }
        } else {
            assert(keyf(x) is Some);
            let kx = keyf(x)->0;
            assert(!keys0.contains(kx));
            assert(k == kx);
            assert forall|j: int| 0 <= j < pre.len() implies keyf(pre[j]) != Some(k) by {
                if keyf(pre[j]) == Some(k) {
                    assert(keys0.contains(k));
                }
            }
            lemma_items_with_key_none(pre, keyf, k);
            assert(seq![x] =~= Seq::<V>::empty().push(x));
        }
    }
}

/// The keys of `keys` that `gone` does not hold of, in order.
pub open spec fn keys_except(keys: Seq<Seq<char>>, gone: spec_fn(Seq<char>) -> bool) -> Seq<Seq<char>>
    decreases keys.len(),
{
    if keys.len() == 0 {
        seq![]
    } else {
        let rest = keys_except(keys.drop_last(), gone);
        if gone(keys.last()) {
            rest
        } else {
            rest.push(keys.last())
        }
    }
}

pub proof fn lemma_keys_except_subset(keys: Seq<Seq<char>>, gone: spec_fn(Seq<char>) -> bool)
    requires
        distinct_keys(keys),
    ensures
        distinct_keys(keys_except(keys, gone)),
        forall|k: Seq<char>| keys_except(keys, gone).contains(k) <==> (keys.contains(k) && !gone(k)),
    decreases keys.len(),
{
    if keys.len() > 0 {
        let pre = keys.drop_last();
        let x = keys.last();
        assert(distinct_keys(pre)) by {
            assert forall|a: int, b: int| 0 <= a < pre.len() && 0 <= b < pre.len() && a != b implies pre[a] != pre[b] by {
                assert(pre[a] == keys[a] && pre[b] == keys[b]);
            }
        }
        lemma_keys_except_subset(pre, gone);
        let r0 = keys_except(pre, gone);
        assert(!pre.contains(x)) by {
            if pre.contains(x) {
                let w = choose|w: int| 0 <= w < pre.len() && pre[w] == x;
                assert(keys[w] == keys[keys.len() - 1]);
            }
        }
        assert forall|k: Seq<char>| keys.contains(k) <==> (pre.contains(k) || k == x) by {
            if keys.contains(k) {
                let w = choose|w: int| 0 <= w < keys.len() && keys[w] == k;
                if w < pre.len() {
                    assert(pre[w] == k);
                }
            }
            if pre.contains(k) {
                let w = choose|w: int| 0 <= w < pre.len() && pre[w] == k;
                assert(keys[w] == k);
            }
            assert(keys[keys.len() - 1] == x);
        }
        if !gone(x) {
            let r = r0.push(x);
            assert forall|k: Seq<char>| r.contains(k) <==> (r0.contains(k) || k == x) by {
                if r.contains(k) {
                    let w = choose|w: int| 0 <= w < r.len() && r[w] == k;
                    if w < r0.len() {
                        assert(r0[w] == k);
                    }
                }
                if r0.contains(k) {
                    let w = choose|w: int| 0 <= w < r0.len() && r0[w] == k;
                    assert(r[w] == k);
                }
                assert(r[r0.len() as int] == x);
            }
            assert forall|a: int, b: int| 0 <= a < r.len() && 0 <= b < r.len() && a != b implies r[a] != r[b] by {
                if a < r0.len() && b < r0.len() {
                    assert(r[a] == r0[a] && r[b] == r0[b]);
                } else if a < r0.len() {
                    assert(r0.contains(r[a]));
                } else if b < r0.len() {
                    assert(r0.contains(r[b]));
                }
            }
            assert forall|k: Seq<char>| keys_except(keys, gone).contains(k) <==> (keys.contains(k) && !gone(k)) by {
                assert(r0.contains(k) <==> (pre.contains(k) && !gone(k)));
            }
        } else {
            assert forall|k: Seq<char>| keys_except(keys, gone).contains(k) <==> (keys.contains(k) && !gone(k)) by {
                assert(r0.contains(k) <==> (pre.contains(k) && !gone(k)));
            }
        }
    }
}

pub proof fn lemma_keys_except_same(keys: Seq<Seq<char>>, p: spec_fn(Seq<char>) -> bool, q: spec_fn(Seq<char>) -> bool)
    requires
        forall|k: Seq<char>| #[trigger] p(k) == q(k),
    ensures
        keys_except(keys, p) == keys_except(keys, q),
    decreases keys.len(),
{
    if keys.len() > 0 {
        lemma_keys_except_same(keys.drop_last(), p, q);
    }
}

/// Leaving out one more key `u` takes it out of the keys that were left.
pub proof fn lemma_keys_except_one_more(
    keys: Seq<Seq<char>>,
    p: spec_fn(Seq<char>) -> bool,
    q: spec_fn(Seq<char>) -> bool,
    u: Seq<char>,
)
    requires
        distinct_keys(keys),
        forall|k: Seq<char>| #[trigger] q(k) == (p(k) || k == u),
    ensures
        keys_except(keys, q) == (if keys_except(keys, p).contains(u) {
            keys_except(keys, p).remove(keys_except(keys, p).index_of(u))
        } else {
            keys_except(keys, p)
        }),
    decreases keys.len(),
{
    if keys.len() > 0 {
        let pre = keys.drop_last();
        let x = keys.last();
        assert(distinct_keys(pre)) by {
            assert forall|a: int, b: int| 0 <= a < pre.len() && 0 <= b < pre.len() && a != b implies pre[a] != pre[b] by {
                assert(pre[a] == keys[a] && pre[b] == keys[b]);
            }
        }
        lemma_keys_except_one_more(pre, p, q, u);
        lemma_keys_except_subset(pre, p);
        lemma_keys_except_subset(keys, p);
        let e0 = keys_except(pre, p);
        let e = keys_except(keys, p);
        assert(!pre.contains(x)) by {
            if pre.contains(x) {
                let w = choose|w: int| 0 <= w < pre.len() && pre[w] == x;
                assert(keys[w] == keys[keys.len() - 1]);
            }
        }
        if p(x) {
        } else if x == u {
            assert(!e0.contains(u));
            assert(e == e0.push(u));
            lemma_index_of_distinct(e, e0.len() as int);
            assert(e.contains(u));
            assert(e.remove(e0.len() as int) =~= e0);
        } else {
            assert(e == e0.push(x));
            if e0.contains(u) {
                let i = e0.index_of(u);
                lemma_index_of_distinct(e0, i);
                assert(e[i] == u);
                lemma_index_of_distinct(e, i);
                assert(e.remove(i) =~= e0.remove(i).push(x));
            } else {
                assert(!e.contains(u)) by {
                    if e.contains(u) {
                        let w = choose|w: int| 0 <= w < e.len() && e[w] == u;
                        if w < e0.len() {
                            assert(e0[w] == u);
                        }
                    }
                }
            }
        }
    }
}

/// In keys without repeats, the position of a key is where it stands.
pub proof fn lemma_index_of_distinct(keys: Seq<Seq<char>>, i: int)
    requires
        distinct_keys(keys),
        0 <= i < keys.len(),
    ensures
        keys.contains(keys[i]),
        keys.index_of(keys[i]) == i,
{
    assert(keys.contains(keys[i]));
    let j = keys.index_of(keys[i]);
    assert(0 <= j < keys.len() && keys[j] == keys[i]);
}

impl<T: View> Groups<T> {
    /// The keys, in order.
    pub open spec fn key_seq(&self) -> Seq<Seq<char>> {
        self.keys.deep_view()
    }

    /// The groups, in the order of their keys.
    pub open spec fn group_seq(&self) -> Seq<Seq<T::V>> {
        self.values@.map_values(|g: Vec<T>| g@.map_values(|x: T| x@))
    }

    /// One group per key, and no key twice.
    pub open spec fn wf(&self) -> bool {
        &&& self.keys@.len() == self.values@.len()
        &&& distinct_keys(self.key_seq())
    }

    /// `k` is one of the keys.
    pub open spec fn has_key(&self, k: Seq<char>) -> bool {
        self.key_seq().contains(k)
    }

    /// The group of key `k`, where `k` is a key.
    pub open spec fn group_of(&self, k: Seq<char>) -> Option<Seq<T::V>> {
        if self.has_key(k) {
            Some(self.group_seq()[self.key_seq().index_of(k)])
        } else {
            None
        }
    }

    /// No groups.
    pub fn new() -> (r: Self)
        ensures
            r.wf(),
            r.key_seq() == Seq::<Seq<char>>::empty(),
            r.group_seq() == Seq::<Seq<T::V>>::empty(),
    {
        let r = Groups { keys: Vec::new(), values: Vec::new() };
        assert(r.key_seq() =~= Seq::<Seq<char>>::empty());
        assert(r.group_seq() =~= Seq::<Seq<T::V>>::empty());
        r
    }

    /// The number of keys.
    pub fn len(&self) -> (n: usize)
        requires
            self.wf(),
        ensures
            n == self.key_seq().len(),
            n == self.group_seq().len(),
    {
        self.keys.len()
    }

    /// The position of key `k`, where `k` is a key.
    pub fn find(&self, k: &str) -> (r: Option<usize>)
        requires
            self.wf(),
        ensures
            match r {
                Some(i) => i < self.key_seq().len() && self.key_seq()[i as int] == k@,
                None => !self.has_key(k@),
            },
    {
        let mut i: usize = 0;
        while i < self.keys.len()
            invariant
                i <= self.keys@.len(),
                forall|j: int| 0 <= j < i ==> self.key_seq()[j] != k@,
            decreases self.keys@.len() - i,
        {
            if crate::text::str_eq(self.keys[i].as_str(), k) {
                return Some(i);
            }
            i += 1;
        }
        proof {
            if self.has_key(k@) {
                let j = self.key_seq().index_of(k@);
                assert(self.key_seq()[j] == k@);
            }
        }
        None
    }

    /// The key at position `i`.
    pub fn key_at(&self, i: usize) -> (k: &String)
        requires
            self.wf(),
            i < self.key_seq().len(),
        ensures
            k@ == self.key_seq()[i as int],
    {
        &self.keys[i]
    }

    /// The group at position `i`.
    pub fn group_at(&self, i: usize) -> (g: &Vec<T>)
        requires
            self.wf(),
            i < self.key_seq().len(),
        ensures
            g@.map_values(|x: T| x@) == self.group_seq()[i as int],
    {
        &self.values[i]
    }

    /// Removes key `k` with its group, where `k` is a key.
    pub fn remove(&mut self, k: &str)
        requires
            old(self).wf(),
        ensures
            final(self).wf(),
            old(self).has_key(k@) ==> {
                let i = old(self).key_seq().index_of(k@);
                &&& final(self).key_seq() == old(self).key_seq().remove(i)
                &&& final(self).group_seq() == old(self).group_seq().remove(i)
            },
            !old(self).has_key(k@) ==> final(self).key_seq() == old(self).key_seq()
                && final(self).group_seq() == old(self).group_seq(),
            forall|k2: Seq<char>|
                #![trigger final(self).group_of(k2)]
                final(self).group_of(k2) == (if k2 == k@ {
                    None
                } else {
                    old(self).group_of(k2)
                }),
    {
        let ghost keys0 = self.key_seq();
        let ghost groups0 = self.group_seq();
        match self.find(k) {
            Some(i) => {
                proof {
                    lemma_index_of_distinct(keys0, i as int);
                }
                let ghost vals0 = self.values@;
                let ghost ks0 = self.keys@;
                self.keys.remove(i);
                self.values.remove(i);
                assert(self.key_seq() =~= keys0.remove(i as int));
                assert(self.group_seq() =~= groups0.remove(i as int));
                assert(distinct_keys(self.key_seq())) by {
                    assert forall|a: int, b: int|
                        0 <= a < self.key_seq().len() && 0 <= b < self.key_seq().len() && a
                            != b implies self.key_seq()[a] != self.key_seq()[b] by {
                        let a0 = if a < i { a } else { a + 1 };
                        let b0 = if b < i { b } else { b + 1 };
                        assert(self.key_seq()[a] == keys0[a0]);
                        assert(self.key_seq()[b] == keys0[b0]);
                    }
                }
                assert forall|k2: Seq<char>| #[trigger] self.group_of(k2) == (if k2 == k@ {
                    None
                } else {
                    old(self).group_of(k2)
                }) by {
                    let ks = self.key_seq();
                    if k2 == k@ {
                        if ks.contains(k2) {
                            let a = ks.index_of(k2);
                            let a0 = if a < i { a } else { a + 1 };
                            assert(ks[a] == keys0[a0]);
                            assert(keys0[i as int] == k@);
                        }
                    } else if ks.contains(k2) {
                        let a = ks.index_of(k2);
                        let a0 = if a < i { a } else { a + 1 };
                        assert(ks[a] == keys0[a0]);
                        lemma_index_of_distinct(keys0, a0);
                        lemma_index_of_distinct(ks, a);
                        assert(self.group_seq()[a] == groups0[a0]);
                    } else if keys0.contains(k2) {
                        let a0 = keys0.index_of(k2);
                        assert(a0 != i);
                        let a = if a0 < i { a0 } else { a0 - 1 };
                        assert(ks[a] == k2);
                    }
                }
            },
            None => {},
        }
    }

    /// Adds `v` at the end of the group of `k`; a new key `k` comes last,
    /// with a group of its own.
    pub fn push_value(&mut self, k: String, v: T)
        requires
            old(self).wf(),
        ensures
            final(self).wf(),
            old(self).has_key(k@) ==> {
                let i = old(self).key_seq().index_of(k@);
                &&& final(self).key_seq() == old(self).key_seq()
                &&& final(self).group_seq() == old(self).group_seq().update(
                    i,
                    old(self).group_seq()[i].push(v@),
                )
            },
            !old(self).has_key(k@) ==> {
                &&& final(self).key_seq() == old(self).key_seq().push(k@)
                &&& final(self).group_seq() == old(self).group_seq().push(seq![v@])
            },
            forall|k2: Seq<char>|
                #![trigger final(self).group_of(k2)]
                final(self).group_of(k2) == (if k2 == k@ {
                    Some(
                        match old(self).group_of(k@) {
                            Some(g) => g.push(v@),
                            None => seq![v@],
                        },
                    )
                } else {
                    old(self).group_of(k2)
                }),
    {
        let ghost keys0 = self.key_seq();
        let ghost groups0 = self.group_seq();
        match self.find(k.as_str()) {
            Some(i) => {
                proof {
                    lemma_index_of_distinct(keys0, i as int);
                }
                let ghost g = self.values@[i as int];
                let ghost vals0 = self.values@;
                self.values[i].push(v);
                assert(self.values@[i as int]@ == g@.push(v));
                assert(self.values@ == vals0.update(i as int, self.values@[i as int]));
                assert(self.values@[i as int]@.map_values(|x: T| x@) =~= groups0[i as int].push(
                    v@,
                ));
                assert(self.key_seq() =~= keys0);
                assert(self.group_seq() =~= groups0.update(i as int, groups0[i as int].push(v@)));
                assert forall|k2: Seq<char>| #[trigger] self.group_of(k2) == (if k2 == k@ {
                    Some(
                        match old(self).group_of(k@) {
                            Some(g) => g.push(v@),
                            None => seq![v@],
                        },
                    )
                } else {
                    old(self).group_of(k2)
                }) by {
                    if keys0.contains(k2) {
                        let a = keys0.index_of(k2);
                        lemma_index_of_distinct(keys0, a);
                    }
                }
            },
            None => {
                let mut g: Vec<T> = Vec::new();
                g.push(v);
                assert(g@.map_values(|x: T| x@) =~= seq![v@]);
                self.keys.push(k);
                self.values.push(g);
                assert(self.key_seq() =~= keys0.push(k@));
                assert(self.group_seq() =~= groups0.push(seq![v@]));
                assert(distinct_keys(self.key_seq())) by {
                    assert forall|a: int, b: int|
                        0 <= a < self.key_seq().len() && 0 <= b < self.key_seq().len() && a
                            != b implies self.key_seq()[a] != self.key_seq()[b] by {
                        if a == keys0.len() as int {
                            assert(!keys0.contains(k@));
                            assert(keys0[b] == self.key_seq()[b]);
                        } else if b == keys0.len() as int {
                            assert(!keys0.contains(k@));
                            assert(keys0[a] == self.key_seq()[a]);
                        }
                    }
                }
                assert forall|k2: Seq<char>| #[trigger] self.group_of(k2) == (if k2 == k@ {
                    Some(
                        match old(self).group_of(k@) {
                            Some(g) => g.push(v@),
                            None => seq![v@],
                        },
                    )
                } else {
                    old(self).group_of(k2)
                }) by {
                    let ks = self.key_seq();
                    if k2 == k@ {
                        lemma_index_of_distinct(ks, keys0.len() as int);
                    } else if keys0.contains(k2) {
                        let a = keys0.index_of(k2);
                        lemma_index_of_distinct(keys0, a);
                        assert(ks[a] == k2);
                        lemma_index_of_distinct(ks, a);
                    } else if ks.contains(k2) {
                        let a = ks.index_of(k2);
                        if a < keys0.len() {
                            assert(keys0[a] == k2);
                        }
                    }
                }
            },
        }
    }
}

} // verus!
