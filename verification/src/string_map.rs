//! Maps with string keys, held in key order.
use vstd::prelude::*;

use crate::seqs;
use crate::text;

verus! {

/// A map from strings to `V`. Its entries are held in strictly increasing key order.
#[derive(Debug, PartialEq, Eq)]
pub struct StringMap<V> {
    entries: Vec<(String, V)>,
}

/// Whether the keys of `p` strictly increase.
pub open spec fn strictly_sorted<V>(p: Seq<(Seq<char>, V)>) -> bool {
    forall|i: int, j: int| 0 <= i < j < p.len() ==> text::str_lt(#[trigger] p[i].0, #[trigger] p[j].0)
}

/// Whether `p` has an entry with key `k`.
pub open spec fn has_key<V>(p: Seq<(Seq<char>, V)>, k: Seq<char>) -> bool {
    exists|i: int| 0 <= i < p.len() && #[trigger] p[i].0 == k
}

/// The map that the entries `p` stand for.
pub open spec fn pairs_map<V>(p: Seq<(Seq<char>, V)>) -> Map<Seq<char>, V> {
    Map::new(
        |k: Seq<char>| has_key(p, k),
        |k: Seq<char>| p[place(p, k)].1,
    )
}

/// A place in `p` with key `k`.
pub open spec fn place<V>(p: Seq<(Seq<char>, V)>, k: Seq<char>) -> int {
    choose|i: int| 0 <= i < p.len() && #[trigger] p[i].0 == k
}

/// In sorted entries a key stands at one place only.
pub proof fn lemma_unique<V>(p: Seq<(Seq<char>, V)>, i: int, j: int)
    requires
        strictly_sorted(p),
        0 <= i < p.len(),
        0 <= j < p.len(),
        p[i].0 == p[j].0,
    ensures
        i == j,
{
    text::lemma_str_lt_irreflexive(p[i].0);
}

/// What the map of sorted entries holds under the key of an entry.
pub proof fn lemma_pairs_map_at<V>(p: Seq<(Seq<char>, V)>, i: int)
    requires
        strictly_sorted(p),
        0 <= i < p.len(),
    ensures
        pairs_map(p).contains_key(p[i].0),
        pairs_map(p)[p[i].0] == p[i].1,
{
    let k = p[i].0;
    assert(has_key(p, k));
    lemma_unique(p, place(p, k), i);
}

/// The domain of the map of sorted entries is finite and has as many keys as there are entries.
pub proof fn lemma_pairs_map_len<V>(p: Seq<(Seq<char>, V)>)
    requires
        strictly_sorted(p),
    ensures
        pairs_map(p).dom().finite(),
        pairs_map(p).dom().len() == p.len(),
    decreases p.len(),
{
    if p.len() == 0 {
        assert(pairs_map(p).dom() =~= Set::empty());
    } else {
        let q = p.drop_last();
        let k = p.last().0;
        lemma_pairs_map_len(q);
        assert(!has_key(q, k)) by {
            if has_key(q, k) {
                let i = choose|i: int| 0 <= i < q.len() && #[trigger] q[i].0 == k;
                lemma_unique(p, i, p.len() - 1);
            }
        }
        assert(pairs_map(p).dom() =~= pairs_map(q).dom().insert(k)) by {
            assert forall|x: Seq<char>| has_key(p, x) <==> (has_key(q, x) || x == k) by {
                if has_key(p, x) {
                    let i = choose|i: int| 0 <= i < p.len() && #[trigger] p[i].0 == x;
                    if i < q.len() {
                        assert(q[i].0 == x);
                    }
                }
                if has_key(q, x) {
                    let i = choose|i: int| 0 <= i < q.len() && #[trigger] q[i].0 == x;
                    assert(p[i].0 == x);
                }
                assert(p[p.len() - 1].0 == k);
            }
        }
    }
}

/// Whether the strings of `k` strictly increase.
pub open spec fn increasing(k: Seq<Seq<char>>) -> bool {
    forall|i: int, j: int| 0 <= i < j < k.len() ==> text::str_lt(#[trigger] k[i], #[trigger] k[j])
}

/// The strings of a finite set in increasing order.
pub open spec fn sorted_keys(keys: Set<Seq<char>>) -> Seq<Seq<char>> {
    choose|k: Seq<Seq<char>>| increasing(k) && k.to_set() == keys
}

/// There is one increasing sequence with given elements.
pub proof fn lemma_increasing_unique(a: Seq<Seq<char>>, b: Seq<Seq<char>>)
    requires
        increasing(a),
        increasing(b),
        a.to_set() == b.to_set(),
    ensures
        a == b,
    decreases a.len(),
{
    assert forall|x: Seq<char>| a.contains(x) == b.contains(x) by {
        assert(a.to_set().contains(x) == a.contains(x));
        assert(b.to_set().contains(x) == b.contains(x));
    }
    if a.len() == 0 {
        if b.len() > 0 {
            assert(b.contains(b[0]));
        }
        assert(a =~= b);
    } else {
        assert(a.contains(a.last()));
        assert(b.len() > 0);
        assert(b.contains(b.last()));
        let i = choose|i: int| 0 <= i < b.len() && b[i] == a.last();
        let j = choose|j: int| 0 <= j < a.len() && a[j] == b.last();
        if i < b.len() - 1 && j < a.len() - 1 {
            assert(text::str_lt(b[i], b[b.len() - 1]));
            assert(text::str_lt(a[j], a[a.len() - 1]));
            text::lemma_str_lt_transitive(a.last(), b.last(), a.last());
            text::lemma_str_lt_irreflexive(a.last());
        }
        assert(a.last() == b.last()) by {
            if i < b.len() - 1 {
                assert(text::str_lt(a.last(), b.last()));
                assert(j == a.len() - 1);
            }
        }
        let a0 = a.drop_last();
        let b0 = b.drop_last();
        assert forall|x: Seq<char>| a0.to_set().contains(x) == b0.to_set().contains(x) by {
            assert(a0.to_set().contains(x) == a0.contains(x));
            assert(b0.to_set().contains(x) == b0.contains(x));
            if a0.contains(x) {
                let k = choose|k: int| 0 <= k < a0.len() && a0[k] == x;
                assert(a[k] == x);
                assert(text::str_lt(a[k], a[a.len() - 1]));
                text::lemma_str_lt_irreflexive(x);
                assert(a.contains(x));
                let l = choose|l: int| 0 <= l < b.len() && b[l] == x;
                assert(b0[l] == x);
            }
            if b0.contains(x) {
                let k = choose|k: int| 0 <= k < b0.len() && b0[k] == x;
                assert(b[k] == x);
                assert(text::str_lt(b[k], b[b.len() - 1]));
                text::lemma_str_lt_irreflexive(x);
                assert(b.contains(x));
                let l = choose|l: int| 0 <= l < a.len() && a[l] == x;
                assert(a0[l] == x);
            }
        }
        assert(a0.to_set() =~= b0.to_set());
        assert forall|p: int, q: int| 0 <= p < q < a0.len() implies text::str_lt(
            #[trigger] a0[p],
            #[trigger] a0[q],
        ) by {
            assert(text::str_lt(a[p], a[q]));
        }
        assert forall|p: int, q: int| 0 <= p < q < b0.len() implies text::str_lt(
            #[trigger] b0[p],
            #[trigger] b0[q],
        ) by {
            assert(text::str_lt(b[p], b[q]));
        }
        lemma_increasing_unique(a0, b0);
        assert(a =~= a0.push(a.last()));
        assert(b =~= b0.push(b.last()));
    }
}

/// An increasing sequence with the elements of `keys` is [`sorted_keys`] of them.
pub proof fn lemma_sorted_keys(k: Seq<Seq<char>>, keys: Set<Seq<char>>)
    requires
        increasing(k),
        k.to_set() == keys,
    ensures
        sorted_keys(keys) == k,
{
    let c = sorted_keys(keys);
    assert(increasing(c) && c.to_set() == keys);
    lemma_increasing_unique(c, k);
}

/// What is kept of an increasing sequence is increasing.
pub proof fn lemma_filter_increasing(k: Seq<Seq<char>>, p: spec_fn(Seq<char>) -> bool)
    requires
        increasing(k),
    ensures
        increasing(k.filter(p)),
    decreases k.len(),
{
    reveal(Seq::filter);
    if k.len() > 0 {
        let t = k.drop_last();
        assert forall|i: int, j: int| 0 <= i < j < t.len() implies text::str_lt(
            #[trigger] t[i],
            #[trigger] t[j],
        ) by {
            assert(text::str_lt(k[i], k[j]));
        }
        lemma_filter_increasing(t, p);
        let f = t.filter(p);
        assert forall|i: int| 0 <= i < f.len() implies text::str_lt(#[trigger] f[i], k.last()) by {
            crate::seqs::lemma_filter_to_set(t, p);
            assert(f.contains(f[i]));
            assert(f.to_set().contains(f[i]));
            assert(t.to_set().contains(f[i]));
            let j = choose|j: int| 0 <= j < t.len() && t[j] == f[i];
            assert(text::str_lt(k[j], k[k.len() - 1]));
        }
    }
}

/// No string comes twice in an increasing sequence.
pub proof fn lemma_increasing_distinct(k: Seq<Seq<char>>)
    requires
        increasing(k),
    ensures
        k.no_duplicates(),
{
    assert forall|i: int, j: int| 0 <= i < j < k.len() implies k[i] != k[j] by {
        assert(text::str_lt(k[i], k[j]));
        text::lemma_str_lt_irreflexive(k[i]);
    }
}

/// A string goes into an increasing sequence between what is less and what is greater.
proof fn lemma_insert_increasing(k: Seq<Seq<char>>, a: Seq<char>)
    requires
        increasing(k),
        !k.contains(a),
    ensures
        exists|r: Seq<Seq<char>>| increasing(r) && #[trigger] r.to_set() == k.to_set().insert(a),
{
    let below = |x: Seq<char>| text::str_lt(x, a);
    let above = |x: Seq<char>| text::str_lt(a, x);
    let lo = k.filter(below);
    let hi = k.filter(above);
    lemma_filter_increasing(k, below);
    lemma_filter_increasing(k, above);
    crate::seqs::lemma_filter_to_set(k, below);
    crate::seqs::lemma_filter_to_set(k, above);
    let r = lo.push(a) + hi;
    assert forall|i: int| 0 <= i < lo.len() implies text::str_lt(#[trigger] lo[i], a) by {
        assert(lo.to_set().contains(lo[i]));
    }
    assert forall|i: int| 0 <= i < hi.len() implies text::str_lt(a, #[trigger] hi[i]) by {
        assert(hi.to_set().contains(hi[i]));
    }
    assert forall|i: int, j: int| 0 <= i < j < r.len() implies text::str_lt(
        #[trigger] r[i],
        #[trigger] r[j],
    ) by {
        let n = lo.len() as int;
        if j < n {
            assert(text::str_lt(lo[i], lo[j]));
        } else if i > n {
            assert(text::str_lt(hi[i - n - 1], hi[j - n - 1]));
        } else if i < n && j > n {
            text::lemma_str_lt_transitive(lo[i], a, hi[j - n - 1]);
        }
    }
    assert forall|x: Seq<char>| r.to_set().contains(x) == k.to_set().insert(a).contains(x) by {
        text::lemma_str_lt_total(x, a);
        if r.contains(x) {
            let i = choose|i: int| 0 <= i < r.len() && r[i] == x;
            if i < lo.len() {
                assert(lo.to_set().contains(lo[i]));
            } else if i > lo.len() {
                assert(hi.to_set().contains(hi[i - lo.len() - 1]));
            }
        }
        if x == a {
            assert(r[lo.len() as int] == a);
        } else if k.contains(x) {
            assert(k.to_set().contains(x));
            if text::str_lt(x, a) {
                assert(lo.to_set().contains(x));
                let i = choose|i: int| 0 <= i < lo.len() && lo[i] == x;
                assert(r[i] == x);
            } else {
                assert(hi.to_set().contains(x));
                let i = choose|i: int| 0 <= i < hi.len() && hi[i] == x;
                assert(r[lo.len() + 1 + i] == x);
            }
        }
    }
    assert(r.to_set() =~= k.to_set().insert(a));
}

/// A finite set has its strings in increasing order.
pub proof fn lemma_sorted_keys_exist(keys: Set<Seq<char>>)
    requires
        keys.finite(),
    ensures
        increasing(sorted_keys(keys)),
        sorted_keys(keys).to_set() == keys,
    decreases keys.len(),
{
    if keys.len() == 0 {
        let k = Seq::<Seq<char>>::empty();
        assert(k.to_set() =~= keys);
        assert(increasing(k));
    } else {
        let a = keys.choose();
        let k = sorted_keys(keys.remove(a));
        lemma_sorted_keys_exist(keys.remove(a));
        assert(!k.to_set().contains(a));
        lemma_insert_increasing(k, a);
        assert(k.to_set().insert(a) =~= keys);
    }
}

/// The keys of sorted entries are increasing, and are those of the map.
pub proof fn lemma_pairs_keys<V>(p: Seq<(Seq<char>, V)>)
    requires
        strictly_sorted(p),
    ensures
        increasing(p.map_values(|e: (Seq<char>, V)| e.0)),
        p.map_values(|e: (Seq<char>, V)| e.0).to_set() == pairs_map(p).dom(),
{
    let k = p.map_values(|e: (Seq<char>, V)| e.0);
    assert forall|i: int, j: int| 0 <= i < j < k.len() implies text::str_lt(
        #[trigger] k[i],
        #[trigger] k[j],
    ) by {
        assert(text::str_lt(p[i].0, p[j].0));
    }
    assert forall|x: Seq<char>| k.to_set().contains(x) <==> pairs_map(p).dom().contains(x) by {
        assert(k.to_set().contains(x) == k.contains(x));
        if k.contains(x) {
            let i = choose|i: int| 0 <= i < k.len() && k[i] == x;
            assert(p[i].0 == x);
        }
        if has_key(p, x) {
            let i = choose|i: int| 0 <= i < p.len() && #[trigger] p[i].0 == x;
            assert(k[i] == x);
        }
    }
    assert(k.to_set() =~= pairs_map(p).dom());
}

/// Replacing the value of an entry updates the map at its key.
proof fn lemma_replace<V>(p: Seq<(Seq<char>, V)>, at: int, k: Seq<char>, v: V)
    requires
        strictly_sorted(p),
        0 <= at < p.len(),
        p[at].0 == k,
    ensures
        strictly_sorted(p.update(at, (k, v))),
        pairs_map(p.update(at, (k, v))) == pairs_map(p).insert(k, v),
{
    let q = p.update(at, (k, v));
    assert forall|i: int| 0 <= i < p.len() implies #[trigger] q[i].0 == p[i].0 by {}
    lemma_same_map(q, pairs_map(p).insert(k, v), p);
}

/// The map of `q` is `m` if `m` agrees with each entry of `q` and has no other key.
proof fn lemma_map_is<V>(q: Seq<(Seq<char>, V)>, m: Map<Seq<char>, V>)
    requires
        strictly_sorted(q),
        forall|i: int| 0 <= i < q.len() ==> m.contains_key(#[trigger] q[i].0) && m[q[i].0] == q[i].1,
        forall|k: Seq<char>| m.contains_key(k) ==> has_key(q, k),
    ensures
        pairs_map(q) == m,
{
    assert forall|k: Seq<char>| pairs_map(q).contains_key(k) == m.contains_key(k) by {
        if has_key(q, k) {
            let i = choose|i: int| 0 <= i < q.len() && #[trigger] q[i].0 == k;
            assert(m.contains_key(q[i].0));
        }
    }
    assert forall|k: Seq<char>| pairs_map(q).contains_key(k) implies pairs_map(q)[k] == m[k] by {
        let i = choose|i: int| 0 <= i < q.len() && #[trigger] q[i].0 == k;
        lemma_pairs_map_at(q, i);
    }
    assert(pairs_map(q) =~= m);
}

proof fn lemma_same_map<V>(
    q: Seq<(Seq<char>, V)>,
    m: Map<Seq<char>, V>,
    p: Seq<(Seq<char>, V)>,
)
    requires
        strictly_sorted(p),
        p.len() == q.len(),
        forall|i: int| 0 <= i < p.len() ==> #[trigger] q[i].0 == p[i].0,
        exists|at: int| #![trigger p[at]]
            0 <= at < p.len() && m == pairs_map(p).insert(p[at].0, q[at].1) && forall|i: int|
                0 <= i < p.len() && i != at ==> #[trigger] q[i] == p[i],
    ensures
        strictly_sorted(q),
        pairs_map(q) == m,
{
    let at = choose|at: int| #![trigger p[at]]
        0 <= at < p.len() && m == pairs_map(p).insert(p[at].0, q[at].1) && forall|i: int|
            0 <= i < p.len() && i != at ==> #[trigger] q[i] == p[i];
    assert forall|i: int, j: int| 0 <= i < j < q.len() implies text::str_lt(
        #[trigger] q[i].0,
        #[trigger] q[j].0,
    ) by {
        assert(text::str_lt(p[i].0, p[j].0));
    }
    assert forall|i: int| 0 <= i < q.len() implies m.contains_key(#[trigger] q[i].0) && m[q[i].0]
        == q[i].1 by {
        lemma_pairs_map_at(p, i);
        if i != at {
            if p[i].0 == p[at].0 {
                lemma_unique(p, i, at);
            }
        }
    }
    assert forall|k: Seq<char>| m.contains_key(k) implies has_key(q, k) by {
        if k == p[at].0 {
            assert(q[at].0 == k);
        } else {
            let i = choose|i: int| 0 <= i < p.len() && #[trigger] p[i].0 == k;
            assert(q[i].0 == k);
        }
    }
    lemma_map_is(q, m);
}

/// Inserting an entry with a new key, in its place, adds the key to the map.
proof fn lemma_insert<V>(p: Seq<(Seq<char>, V)>, at: int, k: Seq<char>, v: V)
    requires
        strictly_sorted(p),
        0 <= at <= p.len(),
        forall|i: int| 0 <= i < at ==> text::str_lt(#[trigger] p[i].0, k),
        forall|i: int| at <= i < p.len() ==> text::str_lt(k, #[trigger] p[i].0),
    ensures
        strictly_sorted(p.insert(at, (k, v))),
        pairs_map(p.insert(at, (k, v))) == pairs_map(p).insert(k, v),
        !has_key(p, k),
{
    let q = p.insert(at, (k, v));
    text::lemma_str_lt_irreflexive(k);
    let m = pairs_map(p).insert(k, v);
    assert forall|i: int| 0 <= i < q.len() implies m.contains_key(#[trigger] q[i].0) && m[q[i].0]
        == q[i].1 by {
        if i < at {
            lemma_pairs_map_at(p, i);
            assert(q[i] == p[i]);
        } else if i > at {
            lemma_pairs_map_at(p, i - 1);
            assert(q[i] == p[i - 1]);
        }
    }
    assert forall|x: Seq<char>| m.contains_key(x) implies has_key(q, x) by {
        if x == k {
            assert(q[at].0 == k);
        } else {
            let i = choose|i: int| 0 <= i < p.len() && #[trigger] p[i].0 == x;
            if i < at {
                assert(q[i].0 == x);
            } else {
                assert(q[i + 1].0 == x);
            }
        }
    }
    lemma_map_is(q, m);
}

/// Removing an entry removes its key from the map.
proof fn lemma_remove<V>(p: Seq<(Seq<char>, V)>, at: int)
    requires
        strictly_sorted(p),
        0 <= at < p.len(),
    ensures
        strictly_sorted(p.remove(at)),
        pairs_map(p.remove(at)) == pairs_map(p).remove(p[at].0),
{
    let q = p.remove(at);
    let m = pairs_map(p).remove(p[at].0);
    assert forall|i: int| 0 <= i < q.len() implies m.contains_key(#[trigger] q[i].0) && m[q[i].0]
        == q[i].1 by {
        let j = if i < at { i } else { i + 1 };
        assert(q[i] == p[j]);
        lemma_pairs_map_at(p, j);
        if p[j].0 == p[at].0 {
            lemma_unique(p, j, at);
        }
    }
    assert forall|x: Seq<char>| m.contains_key(x) implies has_key(q, x) by {
        let i = choose|i: int| 0 <= i < p.len() && #[trigger] p[i].0 == x;
        if i < at {
            assert(q[i].0 == x);
        } else {
            assert(q[i - 1].0 == x);
        }
    }
    lemma_map_is(q, m);
}

impl<V> View for StringMap<V> {
    type V = Map<Seq<char>, V>;

    open spec fn view(&self) -> Map<Seq<char>, V> {
        pairs_map(self.pairs())
    }
}

impl<V: Clone> Clone for StringMap<V> {
    fn clone(&self) -> (r: Self)
        ensures
            r.pairs().len() == self.pairs().len(),
            forall|i: int|
                0 <= i < r.pairs().len() ==> (#[trigger] r.pairs()[i]).0 == self.pairs()[i].0
                    && cloned(self.pairs()[i].1, r.pairs()[i].1),
    {
        proof {
            use_type_invariant(self);
        }
        let ghost p = self.pairs();
        let mut entries: Vec<(String, V)> = Vec::new();
        let mut i: usize = 0;
        while i < self.entries.len()
            invariant
                i <= self.entries@.len(),
                p == self.pairs(),
                entries@.len() == i,
                forall|j: int|
                    0 <= j < i ==> (#[trigger] entries@[j]).0@ == p[j].0 && cloned(
                        p[j].1,
                        entries@[j].1,
                    ),
            decreases self.entries@.len() - i,
        {
            let entry = &self.entries[i];
            entries.push((entry.0.clone(), entry.1.clone()));
            i += 1;
        }
        proof {
            let q = pairs_of(entries@);
            assert forall|a: int, b: int| 0 <= a < b < q.len() implies text::str_lt(
                #[trigger] q[a].0,
                #[trigger] q[b].0,
            ) by {
                assert(q[a].0 == p[a].0 && q[b].0 == p[b].0);
            }
        }
        StringMap { entries }
    }
}

impl<V> Default for StringMap<V> {
    fn default() -> (m: Self)
        ensures
            m@ == Map::<Seq<char>, V>::empty(),
            m.pairs() == Seq::<(Seq<char>, V)>::empty(),
    {
        Self::new()
    }
}

impl<V> StringMap<V> {
    /// The entries in key order.
    pub closed spec fn pairs(&self) -> Seq<(Seq<char>, V)> {
        pairs_of(self.entries@)
    }

    #[verifier::type_invariant]
    spec fn in_order(self) -> bool {
        strictly_sorted(pairs_of(self.entries@))
    }

    /// The empty map.
    pub fn new() -> (m: Self)
        ensures
            m@ == Map::<Seq<char>, V>::empty(),
            m.pairs() == Seq::<(Seq<char>, V)>::empty(),
    {
        let m = StringMap { entries: Vec::new() };
        proof {
            assert(m.pairs() =~= Seq::<(Seq<char>, V)>::empty());
            assert(m@ =~= Map::<Seq<char>, V>::empty());
        }
        m
    }

    /// The number of entries.
    pub fn len(&self) -> (n: usize)
        ensures
            n == self.pairs().len(),
            n == self@.dom().len(),
            self@.dom().finite(),
            strictly_sorted(self.pairs()),
    {
        proof {
            use_type_invariant(self);
            lemma_pairs_map_len(self.pairs());
        }
        self.entries.len()
    }

    /// The key of the entry at `i`.
    pub fn key_at(&self, i: usize) -> (k: &String)
        requires
            i < self.pairs().len(),
        ensures
            k@ == self.pairs()[i as int].0,
    {
        &self.entries[i].0
    }

    /// The value of the entry at `i`.
    pub fn value_at(&self, i: usize) -> (v: &V)
        requires
            i < self.pairs().len(),
        ensures
            *v == self.pairs()[i as int].1,
    {
        &self.entries[i].1
    }

    /// The keys, each once.
    pub fn keys(&self) -> (r: Vec<&str>)
        ensures
            r.deep_view().no_duplicates(),
            r.deep_view().to_set() == self@.dom(),
            r.deep_view() == self.pairs().map_values(|e: (Seq<char>, V)| e.0),
            r.deep_view() == sorted_keys(self@.dom()),
            increasing(r.deep_view()),
    {
        proof {
            use_type_invariant(self);
        }
        let mut r: Vec<&str> = Vec::new();
        let mut i: usize = 0;
        while i < self.entries.len()
            invariant
                i <= self.entries@.len(),
                r@.len() == i,
                forall|j: int| 0 <= j < i ==> #[trigger] r@[j]@ == self.pairs()[j].0,
            decreases self.entries@.len() - i,
        {
            r.push(&self.entries[i].0);
            i += 1;
        }
        proof {
            let p = self.pairs();
            let k = r.deep_view();
            assert(k =~= p.map_values(|e: (Seq<char>, V)| e.0));
            assert forall|a: int, b: int| 0 <= a < k.len() && 0 <= b < k.len() && a != b implies k[a]
                != k[b] by {
                assert(k[a] == p[a].0 && k[b] == p[b].0);
                if p[a].0 == p[b].0 {
                    lemma_unique(p, a, b);
                }
            }
            assert forall|x: Seq<char>| k.to_set().contains(x) <==> self@.dom().contains(x) by {
                if k.to_set().contains(x) {
                    let a = choose|a: int| 0 <= a < k.len() && k[a] == x;
                    assert(p[a].0 == x);
                }
                if has_key(p, x) {
                    let a = choose|a: int| 0 <= a < p.len() && #[trigger] p[a].0 == x;
                    assert(k[a] == x);
                }
            }
            assert(k.to_set() =~= self@.dom());
            assert forall|a: int, b: int| 0 <= a < b < k.len() implies text::str_lt(
                #[trigger] k[a],
                #[trigger] k[b],
            ) by {
                assert(text::str_lt(p[a].0, p[b].0));
            }
            lemma_sorted_keys(k, self@.dom());
        }
        r
    }

    /// The values, in the order of their keys.
    pub fn into_values(self) -> (r: Vec<V>)
        ensures
            r@ == self.pairs().map_values(|e: (Seq<char>, V)| e.1),
            strictly_sorted(self.pairs()),
    {
        proof {
            use_type_invariant(&self);
        }
        let ghost p = self.pairs();
        let mut r: Vec<V> = Vec::new();
        for entry in it: self.entries
            invariant
                it.seq() == self.entries@,
                p == self.pairs(),
                r@.len() == it.index(),
                forall|j: int| 0 <= j < r@.len() ==> #[trigger] r@[j] == p[j].1,
        {
            r.push(entry.1);
        }
        proof {
            assert(r@ =~= p.map_values(|e: (Seq<char>, V)| e.1));
        }
        r
    }

    /// The place of the entry with key `key`.
    pub fn position(&self, key: &str) -> (r: Option<usize>)
        ensures
            match r {
                Some(i) => i < self.pairs().len() && self.pairs()[i as int].0 == key@
                    && self@.contains_key(key@) && self@[key@] == self.pairs()[i as int].1,
                None => !self@.contains_key(key@),
            },
    {
        proof {
            use_type_invariant(self);
        }
        let mut i: usize = 0;
        while i < self.entries.len()
            invariant
                i <= self.entries@.len(),
                strictly_sorted(self.pairs()),
                forall|j: int| 0 <= j < i ==> #[trigger] self.pairs()[j].0 != key@,
            decreases self.entries@.len() - i,
        {
            if text::same(&self.entries[i].0, key) {
                proof {
                    lemma_pairs_map_at(self.pairs(), i as int);
                }
                return Some(i);
            }
            i += 1;
        }
        None
    }

    /// What the map holds under `key`.
    pub fn get(&self, key: &str) -> (r: Option<&V>)
        ensures
            match r {
                Some(v) => self@.contains_key(key@) && *v == self@[key@],
                None => !self@.contains_key(key@),
            },
    {
        match self.position(key) {
            Some(i) => Some(self.value_at(i)),
            None => None,
        }
    }

    /// Whether the map has the key `key`.
    pub fn contains_key(&self, key: &str) -> (r: bool)
        ensures
            r == self@.contains_key(key@),
    {
        self.position(key).is_some()
    }

    /// Puts `value` under `key` and returns what stood there.
    pub fn insert(&mut self, key: String, value: V) -> (r: Option<V>)
        ensures
            final(self)@ == old(self)@.insert(key@, value),
            match r {
                Some(v) => old(self)@.contains_key(key@) && v == old(self)@[key@],
                None => !old(self)@.contains_key(key@),
            },
    {
        proof {
            use_type_invariant(&*self);
        }
        let mut entries: Vec<(String, V)> = Vec::new();
        std::mem::swap(&mut entries, &mut self.entries);
        let ghost p = pairs_of(entries@);
        let ghost k = key@;
        let mut at: usize = 0;
        while at < entries.len() && text::precedes(&entries[at].0, &key)
            invariant
                at <= entries@.len(),
                k == key@,
                p == pairs_of(entries@),
                forall|i: int| 0 <= i < at ==> text::str_lt(#[trigger] p[i].0, k),
            decreases entries@.len() - at,
        {
            assert(p[at as int].0 == entries@[at as int].0@);
            at += 1;
        }
        if at < entries.len() && text::same(&entries[at].0, &key) {
            assert(p[at as int].0 == k);
            let (_, before) = entries.remove(at);
            entries.insert(at, (key, value));
            proof {
                lemma_pairs_map_at(p, at as int);
                lemma_replace(p, at as int, k, value);
                assert(pairs_of(entries@) =~= p.update(at as int, (k, value)));
            }
            self.entries = entries;
            Some(before)
        } else {
            proof {
                if at < entries@.len() {
                    assert(p[at as int].0 == entries@[at as int].0@);
                    text::lemma_str_lt_total(p[at as int].0, k);
                    assert forall|i: int| at <= i < p.len() implies text::str_lt(
                        k,
                        #[trigger] p[i].0,
                    ) by {
                        if i > at {
                            text::lemma_str_lt_transitive(k, p[at as int].0, p[i].0);
                        }
                    }
                }
                lemma_insert(p, at as int, k, value);
            }
            entries.insert(at, (key, value));
            proof {
                assert(pairs_of(entries@) =~= p.insert(at as int, (k, value)));
            }
            self.entries = entries;
            None
        }
    }

    /// Takes the entry with key `key` out of the map.
    pub fn remove(&mut self, key: &str) -> (r: Option<V>)
        ensures
            final(self)@ == old(self)@.remove(key@),
            match r {
                Some(v) => old(self)@.contains_key(key@) && v == old(self)@[key@],
                None => !old(self)@.contains_key(key@),
            },
    {
        match self.position(key) {
            Some(at) => {
                proof {
                    use_type_invariant(&*self);
                }
                let mut entries: Vec<(String, V)> = Vec::new();
                std::mem::swap(&mut entries, &mut self.entries);
                let ghost p = pairs_of(entries@);
                let (_, value) = entries.remove(at);
                proof {
                    lemma_remove(p, at as int);
                    assert(pairs_of(entries@) =~= p.remove(at as int));
                }
                self.entries = entries;
                Some(value)
            },
            None => {
                proof {
                    assert(self@.remove(key@) =~= self@);
                }
                None
            },
        }
    }
}

spec fn pairs_of<V>(entries: Seq<(String, V)>) -> Seq<(Seq<char>, V)> {
    Seq::new(entries.len(), |i: int| (entries[i].0@, entries[i].1))
}

/// Those of `names` that satisfy `p`, which `f` decides, in order and each once.
pub fn sorted_where<F: Fn(&str) -> bool>(
    names: &Vec<String>,
    f: F,
    Ghost(p): Ghost<spec_fn(Seq<char>) -> bool>,
) -> (r: Vec<String>)
    requires
        forall|s: &str| #[trigger] call_requires(f, (s,)),
        forall|s: &str, b: bool| #[trigger] call_ensures(f, (s,), b) ==> b == p(s@),
    ensures
        r.deep_view() == sorted_keys(names.deep_view().to_set().filter(p)),
        increasing(r.deep_view()),
        r.deep_view().to_set() == names.deep_view().to_set().filter(p),
{
    let ghost all = names.deep_view();
    let mut found: StringMap<()> = StringMap::new();
    let mut i: usize = 0;
    proof {
        assert(found@.dom() =~= all.take(0).to_set().filter(p));
    }
    while i < names.len()
        invariant
            i <= names@.len(),
            all == names.deep_view(),
            forall|s: &str| #[trigger] call_requires(f, (s,)),
            forall|s: &str, b: bool| #[trigger] call_ensures(f, (s,), b) ==> b == p(s@),
            found@.dom() == all.take(i as int).to_set().filter(p),
        decreases names@.len() - i,
    {
        let ghost before = found@.dom();
        proof {
            assert(all[i as int] == names@[i as int]@);
            assert(all.take(i + 1) =~= all.take(i as int).push(all[i as int]));
            seqs::lemma_push_contains(all.take(i as int), all[i as int]);
        }
        if f(names[i].as_str()) {
            found.insert(names[i].clone(), ());
        }
        proof {
            assert forall|x: Seq<char>| found@.dom().contains(x) == all.take(
                i + 1,
            ).to_set().filter(p).contains(x) by {
                assert(all.take(i as int).to_set().contains(x) == all.take(i as int).contains(x));
                assert(all.take(i + 1).to_set().contains(x) == all.take(i + 1).contains(x));
                assert(before.contains(x) == all.take(i as int).to_set().filter(p).contains(x));
            }
            assert(found@.dom() =~= all.take(i + 1).to_set().filter(p));
        }
        i += 1;
    }
    proof {
        assert(all.take(all.len() as int) =~= all);
    }
    let keys = found.keys();
    let mut r: Vec<String> = Vec::new();
    let mut j: usize = 0;
    while j < keys.len()
        invariant
            j <= keys@.len(),
            r@.len() == j,
            forall|k: int| 0 <= k < j ==> (#[trigger] r@[k])@ == keys@[k]@,
        decreases keys@.len() - j,
    {
        r.push(keys[j].to_owned());
        j += 1;
    }
    proof {
        assert(r.deep_view() =~= keys.deep_view());
    }
    r
}

} // verus!
