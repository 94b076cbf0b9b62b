//! Facts about sequences that several modules use.
use vstd::prelude::*;

verus! {

/// Filtering one more element of `s`.
pub proof fn lemma_filter_step<A>(s: Seq<A>, i: int, p: spec_fn(A) -> bool)
    requires
        0 <= i < s.len(),
    ensures
        s.take(i + 1).filter(p) == (if p(s[i]) {
            s.take(i).filter(p).push(s[i])
        } else {
            s.take(i).filter(p)
        }),
{
    reveal(Seq::filter);
    assert(s.take(i + 1).drop_last() =~= s.take(i));
    assert(s.take(i + 1).last() == s[i]);
}

/// Filtering nothing gives nothing.
pub proof fn lemma_filter_start<A>(s: Seq<A>, p: spec_fn(A) -> bool)
    ensures
        s.take(0).filter(p) == Seq::<A>::empty(),
        s.take(s.len() as int) == s,
{
    reveal(Seq::filter);
    assert(s.take(0) =~= Seq::empty());
    assert(s.take(s.len() as int) =~= s);
}

/// What a sequence with one more element holds.
pub proof fn lemma_push_contains<A>(s: Seq<A>, x: A)
    ensures
        forall|y: A| #[trigger] s.push(x).contains(y) <==> s.contains(y) || y == x,
{
    assert forall|y: A| #[trigger] s.push(x).contains(y) <==> s.contains(y) || y == x by {
        if s.contains(y) {
            let i = choose|i: int| 0 <= i < s.len() && s[i] == y;
            assert(s.push(x)[i] == y);
        }
        assert(s.push(x)[s.len() as int] == x);
        if s.push(x).contains(y) {
            let i = choose|i: int| 0 <= i < s.push(x).len() && s.push(x)[i] == y;
            if i < s.len() {
                assert(s[i] == y);
            }
        }
    }
}

/// Predicates that agree on the elements of `s` filter it alike.
pub proof fn lemma_filter_agrees<A>(s: Seq<A>, p: spec_fn(A) -> bool, q: spec_fn(A) -> bool)
    requires
        forall|i: int| 0 <= i < s.len() ==> p(#[trigger] s[i]) == q(s[i]),
    ensures
        s.filter(p) == s.filter(q),
    decreases s.len(),
{
    reveal(Seq::filter);
    if s.len() > 0 {
        assert forall|i: int| 0 <= i < s.drop_last().len() implies p(#[trigger] s.drop_last()[i])
            == q(s.drop_last()[i]) by {
            assert(s.drop_last()[i] == s[i]);
        }
        lemma_filter_agrees(s.drop_last(), p, q);
        assert(s.last() == s[s.len() - 1]);
    }
}

/// A predicate that holds of every element keeps them all.
pub proof fn lemma_filter_all<A>(s: Seq<A>, p: spec_fn(A) -> bool)
    requires
        forall|i: int| 0 <= i < s.len() ==> p(#[trigger] s[i]),
    ensures
        s.filter(p) == s,
    decreases s.len(),
{
    reveal(Seq::filter);
    if s.len() > 0 {
        assert forall|i: int| 0 <= i < s.drop_last().len() implies p(
            #[trigger] s.drop_last()[i],
        ) by {
            assert(s.drop_last()[i] == s[i]);
        }
        lemma_filter_all(s.drop_last(), p);
        assert(s.last() == s[s.len() - 1]);
        assert(s.drop_last().push(s.last()) =~= s);
    }
}

/// A predicate that holds of no element keeps none.
pub proof fn lemma_filter_none<A>(s: Seq<A>, p: spec_fn(A) -> bool)
    requires
        forall|i: int| 0 <= i < s.len() ==> !p(#[trigger] s[i]),
    ensures
        s.filter(p) == Seq::<A>::empty(),
    decreases s.len(),
{
    reveal(Seq::filter);
    if s.len() > 0 {
        assert forall|i: int| 0 <= i < s.drop_last().len() implies !p(
            #[trigger] s.drop_last()[i],
        ) by {
            assert(s.drop_last()[i] == s[i]);
        }
        lemma_filter_none(s.drop_last(), p);
        assert(s.last() == s[s.len() - 1]);
    } else {
        assert(s =~= Seq::empty());
    }
}

/// A filtered sequence has no duplicates if the whole has none.
pub proof fn lemma_filter_no_duplicates<A>(s: Seq<A>, p: spec_fn(A) -> bool)
    requires
        s.no_duplicates(),
    ensures
        s.filter(p).no_duplicates(),
    decreases s.len(),
{
    reveal(Seq::filter);
    if s.len() > 0 {
        let t = s.drop_last();
        lemma_filter_no_duplicates(t, p);
        lemma_filter_to_set(t, p);
        assert(!t.filter(p).contains(s.last())) by {
            if t.filter(p).contains(s.last()) {
                assert(t.filter(p).to_set().contains(s.last()));
                let i = choose|i: int| 0 <= i < t.len() && t[i] == s.last();
                assert(s[i] == s[s.len() - 1]);
            }
        }
    }
}

/// The elements of a filtered sequence are those that satisfy the predicate.
pub proof fn lemma_filter_to_set<A>(s: Seq<A>, p: spec_fn(A) -> bool)
    ensures
        s.filter(p).to_set() == s.to_set().filter(p),
    decreases s.len(),
{
    reveal(Seq::filter);
    if s.len() > 0 {
        let t = s.drop_last();
        lemma_filter_to_set(t, p);
        lemma_push_contains(t, s.last());
        lemma_push_contains(t.filter(p), s.last());
        assert(t.push(s.last()) =~= s);
        assert forall|x: A| s.filter(p).to_set().contains(x) == s.to_set().filter(p).contains(x) by {
            assert(t.filter(p).to_set().contains(x) == t.to_set().filter(p).contains(x));
            assert(t.filter(p).to_set().contains(x) == t.filter(p).contains(x));
            assert(t.to_set().contains(x) == t.contains(x));
            assert(s.to_set().contains(x) == s.contains(x));
            assert(s.filter(p).to_set().contains(x) == s.filter(p).contains(x));
        }
    }
    assert(s.filter(p).to_set() =~= s.to_set().filter(p));
}

/// The first `i + 1` elements are the first `i` and one more.
pub proof fn lemma_take_step<A>(s: Seq<A>, i: int)
    requires
        0 <= i < s.len(),
    ensures
        s.take(i + 1).len() == i + 1,
        s.take(i + 1).drop_last() == s.take(i),
        s.take(i + 1).last() == s[i],
{
    assert(s.take(i + 1).drop_last() =~= s.take(i));
}

/// The place of the first element of `s` that satisfies `p`.
pub open spec fn find<A>(s: Seq<A>, p: spec_fn(A) -> bool) -> Option<int>
    decreases s.len(),
{
    if s.len() == 0 {
        None
    } else {
        match find(s.drop_last(), p) {
            Some(i) => Some(i),
            None => if p(s.last()) {
                Some(s.len() - 1)
            } else {
                None
            },
        }
    }
}

/// A first place is what [`find`] gives, and without one it gives none.
pub proof fn lemma_find<A>(s: Seq<A>, p: spec_fn(A) -> bool)
    ensures
        match find(s, p) {
            Some(i) => 0 <= i < s.len() && p(s[i]) && forall|j: int| 0 <= j < i ==> !p(s[j]),
            None => forall|j: int| 0 <= j < s.len() ==> !p(s[j]),
        },
    decreases s.len(),
{
    if s.len() > 0 {
        let t = s.drop_last();
        lemma_find(t, p);
        assert forall|j: int| 0 <= j < t.len() implies t[j] == s[j] by {}
    }
}

/// A place before which nothing satisfies `p` is the first.
pub proof fn lemma_found<A>(s: Seq<A>, p: spec_fn(A) -> bool, i: int)
    requires
        0 <= i < s.len(),
        p(s[i]),
        forall|j: int| 0 <= j < i ==> !p(#[trigger] s[j]),
    ensures
        find(s, p) == Some(i),
{
    lemma_find(s, p);
    match find(s, p) {
        Some(k) => {
            if k < i {
                assert(!p(s[k]));
            }
            if i < k {
                assert(!p(s[i]));
            }
        },
        None => {
            assert(!p(s[i]));
        },
    }
}

/// Nothing is found where nothing satisfies `p`.
pub proof fn lemma_not_found<A>(s: Seq<A>, p: spec_fn(A) -> bool)
    requires
        forall|j: int| 0 <= j < s.len() ==> !p(#[trigger] s[j]),
    ensures
        find(s, p) is None,
{
    lemma_find(s, p);
    if find(s, p) is Some {
        assert(!p(s[find(s, p)->0]));
    }
}

/// What is filtered holds exactly what the sequence holds and satisfies the predicate.
pub proof fn lemma_filter_contains<A>(s: Seq<A>, p: spec_fn(A) -> bool)
    ensures
        forall|x: A| #[trigger] s.filter(p).contains(x) <==> s.contains(x) && p(x),
{
    lemma_filter_to_set(s, p);
    assert forall|x: A| #[trigger] s.filter(p).contains(x) <==> s.contains(x) && p(x) by {
        assert(s.filter(p).to_set().contains(x) <==> s.to_set().filter(p).contains(x));
    }
}

} // verus!
