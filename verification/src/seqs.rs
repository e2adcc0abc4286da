//! Facts about filtering and mapping sequences.
use vstd::prelude::*;

verus! {

/// The views of the elements.
pub open spec fn views<T: View>(s: Seq<T>) -> Seq<T::V> {
    s.map_values(|x: T| x@)
}

pub proof fn lemma_views_push<T: View>(s: Seq<T>, x: T)
    ensures
        views(s.push(x)) == views(s).push(x@),
{
    assert(views(s.push(x)) =~= views(s).push(x@));
}

/// One more element of the prefix is kept exactly where it satisfies the predicate.
pub proof fn lemma_filter_step<A>(s: Seq<A>, i: int, p: spec_fn(A) -> bool)
    requires
        0 <= i < s.len(),
    ensures
        s.take(i + 1).filter(p) == if p(s[i]) {
            s.take(i).filter(p).push(s[i])
        } else {
            s.take(i).filter(p)
        },
{
    reveal(Seq::filter);
    assert(s.take(i + 1).drop_last() =~= s.take(i));
    assert(s.take(i + 1).last() == s[i]);
}

/// A pushed element is kept exactly where it satisfies the predicate.
pub proof fn lemma_filter_push<A>(s: Seq<A>, x: A, p: spec_fn(A) -> bool)
    ensures
        s.push(x).filter(p) == if p(x) {
            s.filter(p).push(x)
        } else {
            s.filter(p)
        },
{
    reveal(Seq::filter);
    assert(s.push(x).drop_last() =~= s);
}

/// What a prefix keeps is a prefix of what the whole keeps.
pub proof fn lemma_filter_prefix<A>(s: Seq<A>, i: int, p: spec_fn(A) -> bool)
    requires
        0 <= i <= s.len(),
    ensures
        s.take(i).filter(p).len() <= s.filter(p).len(),
        s.filter(p).take(s.take(i).filter(p).len() as int) == s.take(i).filter(p),
        s.filter(p) == s.take(i).filter(p) + s.skip(i).filter(p),
{
    assert(s =~= s.take(i) + s.skip(i));
    Seq::filter_distributes_over_add(s.take(i), s.skip(i), p);
    assert(s.filter(p).take(s.take(i).filter(p).len() as int) =~= s.take(i).filter(p));
}

/// An element is kept exactly where it occurs and satisfies the predicate.
pub proof fn lemma_filter_member<A>(s: Seq<A>, p: spec_fn(A) -> bool, x: A)
    ensures
        s.filter(p).contains(x) <==> s.contains(x) && p(x),
    decreases s.len(),
{
    reveal(Seq::filter);
    if s.len() > 0 {
        let rest = s.drop_last();
        lemma_filter_member(rest, p, x);
        assert(s =~= rest.push(s.last()));
        if s.contains(x) && p(x) {
            let i = choose|i: int| 0 <= i < s.len() && s[i] == x;
            if i < rest.len() {
                assert(rest[i] == x);
                let k = choose|k: int| 0 <= k < rest.filter(p).len() && rest.filter(p)[k] == x;
                assert(s.filter(p)[k] == x);
            } else {
                assert(s.filter(p).last() == x);
            }
        }
        if s.filter(p).contains(x) {
            let k = choose|k: int| 0 <= k < s.filter(p).len() && s.filter(p)[k] == x;
            if k < rest.filter(p).len() {
                assert(rest.filter(p)[k] == x);
                let i = choose|i: int| 0 <= i < rest.len() && rest[i] == x;
                assert(s[i] == x);
            } else {
                assert(s[s.len() - 1] == x);
            }
        }
    }
}

/// Where a kept element comes from.
pub proof fn lemma_filter_source<A>(s: Seq<A>, p: spec_fn(A) -> bool, i: int) -> (a: int)
    requires
        0 <= i < s.filter(p).len(),
    ensures
        i <= a < s.len(),
        s[a] == s.filter(p)[i],
        p(s[a]),
        s.take(a).filter(p).len() == i,
    decreases s.len(),
{
    reveal(Seq::filter);
    let rest = s.drop_last();
    assert(rest =~= s.take(s.len() - 1));
    if i < rest.filter(p).len() {
        let a = lemma_filter_source(rest, p, i);
        assert(rest.take(a) =~= s.take(a));
        a
    } else {
        Seq::lemma_filter_len(rest, p);
        s.len() - 1
    }
}

/// Kept elements come from the sequence in the same order.
pub proof fn lemma_filter_sources<A>(s: Seq<A>, p: spec_fn(A) -> bool, i: int, j: int) -> (r: (
    int,
    int,
))
    requires
        0 <= i < j < s.filter(p).len(),
    ensures
        0 <= r.0 < r.1 < s.len(),
        s[r.0] == s.filter(p)[i],
        s[r.1] == s.filter(p)[j],
{
    let a = lemma_filter_source(s, p, i);
    let b = lemma_filter_source(s, p, j);
    if a >= b {
        assert(s.take(a).take(b) =~= s.take(b));
        lemma_filter_prefix(s.take(a), b, p);
        assert(false);
    }
    (a, b)
}

/// Filtering sees the predicate only on the elements.
pub proof fn lemma_filter_same<A>(s: Seq<A>, p: spec_fn(A) -> bool, q: spec_fn(A) -> bool)
    requires
        forall|i: int| 0 <= i < s.len() ==> p(#[trigger] s[i]) == q(s[i]),
    ensures
        s.filter(p) == s.filter(q),
    decreases s.len(),
{
    reveal(Seq::filter);
    if s.len() > 0 {
        assert forall|i: int| 0 <= i < s.drop_last().len() implies p(
            #[trigger] s.drop_last()[i],
        ) == q(s.drop_last()[i]) by {
            assert(s.drop_last()[i] == s[i]);
        }
        lemma_filter_same(s.drop_last(), p, q);
        assert(s.last() == s[s.len() - 1]);
    }
}

/// Nothing is kept where no element satisfies the predicate.
pub proof fn lemma_filter_none<A>(s: Seq<A>, p: spec_fn(A) -> bool)
    requires
        forall|i: int| 0 <= i < s.len() ==> !p(#[trigger] s[i]),
    ensures
        s.filter(p) == Seq::<A>::empty(),
{
    lemma_filter_same(s, p, |x: A| false);
    if s.filter(p).len() > 0 {
        let a = lemma_filter_source(s, p, 0);
    }
    assert(s.filter(p) =~= Seq::<A>::empty());
}

/// Everything is kept where every element satisfies the predicate.
pub proof fn lemma_filter_all<A>(s: Seq<A>, p: spec_fn(A) -> bool)
    requires
        forall|i: int| 0 <= i < s.len() ==> p(#[trigger] s[i]),
    ensures
        s.filter(p) == s,
    decreases s.len(),
{
    reveal(Seq::filter);
    if s.len() > 0 {
        assert forall|i: int| 0 <= i < s.drop_last().len() implies p(
            #[trigger] s.drop_last()[i],
        ) by {
            assert(s.drop_last()[i] == s[i]);
        }
        lemma_filter_all(s.drop_last(), p);
        assert(s.last() == s[s.len() - 1]);
        assert(s =~= s.drop_last().push(s.last()));
    }
}

/// Filtering after a map is mapping after the filter that it pulls back to.
pub proof fn lemma_filter_map<A, B>(
    s: Seq<A>,
    f: spec_fn(A) -> B,
    p: spec_fn(A) -> bool,
    q: spec_fn(B) -> bool,
)
    requires
        forall|i: int| 0 <= i < s.len() ==> q(f(#[trigger] s[i])) == p(s[i]),
    ensures
        s.map_values(f).filter(q) == s.filter(p).map_values(f),
    decreases s.len(),
{
    reveal(Seq::filter);
    if s.len() > 0 {
        let rest = s.drop_last();
        assert forall|i: int| 0 <= i < rest.len() implies q(f(#[trigger] rest[i])) == p(
            rest[i],
        ) by {
            assert(rest[i] == s[i]);
        }
        lemma_filter_map(rest, f, p, q);
        assert(s.map_values(f).drop_last() =~= rest.map_values(f));
        assert(s.last() == s[s.len() - 1]);
        assert(s.map_values(f).filter(q) =~= s.filter(p).map_values(f));
    } else {
        assert(s.map_values(f).filter(q) =~= s.filter(p).map_values(f));
    }
}

/// A weaker predicate keeps at least as much.
pub proof fn lemma_filter_weaker<A>(s: Seq<A>, p: spec_fn(A) -> bool, q: spec_fn(A) -> bool)
    requires
        forall|i: int| 0 <= i < s.len() && p(#[trigger] s[i]) ==> q(s[i]),
    ensures
        s.filter(p).len() <= s.filter(q).len(),
    decreases s.len(),
{
    reveal(Seq::filter);
    if s.len() > 0 {
        assert forall|i: int| 0 <= i < s.drop_last().len() && p(
            #[trigger] s.drop_last()[i],
        ) implies q(s.drop_last()[i]) by {
            assert(s.drop_last()[i] == s[i]);
        }
        lemma_filter_weaker(s.drop_last(), p, q);
        assert(s.last() == s[s.len() - 1]);
    }
}

/// A predicate that is one of two keeps no more than both together.
pub proof fn lemma_filter_either<A>(
    s: Seq<A>,
    p: spec_fn(A) -> bool,
    q: spec_fn(A) -> bool,
    r: spec_fn(A) -> bool,
)
    requires
        forall|i: int| 0 <= i < s.len() && p(#[trigger] s[i]) ==> q(s[i]) || r(s[i]),
    ensures
        s.filter(p).len() <= s.filter(q).len() + s.filter(r).len(),
    decreases s.len(),
{
    reveal(Seq::filter);
    if s.len() > 0 {
        assert forall|i: int| 0 <= i < s.drop_last().len() && p(
            #[trigger] s.drop_last()[i],
        ) implies q(s.drop_last()[i]) || r(s.drop_last()[i]) by {
            assert(s.drop_last()[i] == s[i]);
        }
        lemma_filter_either(s.drop_last(), p, q, r);
        assert(s.last() == s[s.len() - 1]);
    }
}

/// A predicate that holds at the same places of two sequences keeps as much of
/// both.
pub proof fn lemma_filter_alike<A>(s: Seq<A>, t: Seq<A>, p: spec_fn(A) -> bool)
    requires
        s.len() == t.len(),
        forall|i: int| 0 <= i < s.len() ==> p(#[trigger] s[i]) == p(t[i]),
    ensures
        s.filter(p).len() == t.filter(p).len(),
    decreases s.len(),
{
    reveal(Seq::filter);
    if s.len() > 0 {
        assert forall|i: int| 0 <= i < s.drop_last().len() implies p(#[trigger] s.drop_last()[i])
            == p(t.drop_last()[i]) by {
            assert(s.drop_last()[i] == s[i]);
        }
        lemma_filter_alike(s.drop_last(), t.drop_last(), p);
        assert(s.last() == s[s.len() - 1]);
    }
}

/// A predicate that no two elements share keeps at most one.
pub proof fn lemma_filter_unique<A>(s: Seq<A>, p: spec_fn(A) -> bool)
    requires
        forall|i: int, j: int|
            0 <= i < j < s.len() ==> !(p(#[trigger] s[i]) && p(#[trigger] s[j])),
    ensures
        s.filter(p).len() <= 1,
{
    if s.filter(p).len() > 1 {
        let a = lemma_filter_source(s, p, 0);
        let b = lemma_filter_source(s, p, 1);
        if a == b {
            assert(false);
        } else if a < b {
            assert(!(p(s[a]) && p(s[b])));
        } else {
            assert(!(p(s[b]) && p(s[a])));
        }
    }
}

/// Filtering out exactly one position removes it.
pub proof fn lemma_filter_remove<A>(s: Seq<A>, i: int, p: spec_fn(A) -> bool)
    requires
        0 <= i < s.len(),
        !p(s[i]),
        forall|j: int| 0 <= j < s.len() && j != i ==> p(#[trigger] s[j]),
    ensures
        s.filter(p) == s.remove(i),
{
    let left = s.take(i);
    let right = s.skip(i + 1);
    lemma_filter_prefix(s, i + 1, p);
    lemma_filter_step(s, i, p);
    assert forall|j: int| 0 <= j < left.len() implies p(#[trigger] left[j]) by {
        assert(left[j] == s[j]);
    }
    assert forall|j: int| 0 <= j < right.len() implies p(#[trigger] right[j]) by {
        assert(right[j] == s[j + i + 1]);
    }
    lemma_filter_all(left, p);
    lemma_filter_all(right, p);
    assert(s.filter(p) =~= s.remove(i));
}

/// Which elements are among the first `n` that a predicate keeps.
pub proof fn lemma_first_member<A>(s: Seq<A>, p: spec_fn(A) -> bool, n: nat, i: int)
    requires
        0 <= i < s.len(),
        forall|a: int, b: int| 0 <= a < b < s.len() ==> #[trigger] s[a] != #[trigger] s[b],
    ensures
        crate::model::first(s.filter(p), n).contains(s[i]) <==> p(s[i]) && s.take(i).filter(p).len()
            < n,
{
    let kept = s.filter(p);
    let head = crate::model::first(kept, n);
    let k = s.take(i).filter(p).len() as int;
    if p(s[i]) {
        lemma_filter_step(s, i, p);
        lemma_filter_prefix(s, i + 1, p);
        assert(s.take(i + 1).filter(p)[k] == s[i]);
        assert(kept[k] == s[i]);
        if k < n {
            assert(head[k] == s[i]);
        }
    }
    if head.contains(s[i]) {
        let m = choose|m: int| 0 <= m < head.len() && head[m] == s[i];
        let a = lemma_filter_source(s, p, m);
        if a < i {
            assert(s[a] != s[i]);
        } else if i < a {
            assert(s[i] != s[a]);
        }
    }
}

} // verus!
