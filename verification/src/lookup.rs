//! The first element of a list that satisfies a condition.

use vstd::prelude::*;

verus! {

/// `i` is the first position of `s` whose element satisfies `p`.
pub open spec fn is_first<A>(s: Seq<A>, p: spec_fn(A) -> bool, i: int) -> bool {
    &&& 0 <= i < s.len()
    &&& p(s[i])
    &&& forall|j: int| 0 <= j < i ==> !p(#[trigger] s[j])
}

/// The first element of `s` that satisfies `p`.
pub open spec fn first_where<A>(s: Seq<A>, p: spec_fn(A) -> bool) -> Option<A> {
    if exists|i: int| is_first(s, p, i) {
        Some(s[choose|i: int| is_first(s, p, i)])
    } else {
        None
    }
}

/// A first position fixes the element that is found.
pub proof fn lemma_found<A>(s: Seq<A>, p: spec_fn(A) -> bool, i: int)
    requires
        is_first(s, p, i),
    ensures
        first_where(s, p) == Some(s[i]),
{
    let k = choose|k: int| is_first(s, p, k);
    assert(is_first(s, p, k));
    if k < i {
        assert(!p(s[k]));
    } else if i < k {
        assert(!p(s[i]));
    }
}

/// Nothing is found exactly when no element satisfies `p`, and what is found
/// is an element that does.
pub proof fn lemma_first_where<A>(s: Seq<A>, p: spec_fn(A) -> bool)
    ensures
        match first_where(s, p) {
            Some(x) => p(x) && s.contains(x),
            None => forall|j: int| 0 <= j < s.len() ==> !p(#[trigger] s[j]),
        },
{
    if exists|i: int| is_first(s, p, i) {
        let k = choose|k: int| is_first(s, p, k);
        assert(s.contains(s[k]));
    } else {
        assert forall|j: int| 0 <= j < s.len() implies !p(#[trigger] s[j]) by {
            lemma_no_match_below(s, p, j + 1);
        }
    }
}

proof fn lemma_no_match_below<A>(s: Seq<A>, p: spec_fn(A) -> bool, n: int)
    requires
        0 <= n <= s.len(),
        forall|i: int| !is_first(s, p, i),
    ensures
        forall|j: int| 0 <= j < n ==> !p(#[trigger] s[j]),
    decreases n,
{
    if n > 0 {
        lemma_no_match_below(s, p, n - 1);
        assert(!is_first(s, p, n - 1));
    }
}

/// Nothing is found where no element satisfies `p`.
pub proof fn lemma_not_found<A>(s: Seq<A>, p: spec_fn(A) -> bool)
    requires
        forall|j: int| 0 <= j < s.len() ==> !p(#[trigger] s[j]),
    ensures
        first_where(s, p) is None,
{
}

/// Whether the elements of `a` stand in `b` at the positions `at`, in order.
pub open spec fn stands_at<A>(a: Seq<A>, b: Seq<A>, at: Seq<int>) -> bool {
    &&& at.len() == a.len()
    &&& forall|i: int| 0 <= i < at.len() ==> 0 <= #[trigger] at[i] < b.len() && a[i] == b[at[i]]
    &&& forall|i: int, j: int| 0 <= i < j < at.len() ==> #[trigger] at[i] < #[trigger] at[j]
}

/// Whether `a` has some of the elements of `b`, in the same order.
pub open spec fn is_subsequence<A>(a: Seq<A>, b: Seq<A>) -> bool {
    exists|at: Seq<int>| stands_at(a, b, at)
}

/// What satisfies the stronger of two conditions is a subsequence of what
/// satisfies the weaker one.
pub proof fn lemma_filter_subsequence<A>(s: Seq<A>, p: spec_fn(A) -> bool, q: spec_fn(A) -> bool)
    requires
        forall|x: A| #[trigger] p(x) ==> q(x),
    ensures
        is_subsequence(s.filter(p), s.filter(q)),
    decreases s.len(),
{
    reveal(Seq::filter);
    if s.len() == 0 {
        assert(stands_at(s.filter(p), s.filter(q), Seq::<int>::empty()));
    } else {
        let rest = s.drop_last();
        lemma_filter_subsequence(rest, p, q);
        let at = choose|at: Seq<int>| stands_at(rest.filter(p), rest.filter(q), at);
        if p(s.last()) {
            assert(stands_at(
                s.filter(p),
                s.filter(q),
                at.push(rest.filter(q).len() as int),
            ));
        } else {
            assert(stands_at(s.filter(p), s.filter(q), at));
        }
    }
}

/// What satisfies a condition is a subsequence of the whole.
pub proof fn lemma_filter_within<A>(s: Seq<A>, p: spec_fn(A) -> bool)
    ensures
        is_subsequence(s.filter(p), s),
    decreases s.len(),
{
    reveal(Seq::filter);
    if s.len() == 0 {
        assert(stands_at(s.filter(p), s, Seq::<int>::empty()));
    } else {
        let rest = s.drop_last();
        lemma_filter_within(rest, p);
        let at = choose|at: Seq<int>| stands_at(rest.filter(p), rest, at);
        if p(s.last()) {
            assert(stands_at(s.filter(p), s, at.push(s.len() - 1)));
        } else {
            assert(stands_at(s.filter(p), s, at));
        }
    }
}

} // verus!
