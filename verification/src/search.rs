//! The elements of a sequence that satisfy a predicate, and the first of them.
use vstd::prelude::*;

verus! {

/// `i` is the index of the first element of `s` that satisfies `p`.
pub open spec fn is_first<A>(s: Seq<A>, p: spec_fn(A) -> bool, i: int) -> bool {
    &&& 0 <= i < s.len()
    &&& p(s[i])
    &&& forall|j: int| 0 <= j < i ==> !p(#[trigger] s[j])
}

/// The index of the first element of `s` that satisfies `p`, if any does.
pub open spec fn first_where<A>(s: Seq<A>, p: spec_fn(A) -> bool) -> Option<int> {
    if exists|i: int| is_first(s, p, i) {
        Some(choose|i: int| is_first(s, p, i))
    } else {
        None
    }
}

/// There is only one first element.
pub proof fn lemma_first_found<A>(s: Seq<A>, p: spec_fn(A) -> bool, i: int)
    requires
        is_first(s, p, i),
    ensures
        first_where(s, p) == Some(i),
{
    let k = choose|k: int| is_first(s, p, k);
    assert(is_first(s, p, k));
    if k < i {
        assert(!p(s[k]));
    } else if i < k {
        assert(!p(s[i]));
    }
}

/// Where nothing satisfies the predicate there is no first element.
pub proof fn lemma_first_missing<A>(s: Seq<A>, p: spec_fn(A) -> bool)
    requires
        forall|i: int| 0 <= i < s.len() ==> !p(#[trigger] s[i]),
    ensures
        first_where(s, p) is None,
{
}

/// What the outcome of the search says of the sequence.
pub proof fn lemma_first_where<A>(s: Seq<A>, p: spec_fn(A) -> bool)
    ensures
        match first_where(s, p) {
            Some(i) => is_first(s, p, i),
            None => forall|i: int| 0 <= i < s.len() ==> !p(#[trigger] s[i]),
        },
{
    if first_where(s, p) is None {
        assert forall|i: int| 0 <= i < s.len() implies !p(#[trigger] s[i]) by {
            lemma_none_before(s, p, i);
        }
    }
}

proof fn lemma_none_before<A>(s: Seq<A>, p: spec_fn(A) -> bool, i: int)
    requires
        first_where(s, p) is None,
        0 <= i < s.len(),
    ensures
        !p(s[i]),
    decreases i,
{
    assert forall|j: int| 0 <= j < i implies !p(#[trigger] s[j]) by {
        lemma_none_before(s, p, j);
    }
    if p(s[i]) {
        assert(is_first(s, p, i));
    }
}

/// The elements that a filter keeps are those that satisfy the predicate.
pub proof fn lemma_filter_members<A>(s: Seq<A>, p: spec_fn(A) -> bool, x: A)
    ensures
        s.filter(p).contains(x) <==> s.contains(x) && p(x),
    decreases s.len(),
{
    reveal(Seq::filter);
    if s.len() > 0 {
        let rest = s.drop_last();
        let kept = rest.filter(p);
        lemma_filter_members(rest, p, x);
        assert(s =~= rest.push(s.last()));
        assert(rest.push(s.last()).contains(x) <==> rest.contains(x) || x == s.last()) by {
            if rest.contains(x) {
                let i = choose|i: int| 0 <= i < rest.len() && rest[i] == x;
                assert(rest.push(s.last())[i] == x);
            }
            if x == s.last() {
                assert(rest.push(s.last())[rest.len() as int] == x);
            }
        }
        assert(kept.push(s.last()).contains(x) <==> kept.contains(x) || x == s.last()) by {
            if kept.contains(x) {
                let i = choose|i: int| 0 <= i < kept.len() && kept[i] == x;
                assert(kept.push(s.last())[i] == x);
            }
            if x == s.last() {
                assert(kept.push(s.last())[kept.len() as int] == x);
            }
        }
    }
}

/// What occurs once in a sequence occurs at most once in what a filter keeps of it.
pub proof fn lemma_filter_keeps_distinct<A>(s: Seq<A>, p: spec_fn(A) -> bool)
    requires
        s.no_duplicates(),
    ensures
        s.filter(p).no_duplicates(),
    decreases s.len(),
{
    reveal(Seq::filter);
    if s.len() > 0 {
        let rest = s.drop_last();
        lemma_filter_keeps_distinct(rest, p);
        lemma_filter_members(rest, p, s.last());
        assert(!rest.contains(s.last()));
    }
}

/// The first element of a kind is of that kind, and none before it is; where there is no
/// first, there is none at all.
pub proof fn law_first_is_the_earliest<A>(s: Seq<A>, p: spec_fn(A) -> bool, j: int)
    requires
        0 <= j < s.len(),
    ensures
        match first_where(s, p) {
            Some(i) => 0 <= i < s.len() && p(s[i]) && (p(s[j]) ==> i <= j),
            None => !p(s[j]),
        },
{
    lemma_first_where(s, p);
    if let Some(i) = first_where(s, p) {
        if j < i {
            assert(!p(s[j]));
        }
    }
}

} // verus!
