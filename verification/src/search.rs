//! The first position in a sequence at which a predicate holds.
use vstd::prelude::*;

verus! {

/// `i` is the first position in `s` whose element satisfies `p`.
pub open spec fn is_first<A>(s: Seq<A>, p: spec_fn(A) -> bool, i: int) -> bool {
    &&& 0 <= i < s.len()
    &&& p(s[i])
    &&& forall|j: int| 0 <= j < i ==> !p(#[trigger] s[j])
}

/// Some element of `s` satisfies `p`.
pub open spec fn any_of<A>(s: Seq<A>, p: spec_fn(A) -> bool) -> bool {
    exists|i: int| 0 <= i < s.len() && p(#[trigger] s[i])
}

/// The first position whose element satisfies `p` (meaningful when `any_of(s, p)`).
pub open spec fn first_of<A>(s: Seq<A>, p: spec_fn(A) -> bool) -> int {
    choose|i: int| is_first(s, p, i)
}

/// When some element satisfies `p`, `first_of` is the one first position that does.
pub proof fn lemma_first_of<A>(s: Seq<A>, p: spec_fn(A) -> bool)
    requires
        any_of(s, p),
    ensures
        is_first(s, p, first_of(s, p)),
        forall|k: int| is_first(s, p, k) ==> k == first_of(s, p),
{
    let w = choose|i: int| 0 <= i < s.len() && p(#[trigger] s[i]);
    lemma_first_exists(s, p, w);
    let f = first_of(s, p);
    assert forall|k: int| is_first(s, p, k) implies k == f by {
        if k < f {
            assert(!p(s[k]));
        }
        if f < k {
            assert(!p(s[f]));
        }
    }
}

proof fn lemma_first_exists<A>(s: Seq<A>, p: spec_fn(A) -> bool, w: int)
    requires
        0 <= w < s.len(),
        p(s[w]),
    ensures
        exists|i: int| is_first(s, p, i),
    decreases w,
{
    if forall|j: int| 0 <= j < w ==> !p(#[trigger] s[j]) {
        assert(is_first(s, p, w));
    } else {
        let v = choose|j: int| 0 <= j < w && p(#[trigger] s[j]);
        lemma_first_exists(s, p, v);
    }
}

/// A position found by a left-to-right search is the first one.
pub proof fn lemma_found_first<A>(s: Seq<A>, p: spec_fn(A) -> bool, i: int)
    requires
        is_first(s, p, i),
    ensures
        any_of(s, p),
        first_of(s, p) == i,
{
    assert(p(s[i]));
    lemma_first_of(s, p);
}

} // verus!
