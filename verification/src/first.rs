use vstd::prelude::*;

verus! {

/// `i` is the first index of `s` whose element satisfies `p`.
pub open spec fn is_first_where<A>(s: Seq<A>, p: spec_fn(A) -> bool, i: int) -> bool {
    &&& 0 <= i < s.len()
    &&& p(s[i])
    &&& forall|j: int| 0 <= j < i ==> !p(#[trigger] s[j])
}

/// The first index of `s` whose element satisfies `p`, if any.
pub open spec fn first_where<A>(s: Seq<A>, p: spec_fn(A) -> bool) -> Option<int> {
    if exists|i: int| is_first_where(s, p, i) {
        Some(choose|i: int| is_first_where(s, p, i))
    } else {
        None
    }
}

/// `first_where` gives the one first index when some element satisfies `p`, and `None`
/// exactly when none does.
pub proof fn lemma_first_where<A>(s: Seq<A>, p: spec_fn(A) -> bool)
    ensures
        first_where(s, p) matches Some(i) ==> is_first_where(s, p, i),
        first_where(s, p) is None ==> forall|j: int| 0 <= j < s.len() ==> !p(#[trigger] s[j]),
        forall|i: int| #[trigger] is_first_where(s, p, i) ==> first_where(s, p) == Some(i),
{
    if exists|i: int| is_first_where(s, p, i) {
        let i = choose|i: int| is_first_where(s, p, i);
        assert forall|k: int| #[trigger] is_first_where(s, p, k) implies k == i by {
            if k < i {
                assert(!p(s[k]));
            } else if i < k {
                assert(!p(s[i]));
            }
        }
    } else {
        assert forall|j: int| 0 <= j < s.len() implies !p(#[trigger] s[j]) by {
            if p(s[j]) {
                lemma_first_where_exists(s, p, j);
            }
        }
    }
}

proof fn lemma_first_where_exists<A>(s: Seq<A>, p: spec_fn(A) -> bool, j: int)
    requires
        0 <= j < s.len(),
        p(s[j]),
    ensures
        exists|i: int| is_first_where(s, p, i),
    decreases j,
{
    if forall|k: int| 0 <= k < j ==> !p(#[trigger] s[k]) {
        assert(is_first_where(s, p, j));
    } else {
        let k = choose|k: int| 0 <= k < j && p(#[trigger] s[k]);
        lemma_first_where_exists(s, p, k);
    }
}

} // verus!
