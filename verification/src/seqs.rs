//! A shared spec-level notion of "the first element satisfying a
//! predicate", used by the scans that take the first adequate match:
//! channel lookup, identity matching, and group selection.

use vstd::prelude::*;

verus! {

/// The least index of `s` whose element satisfies `p`, or `s.len()`
/// if none does.
pub open spec fn first_index<T>(s: Seq<T>, p: spec_fn(T) -> bool) -> int
    decreases s.len(),
{
    if s.len() == 0 {
        0
    } else if p(s[0]) {
        0
    } else {
        1 + first_index(s.drop_first(), p)
    }
}

/// `first_index` always lies between 0 and the length.
pub proof fn lemma_first_index_bounds<T>(s: Seq<T>, p: spec_fn(T) -> bool)
    ensures
        0 <= first_index(s, p) <= s.len(),
    decreases s.len(),
{
    if s.len() == 0 {
    } else if p(s[0]) {
    } else {
        lemma_first_index_bounds(s.drop_first(), p);
    }
}

/// `first_index` is characterized by: everything before it fails `p`,
/// and it satisfies `p` unless it is the length.
pub proof fn lemma_first_index<T>(s: Seq<T>, p: spec_fn(T) -> bool, k: int)
    requires
        0 <= k <= s.len(),
        forall|j: int| 0 <= j < k ==> !#[trigger] p(s[j]),
        k < s.len() ==> p(s[k]),
    ensures
        first_index(s, p) == k,
    decreases s.len(),
{
    if s.len() == 0 {
    } else if k == 0 {
    } else {
        assert(!p(s[0]));
        assert forall|j: int| 0 <= j < k - 1 implies !#[trigger] p(s.drop_first()[j]) by {
            assert(s.drop_first()[j] == s[j + 1]);
        }
        if k - 1 < s.drop_first().len() {
            assert(s.drop_first()[k - 1] == s[k]);
        }
        lemma_first_index(s.drop_first(), p, k - 1);
    }
}

} // verus!
