//! Finding the first entry of a sequence that meets a condition.

use vstd::prelude::*;

verus! {

/// The position of the first entry of `s` that `hit` holds of.
pub open spec fn first_index<T>(s: Seq<T>, hit: spec_fn(T) -> bool) -> Option<int>
    decreases s.len(),
{
    if s.len() == 0 {
        None
    } else {
        match first_index(s.drop_last(), hit) {
            Some(k) => Some(k),
            None => if hit(s.last()) {
                Some(s.len() - 1)
            } else {
                None
            },
        }
    }
}

/// `first_index` finds the first entry that meets the condition, and finds
/// none only where none meets it.
pub proof fn lemma_first_index<T>(s: Seq<T>, hit: spec_fn(T) -> bool)
    ensures
        match first_index(s, hit) {
            Some(k) => 0 <= k < s.len() && hit(s[k]) && forall|j: int|
                0 <= j < k ==> !hit(#[trigger] s[j]),
            None => forall|j: int| 0 <= j < s.len() ==> !hit(#[trigger] s[j]),
        },
    decreases s.len(),
{
    if s.len() > 0 {
        let front = s.drop_last();
        lemma_first_index(front, hit);
        match first_index(front, hit) {
            Some(k) => {
                assert(front[k] == s[k]);
                assert forall|j: int| 0 <= j < k implies !hit(#[trigger] s[j]) by {
                    assert(front[j] == s[j]);
                }
            },
            None => {
                assert forall|j: int| 0 <= j < s.len() - 1 implies !hit(#[trigger] s[j]) by {
                    assert(front[j] == s[j]);
                }
            },
        }
    }
}

/// An entry that meets the condition, with none before it among the first
/// `n - 1` entries, is the first that meets it in the whole sequence.
pub proof fn lemma_first_index_found<T>(s: Seq<T>, n: int, hit: spec_fn(T) -> bool)
    requires
        0 < n <= s.len(),
        first_index(s.take(n - 1), hit) is None,
        hit(s[n - 1]),
    ensures
        first_index(s, hit) == Some(n - 1),
    decreases s.len() - n,
{
    if n == s.len() {
        assert(s.take(n - 1) =~= s.drop_last());
    } else {
        assert(s.drop_last().take(n - 1) =~= s.take(n - 1));
        lemma_first_index_found(s.drop_last(), n, hit);
    }
}

} // verus!
