//! Finding the first element of a sequence that meets a condition.

use vstd::prelude::*;

verus! {

/// Whether `i` is where the first element of `s` that meets `p` stands, or
/// the length of `s` if none meets it.
pub open spec fn is_first<T>(s: Seq<T>, p: spec_fn(T) -> bool, i: int) -> bool {
    &&& 0 <= i <= s.len()
    &&& i < s.len() ==> p(s[i])
    &&& forall|k: int| 0 <= k < i ==> !p(#[trigger] s[k])
}

/// Where the first element of `s` that meets `p` stands, or the length of
/// `s` if none meets it.
pub open spec fn first_where<T>(s: Seq<T>, p: spec_fn(T) -> bool) -> int {
    choose|i: int| is_first(s, p, i)
}

/// There is one such place, and `first_where` names it.
pub proof fn lemma_first_where<T>(s: Seq<T>, p: spec_fn(T) -> bool, i: int)
    requires
        is_first(s, p, i),
    ensures
        first_where(s, p) == i,
{
    let c = first_where(s, p);
    assert(is_first(s, p, c));
    if c < i {
        assert(!p(s[c]));
    } else if i < c {
        assert(!p(s[i]));
    }
}

/// `first_where` always names such a place.
pub proof fn lemma_first_exists<T>(s: Seq<T>, p: spec_fn(T) -> bool)
    ensures
        is_first(s, p, first_where(s, p)),
    decreases s.len(),
{
    if s.len() == 0 {
        assert(is_first(s, p, 0));
    } else {
        let front = s.drop_last();
        lemma_first_exists(front, p);
        let c = first_where(front, p);
        if c < front.len() {
            assert(s[c] == front[c]);
            assert forall|k: int| 0 <= k < c implies !p(#[trigger] s[k]) by {
                assert(s[k] == front[k]);
            }
            assert(is_first(s, p, c));
        } else {
            assert forall|k: int| 0 <= k < front.len() implies !p(#[trigger] s[k]) by {
                assert(s[k] == front[k]);
            }
            if p(s[s.len() - 1]) {
                assert(is_first(s, p, s.len() - 1));
            } else {
                assert(is_first(s, p, s.len() as int));
            }
        }
    }
}

} // verus!
