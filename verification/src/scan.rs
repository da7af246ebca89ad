//! Finding the first item of a sequence that meets a condition.

use vstd::prelude::*;

verus! {

/// The index of the first item of `s` that meets `f`; the length of `s`
/// where none does.
pub open spec fn first_where<A>(s: Seq<A>, f: spec_fn(A) -> bool) -> int
    decreases s.len(),
{
    if s.len() == 0 || f(s[0]) {
        0
    } else {
        1 + first_where(s.drop_first(), f)
    }
}

/// `first_where(s, f)` lies in `s` or is its length; no item before it meets
/// `f`, and the item at it does where it lies in `s`.
pub proof fn lemma_first_where<A>(s: Seq<A>, f: spec_fn(A) -> bool)
    ensures
        0 <= first_where(s, f) <= s.len(),
        forall|j: int| 0 <= j < first_where(s, f) ==> !f(#[trigger] s[j]),
        first_where(s, f) < s.len() ==> f(s[first_where(s, f)]),
    decreases s.len(),
{
    if !(s.len() == 0 || f(s[0])) {
        let t = s.drop_first();
        lemma_first_where(t, f);
        assert forall|j: int| 0 <= j < first_where(s, f) implies !f(#[trigger] s[j]) by {
            if j > 0 {
                assert(s[j] == t[j - 1]);
            }
        }
        if first_where(s, f) < s.len() {
            assert(t[first_where(t, f)] == s[first_where(s, f)]);
        }
    }
}

/// An index before which no item meets `f`, and at which an item does or `s`
/// ends, is `first_where(s, f)`.
pub proof fn lemma_first_where_is<A>(s: Seq<A>, f: spec_fn(A) -> bool, n: int)
    requires
        0 <= n <= s.len(),
        forall|j: int| 0 <= j < n ==> !f(#[trigger] s[j]),
        n < s.len() ==> f(s[n]),
    ensures
        first_where(s, f) == n,
    decreases n,
{
    if n > 0 {
        let t = s.drop_first();
        assert(!f(s[0]));
        assert forall|j: int| 0 <= j < n - 1 implies !f(#[trigger] t[j]) by {
            assert(t[j] == s[j + 1]);
        }
        if n - 1 < t.len() {
            assert(t[n - 1] == s[n]);
        }
        lemma_first_where_is(t, f, n - 1);
    }
}

} // verus!
