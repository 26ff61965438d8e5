//! Facts about sequences that more than one module needs.

use vstd::prelude::*;

verus! {

/// What a sequence with one more item holds.
pub proof fn lemma_push_contains<T>(s: Seq<T>, x: T)
    ensures
        forall|y: T| #[trigger] s.push(x).contains(y) <==> s.contains(y) || y == x,
{
    let p = s.push(x);
    assert forall|y: T| #[trigger] p.contains(y) <==> s.contains(y) || y == x by {
        if s.contains(y) {
            let i = choose|i: int| 0 <= i < s.len() && s[i] == y;
            assert(p[i] == y);
        }
        if y == x {
            assert(p[s.len() as int] == y);
        }
        if p.contains(y) {
            let i = choose|i: int| 0 <= i < p.len() && p[i] == y;
            if i < s.len() {
                assert(s[i] == y);
            }
        }
    }
}

/// A new item makes no duplicate.
pub proof fn lemma_push_no_duplicates<T>(s: Seq<T>, x: T)
    requires
        s.no_duplicates(),
        !s.contains(x),
    ensures
        s.push(x).no_duplicates(),
{
    assert forall|i: int| 0 <= i < s.len() implies #[trigger] s[i] != x by {
        assert(s.contains(s[i]));
    }
}

} // verus!
