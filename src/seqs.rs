//! Facts about sequences used by the keyed containers.
use vstd::prelude::*;

verus! {

/// In a sequence without duplicates, `index_of` finds each element at its
/// own position.
pub proof fn lemma_index_of<A>(s: Seq<A>, i: int)
    requires
        s.no_duplicates(),
        0 <= i < s.len(),
    ensures
        s.index_of(s[i]) == i,
{
    assert(s.contains(s[i]));
    let j = s.index_of(s[i]);
    assert(0 <= j < s.len() && s[j] == s[i]);
}

/// What a sequence with one element pushed contains.
pub proof fn lemma_push_contains<A>(s: Seq<A>, x: A, k: A)
    ensures
        s.push(x).contains(k) <==> (s.contains(k) || k == x),
{
    if s.contains(k) {
        let t = choose|t: int| 0 <= t < s.len() && s[t] == k;
        assert(s.push(x)[t] == k);
    }
    if k == x {
        assert(s.push(x)[s.len() as int] == k);
    }
    if s.push(x).contains(k) {
        let t = choose|t: int| 0 <= t < s.push(x).len() && s.push(x)[t] == k;
        if t < s.len() {
            assert(s[t] == k);
        }
    }
}

} // verus!
