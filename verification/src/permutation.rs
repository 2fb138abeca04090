//! Facts about rearranging sequences that the sorting loops rely on.
use vstd::prelude::*;

verus! {

/// Exchanging two positions keeps a sequence's multiset of elements.
pub proof fn lemma_swap_preserves_multiset<A>(s: Seq<A>, i: int, j: int)
    requires
        0 <= i < s.len(),
        0 <= j < s.len(),
    ensures
        s.update(i, s[j]).update(j, s[i]).to_multiset() == s.to_multiset(),
{
    broadcast use {
        vstd::seq_lib::to_multiset_update,
        vstd::seq_lib::to_multiset_contains,
        vstd::multiset::group_multiset_properties,
        vstd::multiset::group_multiset_axioms,
    };

    let t = s.update(i, s[j]);
    assert(t.to_multiset() == s.to_multiset().insert(s[j]).remove(s[i]));
    assert(t.update(j, s[i]).to_multiset() == t.to_multiset().insert(s[i]).remove(t[j]));
    if i == j {
        assert(s.update(i, s[j]).update(j, s[i]) =~= s);
    } else {
        assert(t[j] == s[j]);
        let m = s.to_multiset();
        assert(m.count(s[i]) > 0) by {
            assert(s.contains(s[i]));
        }
        let m4 = m.insert(s[j]).remove(s[i]).insert(s[i]).remove(s[j]);
        assert forall|x: A| m4.count(x) == m.count(x) by {
            if x == s[i] && x == s[j] {
            } else if x == s[i] {
            } else if x == s[j] {
            } else {
            }
        }
        assert(m4 =~= m);
    }
}

/// Equal multisets contain the same elements.
pub proof fn lemma_same_multiset_same_elements<A>(s: Seq<A>, t: Seq<A>, x: A)
    requires
        s.to_multiset() == t.to_multiset(),
    ensures
        s.contains(x) <==> t.contains(x),
{
    broadcast use vstd::seq_lib::to_multiset_contains;

    if s.contains(x) {
        assert(s.to_multiset().count(x) > 0);
    }
    if t.contains(x) {
        assert(t.to_multiset().count(x) > 0);
    }
}

} // verus!
