//! Association lists: a sequence of key/value pairs read as a finite map in
//! which a later pair overrides an earlier pair with the same key.

use vstd::prelude::*;

verus! {

/// The map that a sequence of pairs denotes, keys and values taken by their views.
pub open spec fn assoc_map<K: View, V: View>(s: Seq<(K, V)>) -> Map<K::V, V::V>
    decreases s.len(),
{
    if s.len() == 0 {
        Map::empty()
    } else {
        assoc_map(s.drop_last()).insert(s.last().0@, s.last().1@)
    }
}

/// Pairs at index `i` and beyond whose keys differ from `k` leave the entry for `k`
/// as the prefix `s.take(i)` gives it.
pub proof fn lemma_assoc_suffix_irrelevant<K: View, V: View>(s: Seq<(K, V)>, i: int, k: K::V)
    requires
        0 <= i <= s.len(),
        forall|j: int| i <= j < s.len() ==> #[trigger] s[j].0@ != k,
    ensures
        assoc_map(s).contains_key(k) == assoc_map(s.take(i)).contains_key(k),
        assoc_map(s).contains_key(k) ==> assoc_map(s)[k] == assoc_map(s.take(i))[k],
    decreases s.len() - i,
{
    if i < s.len() {
        lemma_assoc_suffix_irrelevant(s, i + 1, k);
        let p = s.take(i + 1);
        assert(p.drop_last() =~= s.take(i));
        assert(p.last() == s[i]);
    } else {
        assert(s.take(i) =~= s);
    }
}

/// The pair at index `i - 1` gives the entry for its key in `assoc_map(s.take(i))`.
pub proof fn lemma_assoc_last_of_prefix<K: View, V: View>(s: Seq<(K, V)>, i: int)
    requires
        0 < i <= s.len(),
    ensures
        assoc_map(s.take(i)).contains_key(s[i - 1].0@),
        assoc_map(s.take(i))[s[i - 1].0@] == s[i - 1].1@,
{
    let p = s.take(i);
    assert(p.last() == s[i - 1]);
}

/// Appending a pair inserts it into the denoted map.
pub proof fn lemma_assoc_push<K: View, V: View>(s: Seq<(K, V)>, k: K, v: V)
    ensures
        assoc_map(s.push((k, v))) == assoc_map(s).insert(k@, v@),
{
    assert(s.push((k, v)).drop_last() =~= s);
}

} // verus!
