//! Association lists keyed by strings. The wire protocol delivers its maps
//! as JSON objects; inside the library they are kept as vectors of
//! key-value pairs, looked up by the first matching key, with a `Map` view
//! for contracts.
use vstd::prelude::*;

verus! {

/// First-match lookup over an association sequence.
pub open spec fn alist_get<V>(s: Seq<(String, V)>, k: Seq<char>) -> Option<V>
    decreases s.len(),
{
    if s.len() == 0 {
        None
    } else if s[0].0@ == k {
        Some(s[0].1)
    } else {
        alist_get(s.drop_first(), k)
    }
}

/// The map an association sequence denotes; on a duplicated key the first
/// entry wins, as in `alist_get`.
pub open spec fn alist_map<V>(s: Seq<(String, V)>) -> Map<Seq<char>, V>
    decreases s.len(),
{
    if s.len() == 0 {
        Map::<Seq<char>, V>::empty()
    } else {
        alist_map(s.drop_first()).insert(s[0].0@, s[0].1)
    }
}

pub open spec fn alist_keys_unique<V>(s: Seq<(String, V)>) -> bool {
    forall|i: int, j: int| 0 <= i < j < s.len() ==> (#[trigger] s[i]).0@ != (#[trigger] s[j]).0@
}

/// `alist_get` and `alist_map` agree on every key.
pub proof fn lemma_alist_map_get<V>(s: Seq<(String, V)>, k: Seq<char>)
    ensures
        alist_map(s).contains_key(k) <==> alist_get(s, k) is Some,
        alist_get(s, k) matches Some(v) ==> alist_map(s)[k] == v,
    decreases s.len(),
{
    if s.len() > 0 {
        lemma_alist_map_get(s.drop_first(), k);
    }
}

/// Under unique keys, whatever entry holds key `k` carries the looked-up
/// value.
pub proof fn lemma_alist_get_unique<V>(s: Seq<(String, V)>, k: Seq<char>)
    requires
        alist_keys_unique(s),
    ensures
        forall|i: int| 0 <= i < s.len() && (#[trigger] s[i]).0@ == k
            ==> alist_get(s, k) == Some(s[i].1),
    decreases s.len(),
{
    if s.len() > 0 {
        assert(alist_keys_unique(s.drop_first())) by {
            assert forall|i: int, j: int| 0 <= i < j < s.drop_first().len() implies
                (#[trigger] s.drop_first()[i]).0@ != (#[trigger] s.drop_first()[j]).0@ by {
                assert(s.drop_first()[i] == s[i + 1]);
                assert(s.drop_first()[j] == s[j + 1]);
            }
        }
        lemma_alist_get_unique(s.drop_first(), k);
        assert forall|i: int| 0 <= i < s.len() && (#[trigger] s[i]).0@ == k implies
            alist_get(s, k) == Some(s[i].1) by {
            if i > 0 {
                assert(s[0].0@ != s[i].0@);
                assert(s.drop_first()[i - 1] == s[i]);
            }
        }
    }
}

/// First-match lookup, returning a reference to the stored value.
pub fn alist_lookup<'a, V>(entries: &'a Vec<(String, V)>, key: &String) -> (r: Option<&'a V>)
    ensures
        match r {
            Some(v) => alist_get(entries@, key@) == Some(*v),
            None => alist_get(entries@, key@) is None,
        },
{
    let n = entries.len();
    assert(entries@.skip(0) == entries@);
    for i in 0..n
        invariant
            n == entries@.len(),
            alist_get(entries@, key@) == alist_get(entries@.skip(i as int), key@),
    {
        proof {
            assert(entries@.skip(i as int)[0] == entries@[i as int]);
            assert(entries@.skip(i as int).drop_first() == entries@.skip(i + 1));
        }
        if entries[i].0.eq(key) {
            return Some(&entries[i].1);
        }
    }
    None
}

} // verus!
