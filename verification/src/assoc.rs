//! Spec-level reasoning about association lists (sequences of key/value
//! pairs).  The AST registry and the context-side tables are all small
//! association lists; this module relates linear first-match search to the
//! map such a list describes.

use vstd::prelude::*;

verus! {

/// The map described by an association list, later entries overriding
/// earlier ones.
pub open spec fn map_of<K, V>(s: Seq<(K, V)>) -> Map<K, V>
    decreases s.len(),
{
    if s.len() == 0 {
        Map::empty()
    } else {
        map_of(s.drop_last()).insert(s.last().0, s.last().1)
    }
}

/// The value paired with the first occurrence of `key` in `s`.
pub open spec fn find_first<K, V>(s: Seq<(K, V)>, key: K) -> Option<V>
    decreases s.len(),
{
    if s.len() == 0 {
        None
    } else if s[0].0 == key {
        Some(s[0].1)
    } else {
        find_first(s.drop_first(), key)
    }
}

/// The association list with every entry for `key` removed, other entries
/// kept in order.
pub open spec fn remove_key<K, V>(s: Seq<(K, V)>, key: K) -> Seq<(K, V)>
    decreases s.len(),
{
    if s.len() == 0 {
        Seq::empty()
    } else if s.last().0 == key {
        remove_key(s.drop_last(), key)
    } else {
        remove_key(s.drop_last(), key).push(s.last())
    }
}

/// Whether the keys of `s` are pairwise distinct.
pub open spec fn unique_keys<K, V>(s: Seq<(K, V)>) -> bool {
    forall|i: int, j: int| 0 <= i < j < s.len() ==> #[trigger] s[i].0 != #[trigger] s[j].0
}

/// Appending an entry leaves the result of a first-match search unchanged
/// unless the searched key was previously absent.
pub proof fn lemma_find_first_push<K, V>(s: Seq<(K, V)>, x: (K, V), key: K)
    ensures
        find_first(s, key) is Some ==> find_first(s.push(x), key) == find_first(s, key),
        find_first(s, key) is None && x.0 == key ==> find_first(s.push(x), key) == Some(x.1),
        find_first(s, key) is None && x.0 != key ==> find_first(s.push(x), key) is None,
    decreases s.len(),
{
    if s.len() == 0 {
        reveal_with_fuel(find_first, 2);
        assert(s.push(x)[0] == x);
        assert(s.push(x).drop_first() =~= Seq::<(K, V)>::empty());
    } else {
        assert(s.push(x)[0] == s[0]);
        if s[0].0 != key {
            assert(s.push(x).drop_first() =~= s.drop_first().push(x));
            lemma_find_first_push(s.drop_first(), x, key);
        }
    }
}

/// First-match search of a concatenation searches the left part first.
pub proof fn lemma_find_first_add<K, V>(x: Seq<(K, V)>, y: Seq<(K, V)>, key: K)
    ensures
        find_first(x + y, key) == if find_first(x, key) is Some {
            find_first(x, key)
        } else {
            find_first(y, key)
        },
    decreases x.len(),
{
    if x.len() == 0 {
        assert(x + y =~= y);
    } else {
        assert((x + y)[0] == x[0]);
        if x[0].0 != key {
            assert((x + y).drop_first() =~= x.drop_first() + y);
            lemma_find_first_add(x.drop_first(), y, key);
        }
    }
}

/// A successful first-match search exhibits the entry it found.
pub proof fn lemma_find_first_some_exists<K, V>(s: Seq<(K, V)>, key: K)
    requires
        find_first(s, key) is Some,
    ensures
        exists|i: int|
            0 <= i < s.len() && #[trigger] s[i].0 == key && find_first(s, key) == Some(s[i].1),
    decreases s.len(),
{
    if s[0].0 == key {
        assert(s[0].0 == key && find_first(s, key) == Some(s[0].1));
    } else {
        lemma_find_first_some_exists(s.drop_first(), key);
        let t = s.drop_first();
        let i = choose|i: int|
            0 <= i < t.len() && #[trigger] t[i].0 == key && find_first(t, key) == Some(t[i].1);
        assert(s[i + 1].0 == key && find_first(s, key) == Some(s[i + 1].1));
    }
}

/// The key of every entry is in the domain of the described map.
pub proof fn lemma_map_of_contains<K, V>(s: Seq<(K, V)>, key: K)
    ensures
        map_of(s).contains_key(key) <==> exists|i: int| 0 <= i < s.len() && #[trigger] s[i].0 == key,
    decreases s.len(),
{
    if s.len() == 0 {
    } else {
        lemma_map_of_contains(s.drop_last(), key);
        if s.last().0 == key {
            assert(s[s.len() - 1].0 == key);
        } else if map_of(s).contains_key(key) {
            let i = choose|i: int| 0 <= i < s.drop_last().len() && #[trigger] s.drop_last()[i].0 == key;
            assert(s[i].0 == key);
        } else {
            if exists|i: int| 0 <= i < s.len() && #[trigger] s[i].0 == key {
                let i = choose|i: int| 0 <= i < s.len() && #[trigger] s[i].0 == key;
                assert(s.drop_last()[i].0 == key);
            }
        }
    }
}

/// On an association list with pairwise-distinct keys, first-match search
/// agrees with the described map.
pub proof fn lemma_find_first_map_of<K, V>(s: Seq<(K, V)>, key: K)
    requires
        unique_keys(s),
    ensures
        find_first(s, key) == if map_of(s).contains_key(key) {
            Some(map_of(s)[key])
        } else {
            None::<V>
        },
    decreases s.len(),
{
    if s.len() == 0 {
    } else {
        let s0 = s.drop_last();
        let x = s.last();
        assert(unique_keys(s0)) by {
            assert(forall|i: int, j: int|
                0 <= i < j < s0.len() ==> #[trigger] s0[i].0 != #[trigger] s0[j].0) by {
                assert(forall|i: int| 0 <= i < s0.len() ==> s0[i] == s[i]);
            }
        }
        lemma_find_first_map_of(s0, key);
        lemma_map_of_contains(s0, key);
        assert(s0.push(x) =~= s);
        lemma_find_first_push(s0, x, key);
        if x.0 == key {
            if find_first(s0, key) is Some {
                lemma_find_first_some_exists(s0, key);
                let i = choose|i: int| 0 <= i < s0.len() && #[trigger] s0[i].0 == key;
                assert(s[i].0 == s[s.len() - 1].0);
                assert(false);
            }
        }
    }
}

} // verus!
