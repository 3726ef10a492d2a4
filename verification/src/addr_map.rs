//! A small map keyed by Ethereum addresses.
//!
//! The fee manager keeps two per-token tables: prices and cooldown
//! deadlines. Both are tiny (one entry per token contract), so they are held
//! as association lists with pairwise-distinct keys, and specified as a
//! `Map<EthAddr, V>`.

use crate::address::EthAddr;
use vstd::prelude::*;

verus! {

/// An association list with pairwise-distinct address keys, seen as a map.
#[derive(Clone, Debug)]
pub struct AddrMap<V> {
    pairs: Vec<(EthAddr, V)>,
}

/// The map an association list denotes; a later entry would win, though a
/// well-formed list never holds a key twice.
pub open spec fn assoc_to_map<V>(s: Seq<(EthAddr, V)>) -> Map<EthAddr, V>
    decreases s.len(),
{
    if s.len() == 0 {
        Map::empty()
    } else {
        assoc_to_map(s.drop_last()).insert(s.last().0, s.last().1)
    }
}

/// Pairwise-distinct keys.
pub open spec fn distinct_keys<V>(s: Seq<(EthAddr, V)>) -> bool {
    forall|i: int, j: int| 0 <= i < j < s.len() ==> s[i].0 != s[j].0
}

/// A key is in the denoted map exactly when some entry holds it.
proof fn lemma_assoc_contains<V>(s: Seq<(EthAddr, V)>, k: EthAddr)
    ensures
        assoc_to_map(s).contains_key(k) <==> exists|i: int| 0 <= i < s.len() && s[i].0 == k,
    decreases s.len(),
{
    if s.len() > 0 {
        lemma_assoc_contains(s.drop_last(), k);
        if s.last().0 == k {
            assert(s[s.len() - 1].0 == k);
        } else if exists|i: int| 0 <= i < s.drop_last().len() && s.drop_last()[i].0 == k {
            let i = choose|i: int| 0 <= i < s.drop_last().len() && s.drop_last()[i].0 == k;
            assert(s[i].0 == k);
        } else if exists|i: int| 0 <= i < s.len() && s[i].0 == k {
            let i = choose|i: int| 0 <= i < s.len() && s[i].0 == k;
            assert(s.drop_last()[i].0 == k);
        }
    }
}

/// With distinct keys, the entry holding a key gives the map's value at it.
proof fn lemma_assoc_value<V>(s: Seq<(EthAddr, V)>, i: int)
    requires
        distinct_keys(s),
        0 <= i < s.len(),
    ensures
        assoc_to_map(s).contains_key(s[i].0),
        assoc_to_map(s)[s[i].0] == s[i].1,
    decreases s.len(),
{
    if i == s.len() - 1 {
    } else {
        assert(s.drop_last()[i] == s[i]);
        lemma_assoc_value(s.drop_last(), i);
        assert(s.last().0 != s[i].0);
    }
}

/// Appending a fresh entry inserts it into the denoted map.
proof fn lemma_assoc_push<V>(s: Seq<(EthAddr, V)>, k: EthAddr, v: V)
    ensures
        assoc_to_map(s.push((k, v))) == assoc_to_map(s).insert(k, v),
{
    assert(s.push((k, v)).drop_last() =~= s);
    assert(s.push((k, v)).last() == (k, v));
}

/// Overwriting the entry that holds a key updates the denoted map at that
/// key alone.
proof fn lemma_assoc_update<V>(s: Seq<(EthAddr, V)>, i: int, v: V)
    requires
        distinct_keys(s),
        0 <= i < s.len(),
    ensures
        assoc_to_map(s.update(i, (s[i].0, v))) =~= assoc_to_map(s).insert(s[i].0, v),
    decreases s.len(),
{
    let k = s[i].0;
    let t = s.update(i, (k, v));
    if i == s.len() - 1 {
        assert(t.drop_last() =~= s.drop_last());
        assert(t.last() == (k, v));
    } else {
        assert(t.drop_last() =~= s.drop_last().update(i, (k, v)));
        assert(s.drop_last()[i] == s[i]);
        lemma_assoc_update(s.drop_last(), i, v);
        assert(t.last() == s.last());
        assert(s.last().0 != k);
    }
}

impl<V: Copy> AddrMap<V> {
    /// The keys of this list are pairwise distinct.
    pub closed spec fn wf(&self) -> bool {
        distinct_keys(self.pairs@)
    }

    /// The map this list denotes.
    pub closed spec fn view(&self) -> Map<EthAddr, V> {
        assoc_to_map(self.pairs@)
    }

    /// The empty map.
    pub fn new() -> (r: AddrMap<V>)
        ensures
            r.wf(),
            r@ == Map::<EthAddr, V>::empty(),
    {
        AddrMap { pairs: Vec::new() }
    }

    /// Where the key sits in the list, if anywhere.
    fn position(&self, key: &EthAddr) -> (r: Option<usize>)
        requires
            self.wf(),
        ensures
            match r {
                Some(i) => i < self.pairs@.len() && self.pairs@[i as int].0 == *key,
                None => !self@.contains_key(*key),
            },
    {
        let mut i: usize = 0;
        while i < self.pairs.len()
            invariant
                self.wf(),
                0 <= i <= self.pairs.len(),
                forall|j: int| 0 <= j < i ==> self.pairs@[j].0 != *key,
            decreases self.pairs.len() - i,
        {
            if self.pairs[i].0 == *key {
                return Some(i);
            }
            i = i + 1;
        }
        proof {
            lemma_assoc_contains(self.pairs@, *key);
        }
        None
    }

    /// The value under a key, if present.
    pub fn get(&self, key: &EthAddr) -> (r: Option<V>)
        requires
            self.wf(),
        ensures
            r is Some <==> self@.contains_key(*key),
            r is Some ==> r->0 == self@[*key],
    {
        match self.position(key) {
            None => None,
            Some(i) => {
                proof {
                    lemma_assoc_value(self.pairs@, i as int);
                }
                Some(self.pairs[i].1)
            },
        }
    }

    /// Binds a key to a value, replacing any earlier binding.
    pub fn insert(&mut self, key: EthAddr, value: V)
        requires
            old(self).wf(),
        ensures
            final(self).wf(),
            final(self)@ == old(self)@.insert(key, value),
    {
        match self.position(&key) {
            Some(i) => {
                proof {
                    lemma_assoc_update(self.pairs@, i as int, value);
                }
                self.pairs[i] = (key, value);
            },
            None => {
                proof {
                    lemma_assoc_contains(self.pairs@, key);
                    lemma_assoc_push(self.pairs@, key, value);
                    assert forall|i: int, j: int|
                        0 <= i < j < self.pairs@.push((key, value)).len() implies self.pairs@.push(
                        (key, value),
                    )[i].0 != self.pairs@.push((key, value))[j].0 by {
                        if j < self.pairs@.len() {
                        } else {
                            assert(self.pairs@.push((key, value))[j] == (key, value));
                            assert(self.pairs@[i].0 != key);
                        }
                    }
                }
                self.pairs.push((key, value));
            },
        }
    }
}

} // verus!
