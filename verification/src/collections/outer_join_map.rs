use vstd::prelude::*;
use super::{Key, collect_with_second, find_first, find_key, has_first, keyed, lemma_keyed_no_duplicates,
    lemma_map_of_contains, lemma_map_of_index, lemma_map_of_push, lemma_map_of_remove, map_of};

verus! {

/// A map that behaves like a (left) outer join: each T maps to many U, and each U to one T.
/// A T stays known, with an empty collection, once all of its U are gone.
#[derive(Debug)]
pub struct OuterJoinMap<T: Key + Copy, U: Key + Copy> {
    keys: Vec<T>,
    pairs: Vec<(U, T)>,
}

impl<T: Key + Copy, U: Key + Copy> OuterJoinMap<T, U> {
    /// The known T are distinct, each U has one owner, and every owner is known.
    #[verifier::type_invariant]
    closed spec fn inv(self) -> bool {
        &&& self.keys@.no_duplicates()
        &&& keyed(self.pairs@)
        &&& forall|i: int| 0 <= i < self.pairs@.len() ==> self.keys@.contains(#[trigger] self.pairs@[i].1)
    }

    /// The known T.
    pub closed spec fn firsts(&self) -> Set<T> {
        self.keys@.to_set()
    }

    /// The T that owns each U.
    pub closed spec fn owners(&self) -> Map<U, T> {
        map_of(self.pairs@)
    }

    /// The U that `t` owns.
    pub open spec fn collection(&self, t: T) -> Set<U> {
        self.owners().dom().filter(|u: U| self.owners()[u] == t)
    }

    /// Creates an empty map.
    pub fn new() -> (map: Self)
        ensures
            map.firsts() == Set::<T>::empty(),
            map.owners() == Map::<U, T>::empty(),
    {
        let map = Self { keys: Vec::new(), pairs: Vec::new() };
        assert(map.firsts() =~= Set::<T>::empty());
        assert(map.owners() =~= Map::<U, T>::empty());
        map
    }

    /// Records that `values.0` owns `values.1`; refused, with `false`, when `values.1` has an owner.
    pub fn insert(&mut self, values: (T, U)) -> (is_inserted: bool)
        ensures
            is_inserted == !old(self).owners().contains_key(values.1),
            is_inserted ==> final(self).firsts() == old(self).firsts().insert(values.0),
            is_inserted ==> final(self).owners() == old(self).owners().insert(values.1, values.0),
            !is_inserted ==> final(self).firsts() == old(self).firsts(),
            !is_inserted ==> final(self).owners() == old(self).owners(),
    {
        proof {
            use_type_invariant(&*self);
        }
        match find_first(&self.pairs, &values.1) {
            Some(i) => {
                proof {
                    lemma_map_of_index(self.pairs@, i as int);
                }
                false
            },
            None => {
                proof {
                    lemma_map_of_push(self.pairs@, (values.1, values.0));
                }
                let mut map: Self = Self::new();
                std::mem::swap(&mut map, self);
                let Self { mut keys, mut pairs } = map;

                if find_key(&keys, &values.0).is_none() {
                    keys.push(values.0);
                    proof {
                        assert forall|i: int| 0 <= i < pairs@.len() implies keys@.contains(#[trigger] pairs@[i].1) by {
                            assert(old(self).keys@.contains(pairs@[i].1));
                            let k = choose|k: int| 0 <= k < old(self).keys@.len() && old(self).keys@[k] == pairs@[i].1;
                            assert(keys@[k] == pairs@[i].1);
                        }
                        assert(keys@[keys@.len() - 1] == values.0);
                    }
                }
                proof {
                    assert(keys@.to_set() =~= old(self).keys@.to_set().insert(values.0)) by {
                        assert forall|t: T| #[trigger] keys@.to_set().contains(t) <==> old(self).keys@.to_set().insert(values.0).contains(t) by {
                            if keys@.len() > old(self).keys@.len() {
                                assert(keys@ == old(self).keys@.push(values.0));
                                if old(self).keys@.contains(t) {
                                    let k = choose|k: int| 0 <= k < old(self).keys@.len() && old(self).keys@[k] == t;
                                    assert(keys@[k] == t);
                                }
                                if keys@.contains(t) && t != values.0 {
                                    let k = choose|k: int| 0 <= k < keys@.len() && keys@[k] == t;
                                    assert(old(self).keys@[k] == t);
                                }
                            }
                        }
                    }
                    assert(keys@.contains(values.0));
                }
                pairs.push((values.1, values.0));
                proof {
                    assert forall|i: int| 0 <= i < pairs@.len() implies keys@.contains(#[trigger] pairs@[i].1) by {
                        if i < pairs@.len() - 1 {
                            assert(pairs@[i] == old(self).pairs@[i]);
                            assert(old(self).keys@.contains(pairs@[i].1));
                            let k = choose|k: int| 0 <= k < old(self).keys@.len() && old(self).keys@[k] == pairs@[i].1;
                            assert(keys@.to_set().contains(pairs@[i].1));
                        }
                    }
                }
                *self = Self { keys, pairs };

                true
            },
        }
    }

    /// Gets the U that `key` owns; `None` when `key` is unknown.
    pub fn get_first(&self, key: &T) -> (collection: Option<Vec<U>>)
        ensures
            match collection {
                Some(c) => {
                    &&& self.firsts().contains(*key)
                    &&& c@.no_duplicates()
                    &&& c@.to_set() == self.collection(*key)
                },
                None => !self.firsts().contains(*key),
            },
    {
        proof {
            use_type_invariant(self);
        }
        match find_key(&self.keys, key) {
            Some(i) => Some(self.collect(key)),
            None => None,
        }
    }

    /// The U that `key` owns.
    fn collect(&self, key: &T) -> (collection: Vec<U>)
        ensures
            collection@.no_duplicates(),
            collection@.to_set() == self.collection(*key),
    {
        proof {
            use_type_invariant(self);
            lemma_keyed_no_duplicates(self.pairs@);
        }
        let collection: Vec<U> = collect_with_second(&self.pairs, key);

        proof {
            assert forall|u: U| #[trigger] collection@.to_set().contains(u) <==> self.collection(*key).contains(u) by {
                lemma_map_of_contains(self.pairs@, u, *key);
            }
            assert(collection@.to_set() =~= self.collection(*key));
        }
        collection
    }

    /// Gets the owner of `key`.
    pub fn get_second(&self, key: &U) -> (owner: Option<&T>)
        ensures
            match owner {
                Some(t) => self.owners().contains_key(*key) && *t == self.owners()[*key],
                None => !self.owners().contains_key(*key),
            },
    {
        proof {
            use_type_invariant(self);
        }
        match find_first(&self.pairs, key) {
            Some(i) => {
                proof {
                    lemma_map_of_index(self.pairs@, i as int);
                }
                Some(&self.pairs[i].1)
            },
            None => None,
        }
    }

    /// Gets the U that share the owner of `key_second`; `None` when it has no owner.
    pub fn get_collection_second(&self, key_second: &U) -> (collection: Option<Vec<U>>)
        ensures
            match collection {
                Some(c) => {
                    &&& self.owners().contains_key(*key_second)
                    &&& c@.no_duplicates()
                    &&& c@.to_set() == self.collection(self.owners()[*key_second])
                },
                None => !self.owners().contains_key(*key_second),
            },
    {
        match self.get_second(key_second) {
            Some(key_first) => Some(self.collect(key_first)),
            None => None,
        }
    }

    /// Removes `key_second` from its owner's collection; the owner stays known.
    pub fn remove(&mut self, key_second: &U) -> (is_removed: bool)
        ensures
            is_removed == old(self).owners().contains_key(*key_second),
            final(self).firsts() == old(self).firsts(),
            final(self).owners() == old(self).owners().remove(*key_second),
    {
        proof {
            use_type_invariant(&*self);
        }
        match find_first(&self.pairs, key_second) {
            Some(i) => {
                proof {
                    lemma_map_of_index(self.pairs@, i as int);
                    lemma_map_of_remove(self.pairs@, i as int);
                }
                let mut map: Self = Self::new();
                std::mem::swap(&mut map, self);
                let Self { keys, mut pairs } = map;
                pairs.remove(i);
                proof {
                    assert forall|k: int| 0 <= k < pairs@.len() implies keys@.contains(#[trigger] pairs@[k].1) by {
                        let ks = if k < i { k } else { k + 1 };
                        assert(pairs@[k] == old(self).pairs@[ks]);
                    }
                }
                *self = Self { keys, pairs };

                true
            },
            None => {
                proof {
                    assert(old(self).owners().remove(*key_second) =~= old(self).owners());
                }
                false
            },
        }
    }

    /// Moves `value` to the collection of `destination`, which becomes known; returns its former
    /// owner, or `None`, with nothing changed, when it has none.
    pub fn replace(&mut self, value: U, destination: T) -> (former: Option<T>)
        ensures
            match former {
                Some(t) => {
                    &&& old(self).owners().contains_key(value)
                    &&& t == old(self).owners()[value]
                    &&& final(self).firsts() == old(self).firsts().insert(destination)
                    &&& final(self).owners() == old(self).owners().insert(value, destination)
                },
                None => {
                    &&& !old(self).owners().contains_key(value)
                    &&& final(self).firsts() == old(self).firsts()
                    &&& final(self).owners() == old(self).owners()
                },
            },
    {
        let key_first: T = match self.get_second(&value) {
            Some(k) => *k,
            None => {
                return None;
            },
        };
        self.remove(&value);
        self.insert((destination, value));

        proof {
            assert(self.owners() =~= old(self).owners().insert(value, destination));
        }
        Some(key_first)
    }

    /// Gets whether `key` is known.
    pub fn contains_key_first(&self, key: &T) -> (contains: bool)
        ensures
            contains == self.firsts().contains(*key),
    {
        find_key(&self.keys, key).is_some()
    }

    /// Gets whether `key` has an owner.
    pub fn contains_key_second(&self, key: &U) -> (contains: bool)
        ensures
            contains == self.owners().contains_key(*key),
    {
        proof {
            use_type_invariant(self);
        }
        match find_first(&self.pairs, key) {
            Some(i) => {
                proof {
                    lemma_map_of_index(self.pairs@, i as int);
                }
                true
            },
            None => false,
        }
    }
}

/// Each U belongs to one T at most: the collections of two different T share nothing.
pub proof fn law_outer_join_single_owner<T: Key + Copy, U: Key + Copy>(map: OuterJoinMap<T, U>, t1: T, t2: T, u: U)
    requires
        map.collection(t1).contains(u),
        map.collection(t2).contains(u),
    ensures
        t1 == t2,
{
}

/// After `u` is given to `t`, it is in the collection of `t` and of no other T, and its owner reads back as `t`.
pub proof fn law_outer_join_insert_get<T: Key + Copy, U: Key + Copy>(
    before: OuterJoinMap<T, U>,
    after: OuterJoinMap<T, U>,
    t: T,
    u: U,
    other: T,
)
    requires
        after.owners() == before.owners().insert(u, t),
        other != t,
    ensures
        after.owners()[u] == t,
        after.collection(t).contains(u),
        !after.collection(other).contains(u),
        after.collection(t) == before.collection(t).insert(u),
{
    assert(after.collection(t) =~= before.collection(t).insert(u));
}

} // verus!
