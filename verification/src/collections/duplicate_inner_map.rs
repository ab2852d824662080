use vstd::prelude::*;
use super::{Key, find_first, find_second, has_first, keyed, lemma_inverse, lemma_map_of_index, lemma_map_of_push, lemma_map_of_remove,
    lemma_swapped_push, lemma_swapped_remove, map_of, swapped};

verus! {

/// A map that behaves like an inner join: each T maps to one U, and each U to one T.
#[derive(Debug)]
pub struct DuplicateInnerMap<T: Key + Copy, U: Key + Copy> {
    pairs: Vec<(T, U)>,
}

impl<T: Key + Copy, U: Key + Copy> DuplicateInnerMap<T, U> {
    /// No two pairs share a first component, nor a second one.
    #[verifier::type_invariant]
    closed spec fn inv(self) -> bool {
        keyed(self.pairs@) && keyed(swapped(self.pairs@))
    }

    /// The map from first to second components.
    pub closed spec fn first_map(&self) -> Map<T, U> {
        map_of(self.pairs@)
    }

    /// The map from second to first components.
    pub closed spec fn second_map(&self) -> Map<U, T> {
        map_of(swapped(self.pairs@))
    }

    /// Creates an empty map.
    pub fn new() -> (map: Self)
        ensures
            map.first_map() == Map::<T, U>::empty(),
            map.second_map() == Map::<U, T>::empty(),
    {
        let map = Self { pairs: Vec::new() };
        assert(map.first_map() =~= Map::<T, U>::empty());
        assert(map.second_map() =~= Map::<U, T>::empty());
        map
    }

    /// Inserts a pair whose components are both new; a pair that collides with either
    /// direction is refused with `None`.
    pub fn insert(&mut self, values: (T, U)) -> (result: Option<(Option<U>, Option<T>)>)
        ensures
            old(self).first_map().contains_key(values.0) || old(self).second_map().contains_key(values.1) ==> {
                &&& result == None::<(Option<U>, Option<T>)>
                &&& final(self).first_map() == old(self).first_map()
                &&& final(self).second_map() == old(self).second_map()
            },
            !old(self).first_map().contains_key(values.0) && !old(self).second_map().contains_key(values.1) ==> {
                &&& result == Some((None::<U>, None::<T>))
                &&& final(self).first_map() == old(self).first_map().insert(values.0, values.1)
                &&& final(self).second_map() == old(self).second_map().insert(values.1, values.0)
            },
    {
        proof {
            use_type_invariant(&*self);
        }
        let first: Option<usize> = find_first(&self.pairs, &values.0);
        let second: Option<usize> = find_second(&self.pairs, &values.1);

        if first.is_some() || second.is_some() {
            proof {
                if let Some(i) = first {
                    lemma_map_of_index(self.pairs@, i as int);
                }
                if let Some(i) = second {
                    assert(swapped(self.pairs@)[i as int] == (self.pairs@[i as int].1, self.pairs@[i as int].0));
                    lemma_map_of_index(swapped(self.pairs@), i as int);
                }
            }
            None
        } else {
            proof {
                lemma_map_of_push(self.pairs@, values);
                lemma_swapped_push(self.pairs@, values);
                lemma_map_of_push(swapped(self.pairs@), (values.1, values.0));
            }
            let mut pairs: Vec<(T, U)> = Vec::new();
            std::mem::swap(&mut pairs, &mut self.pairs);
            pairs.push(values);
            self.pairs = pairs;

            Some((None, None))
        }
    }

    /// Gets what `key` maps to.
    pub fn get_first(&self, key: &T) -> (value: Option<&U>)
        ensures
            match value {
                Some(u) => {
                    &&& self.first_map().contains_key(*key)
                    &&& *u == self.first_map()[*key]
                    &&& self.second_map().contains_key(*u)
                    &&& self.second_map()[*u] == *key
                },
                None => !self.first_map().contains_key(*key),
            },
    {
        proof {
            use_type_invariant(self);
        }
        match find_first(&self.pairs, key) {
            Some(i) => {
                proof {
                    lemma_map_of_index(self.pairs@, i as int);
                    lemma_inverse(self.pairs@);
                }
                Some(&self.pairs[i].1)
            },
            None => None,
        }
    }

    /// Gets what maps to `key`.
    pub fn get_second(&self, key: &U) -> (value: Option<&T>)
        ensures
            match value {
                Some(t) => {
                    &&& self.second_map().contains_key(*key)
                    &&& *t == self.second_map()[*key]
                    &&& self.first_map().contains_key(*t)
                    &&& self.first_map()[*t] == *key
                },
                None => !self.second_map().contains_key(*key),
            },
    {
        proof {
            use_type_invariant(self);
        }
        match find_second(&self.pairs, key) {
            Some(i) => {
                proof {
                    assert(swapped(self.pairs@)[i as int] == (self.pairs@[i as int].1, self.pairs@[i as int].0));
                    lemma_map_of_index(swapped(self.pairs@), i as int);
                    lemma_inverse(self.pairs@);
                }
                Some(&self.pairs[i].0)
            },
            None => None,
        }
    }

    /// Removes the pair at `i`.
    fn remove_at(&mut self, i: usize) -> (pair: (T, U))
        requires
            i < old(self).pairs@.len(),
        ensures
            pair == old(self).pairs@[i as int],
            old(self).first_map().contains_key(pair.0),
            old(self).first_map()[pair.0] == pair.1,
            old(self).second_map().contains_key(pair.1),
            old(self).second_map()[pair.1] == pair.0,
            final(self).first_map() == old(self).first_map().remove(pair.0),
            final(self).second_map() == old(self).second_map().remove(pair.1),
    {
        proof {
            use_type_invariant(&*self);
            lemma_map_of_index(self.pairs@, i as int);
            assert(swapped(self.pairs@)[i as int] == (self.pairs@[i as int].1, self.pairs@[i as int].0));
            lemma_map_of_index(swapped(self.pairs@), i as int);
            lemma_map_of_remove(self.pairs@, i as int);
            lemma_swapped_remove(self.pairs@, i as int);
            lemma_map_of_remove(swapped(self.pairs@), i as int);
        }
        let mut pairs: Vec<(T, U)> = Vec::new();
        std::mem::swap(&mut pairs, &mut self.pairs);
        let pair: (T, U) = pairs.remove(i);
        self.pairs = pairs;
        pair
    }

    /// Removes the pair whose first component is `key`, returning its second component.
    pub fn remove_first(&mut self, key_first: &T) -> (removed: Option<U>)
        ensures
            removed == if old(self).first_map().contains_key(*key_first) {
                Some(old(self).first_map()[*key_first])
            } else {
                None::<U>
            },
            final(self).first_map() == old(self).first_map().remove(*key_first),
            removed matches Some(u) ==> final(self).second_map() == old(self).second_map().remove(u),
            removed is None ==> final(self).second_map() == old(self).second_map(),
    {
        proof {
            use_type_invariant(&*self);
        }
        match find_first(&self.pairs, key_first) {
            Some(i) => {
                let pair: (T, U) = self.remove_at(i);
                Some(pair.1)
            },
            None => {
                assert(old(self).first_map().remove(*key_first) =~= old(self).first_map());
                None
            },
        }
    }

    /// Removes the pair whose second component is `key`, returning its first component.
    pub fn remove_second(&mut self, key_second: &U) -> (removed: Option<T>)
        ensures
            removed == if old(self).second_map().contains_key(*key_second) {
                Some(old(self).second_map()[*key_second])
            } else {
                None::<T>
            },
            final(self).second_map() == old(self).second_map().remove(*key_second),
            removed matches Some(t) ==> final(self).first_map() == old(self).first_map().remove(t),
            removed is None ==> final(self).first_map() == old(self).first_map(),
    {
        proof {
            use_type_invariant(&*self);
        }
        match find_second(&self.pairs, key_second) {
            Some(i) => {
                let pair: (T, U) = self.remove_at(i);
                Some(pair.0)
            },
            None => {
                assert(old(self).second_map().remove(*key_second) =~= old(self).second_map());
                None
            },
        }
    }

    /// Maps `value` to `destination` instead of what it mapped to, dropping the pair that
    /// `destination` belonged to; returns the old second component and the first component
    /// that `destination` belonged to. Nothing changes, and `None` comes back, when `value`
    /// maps to nothing.
    pub fn replace_first(&mut self, value: T, destination: U) -> (replaced: Option<(U, Option<T>)>)
        ensures
            !old(self).first_map().contains_key(value) ==> {
                &&& replaced == None::<(U, Option<T>)>
                &&& final(self).first_map() == old(self).first_map()
                &&& final(self).second_map() == old(self).second_map()
            },
            old(self).first_map().contains_key(value) ==> {
                let old_second = old(self).first_map()[value];
                let owner = if old(self).second_map().contains_key(destination) {
                    Some(old(self).second_map()[destination])
                } else {
                    None::<T>
                };
                &&& replaced == Some((old_second, owner))
                &&& final(self).first_map() == (match owner {
                    Some(k) => old(self).first_map().remove(value).remove(k),
                    None => old(self).first_map().remove(value),
                }).insert(value, destination)
                &&& final(self).second_map() == old(self).second_map().remove(old_second).remove(destination).insert(
                    destination,
                    value,
                )
            },
    {
        proof {
            use_type_invariant(&*self);
            lemma_inverse(self.pairs@);
        }
        let owner: Option<T> = match self.get_second(&destination) {
            Some(k) => Some(*k),
            None => None,
        };
        let former_first: U = match self.remove_first(&value) {
            Some(u) => u,
            None => {
                return None;
            },
        };
        if let Some(k) = owner {
            if !k.key_eq(&value) {
                self.remove_first(&k);
            }
        }
        let inserted: Option<(Option<U>, Option<T>)> = self.insert((value, destination));
        Some((former_first, owner))
    }

    /// Maps `destination` to `value` instead of what mapped to `value`, dropping the pair of
    /// `destination`; returns the old first component and what `destination` mapped to.
    /// Nothing changes, and `None` comes back, when nothing maps to `value`.
    pub fn replace_second(&mut self, value: U, destination: T) -> (replaced: Option<(T, Option<U>)>)
        ensures
            !old(self).second_map().contains_key(value) ==> {
                &&& replaced == None::<(T, Option<U>)>
                &&& final(self).first_map() == old(self).first_map()
                &&& final(self).second_map() == old(self).second_map()
            },
            old(self).second_map().contains_key(value) ==> {
                let old_first = old(self).second_map()[value];
                let owned = if old(self).first_map().contains_key(destination) {
                    Some(old(self).first_map()[destination])
                } else {
                    None::<U>
                };
                &&& replaced == Some((old_first, owned))
                &&& final(self).second_map() == (match owned {
                    Some(k) => old(self).second_map().remove(value).remove(k),
                    None => old(self).second_map().remove(value),
                }).insert(value, destination)
                &&& final(self).first_map() == old(self).first_map().remove(old_first).remove(destination).insert(
                    destination,
                    value,
                )
            },
    {
        proof {
            use_type_invariant(&*self);
            lemma_inverse(self.pairs@);
        }
        let owned: Option<U> = match self.get_first(&destination) {
            Some(k) => Some(*k),
            None => None,
        };
        let former_second: T = match self.remove_second(&value) {
            Some(t) => t,
            None => {
                return None;
            },
        };
        if let Some(k) = owned {
            if !k.key_eq(&value) {
                self.remove_second(&k);
            }
        }
        let inserted: Option<(Option<U>, Option<T>)> = self.insert((destination, value));
        Some((former_second, owned))
    }

    /// Gets whether `key` maps to something.
    pub fn contains_key_first(&self, key: &T) -> (contains: bool)
        ensures
            contains == self.first_map().contains_key(*key),
    {
        proof {
            use_type_invariant(self);
        }
        match find_first(&self.pairs, key) {
            Some(i) => {
                proof {
                    lemma_map_of_index(self.pairs@, i as int);
                }
                true
            },
            None => false,
        }
    }

    /// Gets whether something maps to `key`.
    pub fn contains_key_second(&self, key: &U) -> (contains: bool)
        ensures
            contains == self.second_map().contains_key(*key),
    {
        proof {
            use_type_invariant(self);
        }
        match find_second(&self.pairs, key) {
            Some(i) => {
                proof {
                    assert(swapped(self.pairs@)[i as int] == (self.pairs@[i as int].1, self.pairs@[i as int].0));
                    lemma_map_of_index(swapped(self.pairs@), i as int);
                }
                true
            },
            None => false,
        }
    }
}

} // verus!
