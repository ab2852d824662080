use vstd::prelude::*;
use super::{Key, collect_with_first, collect_with_second, find_key};

verus! {

/// A map that behaves like a cross join: each T maps to many U, and each U to many T.
/// A key stays known, with an empty collection, once its pairs are gone, unless it is
/// removed itself.
#[derive(Debug)]
pub struct CrossJoinMap<T: Key + Copy, U: Key + Copy> {
    firsts: Vec<T>,
    seconds: Vec<U>,
    pairs: Vec<(T, U)>,
}

/// Finds `pair` among the pairs.
fn find_pair<T: Key + Copy, U: Key + Copy>(pairs: &Vec<(T, U)>, pair: &(T, U)) -> (index: Option<usize>)
    ensures
        match index {
            Some(i) => i < pairs@.len() && pairs@[i as int] == *pair,
            None => !pairs@.contains(*pair),
        },
{
    let mut i: usize = 0;

    while i < pairs.len()
        invariant
            i <= pairs@.len(),
            forall|j: int| 0 <= j < i ==> pairs@[j] != *pair,
        decreases pairs@.len() - i,
    {
        if pairs[i].0.key_eq(&pair.0) && pairs[i].1.key_eq(&pair.1) {
            return Some(i);
        }
        i += 1;
    }

    None
}

impl<T: Key + Copy, U: Key + Copy> CrossJoinMap<T, U> {
    /// The keys on both sides are distinct, no pair repeats, and every pair's keys are known.
    #[verifier::type_invariant]
    closed spec fn inv(self) -> bool {
        &&& self.firsts@.no_duplicates()
        &&& self.seconds@.no_duplicates()
        &&& self.pairs@.no_duplicates()
        &&& forall|i: int| 0 <= i < self.pairs@.len() ==> {
            &&& self.firsts@.contains((#[trigger] self.pairs@[i]).0)
            &&& self.seconds@.contains(self.pairs@[i].1)
        }
    }

    /// The known T.
    pub closed spec fn firsts(&self) -> Set<T> {
        self.firsts@.to_set()
    }

    /// The known U.
    pub closed spec fn seconds(&self) -> Set<U> {
        self.seconds@.to_set()
    }

    /// The pairs.
    pub closed spec fn pairs(&self) -> Set<(T, U)> {
        self.pairs@.to_set()
    }

    /// The U paired with `t`.
    pub open spec fn collection_first(&self, t: T) -> Set<U> {
        Set::new(|u: U| self.pairs().contains((t, u)))
    }

    /// The T paired with `u`.
    pub open spec fn collection_second(&self, u: U) -> Set<T> {
        Set::new(|t: T| self.pairs().contains((t, u)))
    }

    /// Creates an empty map.
    pub fn new() -> (map: Self)
        ensures
            map.firsts() == Set::<T>::empty(),
            map.seconds() == Set::<U>::empty(),
            map.pairs() == Set::<(T, U)>::empty(),
    {
        let map = Self { firsts: Vec::new(), seconds: Vec::new(), pairs: Vec::new() };
        assert(map.firsts() =~= Set::<T>::empty());
        assert(map.seconds() =~= Set::<U>::empty());
        assert(map.pairs() =~= Set::<(T, U)>::empty());
        map
    }

    /// Pairs `values.0` with `values.1`, making both known; the result says whether the pair is new.
    pub fn insert(&mut self, values: (T, U)) -> (is_inserted: bool)
        ensures
            is_inserted == !old(self).pairs().contains(values),
            final(self).firsts() == old(self).firsts().insert(values.0),
            final(self).seconds() == old(self).seconds().insert(values.1),
            final(self).pairs() == old(self).pairs().insert(values),
    {
        proof {
            use_type_invariant(&*self);
        }
        let mut map: Self = Self::new();
        std::mem::swap(&mut map, self);
        let Self { mut firsts, mut seconds, mut pairs } = map;
        let ghost old_firsts: Seq<T> = firsts@;
        let ghost old_seconds: Seq<U> = seconds@;
        let ghost old_pairs: Seq<(T, U)> = pairs@;

        if find_key(&firsts, &values.0).is_none() {
            firsts.push(values.0);
        }
        if find_key(&seconds, &values.1).is_none() {
            seconds.push(values.1);
        }
        let is_inserted: bool = find_pair(&pairs, &values).is_none();

        if is_inserted {
            pairs.push(values);
        }
        proof {
            assert(firsts@.to_set() =~= old_firsts.to_set().insert(values.0)) by {
                lemma_push_if_absent(old_firsts, firsts@, values.0);
            }
            assert(seconds@.to_set() =~= old_seconds.to_set().insert(values.1)) by {
                lemma_push_if_absent(old_seconds, seconds@, values.1);
            }
            assert(pairs@.to_set() =~= old_pairs.to_set().insert(values)) by {
                lemma_push_if_absent(old_pairs, pairs@, values);
            }
            assert forall|i: int| 0 <= i < pairs@.len() implies {
                &&& firsts@.contains((#[trigger] pairs@[i]).0)
                &&& seconds@.contains(pairs@[i].1)
            } by {
                assert(old_pairs.to_set().insert(values).contains(pairs@[i]));
                if pairs@[i] != values {
                    let k = choose|k: int| 0 <= k < old_pairs.len() && old_pairs[k] == pairs@[i];
                    assert(old_firsts.contains(old_pairs[k].0));
                    assert(old_seconds.contains(old_pairs[k].1));
                }
                assert(firsts@.to_set().contains(pairs@[i].0));
                assert(seconds@.to_set().contains(pairs@[i].1));
            }
        }
        *self = Self { firsts, seconds, pairs };

        is_inserted
    }

    /// Gets the U paired with `key`; `None` when `key` is unknown.
    pub fn get_first(&self, key: &T) -> (collection: Option<Vec<U>>)
        ensures
            match collection {
                Some(c) => {
                    &&& self.firsts().contains(*key)
                    &&& c@.no_duplicates()
                    &&& c@.to_set() == self.collection_first(*key)
                },
                None => !self.firsts().contains(*key) && self.collection_first(*key) == Set::<U>::empty(),
            },
    {
        proof {
            use_type_invariant(self);
        }
        match find_key(&self.firsts, key) {
            Some(..) => {
                let collection: Vec<U> = collect_with_first(&self.pairs, key);

                proof {
                    assert(collection@.to_set() =~= self.collection_first(*key));
                }
                Some(collection)
            },
            None => {
                proof {
                    assert forall|u: U| !self.collection_first(*key).contains(u) by {
                        if self.pairs().contains((*key, u)) {
                            let i = choose|i: int| 0 <= i < self.pairs@.len() && self.pairs@[i] == (*key, u);
                            assert(self.firsts@.contains(self.pairs@[i].0));
                        }
                    }
                    assert(self.collection_first(*key) =~= Set::<U>::empty());
                }
                None
            },
        }
    }

    /// Gets the T paired with `key`; `None` when `key` is unknown.
    pub fn get_second(&self, key: &U) -> (collection: Option<Vec<T>>)
        ensures
            match collection {
                Some(c) => {
                    &&& self.seconds().contains(*key)
                    &&& c@.no_duplicates()
                    &&& c@.to_set() == self.collection_second(*key)
                },
                None => !self.seconds().contains(*key) && self.collection_second(*key) == Set::<T>::empty(),
            },
    {
        proof {
            use_type_invariant(self);
        }
        match find_key(&self.seconds, key) {
            Some(..) => {
                let collection: Vec<T> = collect_with_second(&self.pairs, key);

                proof {
                    assert(collection@.to_set() =~= self.collection_second(*key));
                }
                Some(collection)
            },
            None => {
                proof {
                    assert forall|t: T| !self.collection_second(*key).contains(t) by {
                        if self.pairs().contains((t, *key)) {
                            let i = choose|i: int| 0 <= i < self.pairs@.len() && self.pairs@[i] == (t, *key);
                            assert(self.seconds@.contains(self.pairs@[i].1));
                        }
                    }
                    assert(self.collection_second(*key) =~= Set::<T>::empty());
                }
                None
            },
        }
    }

    /// Removes the pair of `key_first` and `key_second`; both stay known. The result says whether
    /// the pair was present.
    pub fn remove(&mut self, key_first: &T, key_second: &U) -> (is_removed: bool)
        ensures
            is_removed == old(self).pairs().contains((*key_first, *key_second)),
            final(self).firsts() == old(self).firsts(),
            final(self).seconds() == old(self).seconds(),
            final(self).pairs() == old(self).pairs().remove((*key_first, *key_second)),
    {
        proof {
            use_type_invariant(&*self);
        }
        let pair: (T, U) = (*key_first, *key_second);

        match find_pair(&self.pairs, &pair) {
            Some(i) => {
                let mut map: Self = Self::new();
                std::mem::swap(&mut map, self);
                let Self { firsts, seconds, mut pairs } = map;
                let ghost old_pairs: Seq<(T, U)> = pairs@;

                pairs.remove(i);
                proof {
                    lemma_remove_at(old_pairs, i as int);
                    assert forall|k: int| 0 <= k < pairs@.len() implies {
                        &&& firsts@.contains((#[trigger] pairs@[k]).0)
                        &&& seconds@.contains(pairs@[k].1)
                    } by {
                        let ks = if k < i { k } else { k + 1 };
                        assert(pairs@[k] == old_pairs[ks]);
                    }
                }
                *self = Self { firsts, seconds, pairs };

                true
            },
            None => {
                proof {
                    assert(old(self).pairs().remove(pair) =~= old(self).pairs());
                }
                false
            },
        }
    }

    /// Forgets `key_first` and every pair it belongs to; the result says whether it was known.
    /// A known key must belong to some pair.
    pub fn remove_first(&mut self, key_first: &T) -> (is_removed: bool)
        requires
            old(self).firsts().contains(*key_first) ==> exists|u: U| old(self).pairs().contains((*key_first, u)),
        ensures
            is_removed == old(self).firsts().contains(*key_first),
            final(self).firsts() == old(self).firsts().remove(*key_first),
            final(self).seconds() == old(self).seconds(),
            final(self).pairs() == old(self).pairs().filter(|p: (T, U)| p.0 != *key_first),
    {
        proof {
            use_type_invariant(&*self);
        }
        let mut map: Self = Self::new();
        std::mem::swap(&mut map, self);
        let Self { mut firsts, seconds, pairs } = map;
        let ghost old_firsts: Seq<T> = firsts@;
        let ghost old_pairs: Seq<(T, U)> = pairs@;
        let is_removed: bool = match find_key(&firsts, key_first) {
            Some(i) => {
                firsts.remove(i);
                proof {
                    lemma_remove_at(old_firsts, i as int);
                }
                true
            },
            None => {
                proof {
                    assert(old_firsts.to_set().remove(*key_first) =~= old_firsts.to_set());
                }
                false
            },
        };
        let kept_pairs: Vec<(T, U)> = retain_first_not(pairs, key_first);

        proof {
            assert forall|k: int| 0 <= k < kept_pairs@.len() implies {
                &&& firsts@.contains((#[trigger] kept_pairs@[k]).0)
                &&& seconds@.contains(kept_pairs@[k].1)
            } by {
                assert(kept_pairs@.to_set().contains(kept_pairs@[k]));
                let j = choose|j: int| 0 <= j < old_pairs.len() && old_pairs[j] == kept_pairs@[k];
                assert(old_firsts.contains(old_pairs[j].0));
                assert(firsts@.to_set().contains(kept_pairs@[k].0));
            }
        }
        *self = Self { firsts, seconds, pairs: kept_pairs };

        is_removed
    }

    /// Forgets `key_second` and every pair it belongs to; the result says whether it was known.
    /// A known key must belong to some pair.
    pub fn remove_second(&mut self, key_second: &U) -> (is_removed: bool)
        requires
            old(self).seconds().contains(*key_second) ==> exists|t: T| old(self).pairs().contains((t, *key_second)),
        ensures
            is_removed == old(self).seconds().contains(*key_second),
            final(self).firsts() == old(self).firsts(),
            final(self).seconds() == old(self).seconds().remove(*key_second),
            final(self).pairs() == old(self).pairs().filter(|p: (T, U)| p.1 != *key_second),
    {
        proof {
            use_type_invariant(&*self);
        }
        let mut map: Self = Self::new();
        std::mem::swap(&mut map, self);
        let Self { firsts, mut seconds, pairs } = map;
        let ghost old_seconds: Seq<U> = seconds@;
        let ghost old_pairs: Seq<(T, U)> = pairs@;
        let is_removed: bool = match find_key(&seconds, key_second) {
            Some(i) => {
                seconds.remove(i);
                proof {
                    lemma_remove_at(old_seconds, i as int);
                }
                true
            },
            None => {
                proof {
                    assert(old_seconds.to_set().remove(*key_second) =~= old_seconds.to_set());
                }
                false
            },
        };
        let kept_pairs: Vec<(T, U)> = retain_second_not(pairs, key_second);

        proof {
            assert forall|k: int| 0 <= k < kept_pairs@.len() implies {
                &&& firsts@.contains((#[trigger] kept_pairs@[k]).0)
                &&& seconds@.contains(kept_pairs@[k].1)
            } by {
                assert(kept_pairs@.to_set().contains(kept_pairs@[k]));
                let j = choose|j: int| 0 <= j < old_pairs.len() && old_pairs[j] == kept_pairs@[k];
                assert(old_seconds.contains(old_pairs[j].1));
                assert(seconds@.to_set().contains(kept_pairs@[k].1));
            }
        }
        *self = Self { firsts, seconds, pairs: kept_pairs };

        is_removed
    }

    /// Gets whether `key` is a known T.
    pub fn contains_key_first(&self, key: &T) -> (contains: bool)
        ensures
            contains == self.firsts().contains(*key),
    {
        find_key(&self.firsts, key).is_some()
    }

    /// Gets whether `key` is a known U.
    pub fn contains_key_second(&self, key: &U) -> (contains: bool)
        ensures
            contains == self.seconds().contains(*key),
    {
        find_key(&self.seconds, key).is_some()
    }
}

impl<T: Key + Copy, U: Key + Copy> Default for CrossJoinMap<T, U> {
    fn default() -> (map: Self)
        ensures
            map.firsts() == Set::<T>::empty(),
            map.seconds() == Set::<U>::empty(),
            map.pairs() == Set::<(T, U)>::empty(),
    {
        Self::new()
    }
}

/// Pushing an absent value adds it to the set; not pushing a present one keeps the set.
proof fn lemma_push_if_absent<A>(before: Seq<A>, after: Seq<A>, a: A)
    requires
        before.no_duplicates(),
        after == before.push(a) && !before.contains(a) || after == before && before.contains(a),
    ensures
        after.no_duplicates(),
        after.to_set() == before.to_set().insert(a),
        after.contains(a),
{
    if after == before.push(a) {
        assert(after[after.len() - 1] == a);
        assert forall|x: A| #[trigger] after.to_set().contains(x) == before.to_set().insert(a).contains(x) by {
            if before.contains(x) {
                let k = choose|k: int| 0 <= k < before.len() && before[k] == x;
                assert(after[k] == x);
            }
            if after.contains(x) && x != a {
                let k = choose|k: int| 0 <= k < after.len() && after[k] == x;
                assert(before[k] == x);
            }
        }
    }
    assert(after.to_set() =~= before.to_set().insert(a));
}

/// Removing the value at `i` from a sequence without repeats removes it from the set.
proof fn lemma_remove_at<A>(s: Seq<A>, i: int)
    requires
        s.no_duplicates(),
        0 <= i < s.len(),
    ensures
        s.remove(i).no_duplicates(),
        s.remove(i).to_set() == s.to_set().remove(s[i]),
{
    let t = s.remove(i);
    assert forall|k: int| 0 <= k < t.len() implies #[trigger] t[k] == s[if k < i { k } else { k + 1 }] by {}
    assert forall|x: int, y: int| 0 <= x < t.len() && 0 <= y < t.len() && x != y implies t[x] != t[y] by {
        let xs = if x < i { x } else { x + 1 };
        let ys = if y < i { y } else { y + 1 };
        assert(t[x] == s[xs] && t[y] == s[ys]);
    }
    assert forall|a: A| #[trigger] t.to_set().contains(a) == s.to_set().remove(s[i]).contains(a) by {
        if t.contains(a) {
            let k = choose|k: int| 0 <= k < t.len() && t[k] == a;
            let ks = if k < i { k } else { k + 1 };
            assert(s[ks] == a);
        }
        if s.contains(a) && a != s[i] {
            let k = choose|k: int| 0 <= k < s.len() && s[k] == a;
            let kt = if k < i { k } else { k - 1 };
            assert(t[kt] == a);
        }
    }
    assert(t.to_set() =~= s.to_set().remove(s[i]));
}

/// The pairs whose first component is not `key`, in order.
fn retain_first_not<T: Key + Copy, U: Copy>(pairs: Vec<(T, U)>, key: &T) -> (kept: Vec<(T, U)>)
    requires
        pairs@.no_duplicates(),
    ensures
        kept@.no_duplicates(),
        kept@.to_set() == pairs@.to_set().filter(|p: (T, U)| p.0 != *key),
{
    let mut kept: Vec<(T, U)> = Vec::new();
    let mut i: usize = 0;

    while i < pairs.len()
        invariant
            i <= pairs@.len(),
            pairs@.no_duplicates(),
            kept@.no_duplicates(),
            forall|p: (T, U)| #[trigger] kept@.contains(p) <==> exists|j: int| 0 <= j < i && pairs@[j] == p && p.0 != *key,
        decreases pairs@.len() - i,
    {
        let pair: (T, U) = pairs[i];

        if !pair.0.key_eq(key) {
            let ghost before: Seq<(T, U)> = kept@;
            proof {
                if kept@.contains(pair) {
                    let j = choose|j: int| 0 <= j < i && pairs@[j] == pair && pair.0 != *key;
                    assert(pairs@[j] == pairs@[i as int]);
                }
            }
            kept.push(pair);
            proof {
                assert forall|p: (T, U)| #[trigger] kept@.contains(p) <==> exists|j: int| 0 <= j < i + 1 && pairs@[j] == p && p.0 != *key by {
                    if kept@.contains(p) && p != pair {
                        let k = choose|k: int| 0 <= k < kept@.len() && kept@[k] == p;
                        assert(before[k] == p);
                        assert(before.contains(p));
                    }
                    if exists|j: int| 0 <= j < i + 1 && pairs@[j] == p && p.0 != *key {
                        if p != pair {
                            let j = choose|j: int| 0 <= j < i + 1 && pairs@[j] == p && p.0 != *key;
                            assert(before.contains(p));
                            let k = choose|k: int| 0 <= k < before.len() && before[k] == p;
                            assert(kept@[k] == p);
                        } else {
                            assert(kept@[kept@.len() - 1] == p);
                        }
                    }
                }
            }
        } else {
            proof {
                assert forall|p: (T, U)| #[trigger] kept@.contains(p) <==> exists|j: int| 0 <= j < i + 1 && pairs@[j] == p && p.0 != *key by {
                    if exists|j: int| 0 <= j < i + 1 && pairs@[j] == p && p.0 != *key {
                        let j = choose|j: int| 0 <= j < i + 1 && pairs@[j] == p && p.0 != *key;
                        assert(j < i);
                    }
                }
            }
        }
        i += 1;
    }

    proof {
        assert forall|p: (T, U)| #[trigger] kept@.to_set().contains(p) <==> pairs@.to_set().filter(|p: (T, U)| p.0 != *key).contains(p) by {
            if pairs@.contains(p) && p.0 != *key {
                let j = choose|j: int| 0 <= j < pairs@.len() && pairs@[j] == p;
            }
        }
        assert(kept@.to_set() =~= pairs@.to_set().filter(|p: (T, U)| p.0 != *key));
    }
    kept
}

/// The pairs whose second component is not `key`, in order.
fn retain_second_not<T: Copy, U: Key + Copy>(pairs: Vec<(T, U)>, key: &U) -> (kept: Vec<(T, U)>)
    requires
        pairs@.no_duplicates(),
    ensures
        kept@.no_duplicates(),
        kept@.to_set() == pairs@.to_set().filter(|p: (T, U)| p.1 != *key),
{
    let mut kept: Vec<(T, U)> = Vec::new();
    let mut i: usize = 0;

    while i < pairs.len()
        invariant
            i <= pairs@.len(),
            pairs@.no_duplicates(),
            kept@.no_duplicates(),
            forall|p: (T, U)| #[trigger] kept@.contains(p) <==> exists|j: int| 0 <= j < i && pairs@[j] == p && p.1 != *key,
        decreases pairs@.len() - i,
    {
        let pair: (T, U) = pairs[i];

        if !pair.1.key_eq(key) {
            let ghost before: Seq<(T, U)> = kept@;
            proof {
                if kept@.contains(pair) {
                    let j = choose|j: int| 0 <= j < i && pairs@[j] == pair && pair.1 != *key;
                    assert(pairs@[j] == pairs@[i as int]);
                }
            }
            kept.push(pair);
            proof {
                assert forall|p: (T, U)| #[trigger] kept@.contains(p) <==> exists|j: int| 0 <= j < i + 1 && pairs@[j] == p && p.1 != *key by {
                    if kept@.contains(p) && p != pair {
                        let k = choose|k: int| 0 <= k < kept@.len() && kept@[k] == p;
                        assert(before[k] == p);
                        assert(before.contains(p));
                    }
                    if exists|j: int| 0 <= j < i + 1 && pairs@[j] == p && p.1 != *key {
                        if p != pair {
                            let j = choose|j: int| 0 <= j < i + 1 && pairs@[j] == p && p.1 != *key;
                            assert(before.contains(p));
                            let k = choose|k: int| 0 <= k < before.len() && before[k] == p;
                            assert(kept@[k] == p);
                        } else {
                            assert(kept@[kept@.len() - 1] == p);
                        }
                    }
                }
            }
        } else {
            proof {
                assert forall|p: (T, U)| #[trigger] kept@.contains(p) <==> exists|j: int| 0 <= j < i + 1 && pairs@[j] == p && p.1 != *key by {
                    if exists|j: int| 0 <= j < i + 1 && pairs@[j] == p && p.1 != *key {
                        let j = choose|j: int| 0 <= j < i + 1 && pairs@[j] == p && p.1 != *key;
                        assert(j < i);
                    }
                }
            }
        }
        i += 1;
    }

    proof {
        assert forall|p: (T, U)| #[trigger] kept@.to_set().contains(p) <==> pairs@.to_set().filter(|p: (T, U)| p.1 != *key).contains(p) by {
            if pairs@.contains(p) && p.1 != *key {
                let j = choose|j: int| 0 <= j < pairs@.len() && pairs@[j] == p;
            }
        }
        assert(kept@.to_set() =~= pairs@.to_set().filter(|p: (T, U)| p.1 != *key));
    }
    kept
}

/// A cross join is symmetric: `u` is among the U of `t` exactly when `t` is among the T of `u`.
pub proof fn law_cross_join_symmetric<T: Key + Copy, U: Key + Copy>(map: CrossJoinMap<T, U>, t: T, u: U)
    ensures
        map.collection_first(t).contains(u) <==> map.collection_second(u).contains(t),
{
}

/// After a pair is inserted, each of its keys reads the other back, and whatever it held before.
pub proof fn law_cross_join_insert_get<T: Key + Copy, U: Key + Copy>(
    before: CrossJoinMap<T, U>,
    after: CrossJoinMap<T, U>,
    t: T,
    u: U,
)
    requires
        after.pairs() == before.pairs().insert((t, u)),
    ensures
        after.collection_first(t) == before.collection_first(t).insert(u),
        after.collection_second(u) == before.collection_second(u).insert(t),
{
    assert(after.collection_first(t) =~= before.collection_first(t).insert(u));
    assert(after.collection_second(u) =~= before.collection_second(u).insert(t));
}

/// Removing a pair that was inserted into a map without it gives back the map's pairs.
pub proof fn law_cross_join_insert_remove<T: Key + Copy, U: Key + Copy>(map: CrossJoinMap<T, U>, t: T, u: U)
    requires
        !map.pairs().contains((t, u)),
    ensures
        map.pairs().insert((t, u)).remove((t, u)) == map.pairs(),
{
    assert(map.pairs().insert((t, u)).remove((t, u)) =~= map.pairs());
}

} // verus!
