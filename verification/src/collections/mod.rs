use vstd::prelude::*;

mod cross_join_map;
pub use self::cross_join_map::{CrossJoinMap, law_cross_join_symmetric, law_cross_join_insert_get, law_cross_join_insert_remove};

mod duplicate_inner_map;
pub use self::duplicate_inner_map::DuplicateInnerMap;

mod outer_join_map;
pub use self::outer_join_map::{OuterJoinMap, law_outer_join_single_owner, law_outer_join_insert_get};


verus! {

/// A key of the join maps: a copyable value whose equality can be tested.
pub trait Key: Sized {
    /// Tests whether the two keys are equal.
    fn key_eq(&self, other: &Self) -> (is_eq: bool)
        ensures
            is_eq == (*self == *other),
    ;
}

impl Key for u8 {
    fn key_eq(&self, other: &Self) -> (is_eq: bool) {
        *self == *other
    }
}

impl Key for usize {
    fn key_eq(&self, other: &Self) -> (is_eq: bool) {
        *self == *other
    }
}

impl Key for (u8, u8) {
    fn key_eq(&self, other: &Self) -> (is_eq: bool) {
        self.0 == other.0 && self.1 == other.1
    }
}

impl Key for (usize, usize) {
    fn key_eq(&self, other: &Self) -> (is_eq: bool) {
        self.0 == other.0 && self.1 == other.1
    }
}

/// Whether no two pairs of `s` share their first component.
pub open spec fn keyed<A, B>(s: Seq<(A, B)>) -> bool {
    forall|i: int, j: int| 0 <= i < s.len() && 0 <= j < s.len() && i != j ==> (#[trigger] s[i]).0 != (#[trigger] s[j]).0
}

/// Whether some pair of `s` has `a` as its first component.
pub open spec fn has_first<A, B>(s: Seq<(A, B)>, a: A) -> bool {
    exists|i: int| 0 <= i < s.len() && (#[trigger] s[i]).0 == a
}

/// The map from first to second components of the pairs of `s`.
pub open spec fn map_of<A, B>(s: Seq<(A, B)>) -> Map<A, B> {
    Map::new(|a: A| has_first(s, a), |a: A| s[choose|i: int| 0 <= i < s.len() && (#[trigger] s[i]).0 == a].1)
}

/// The pairs of `s` with their components swapped.
pub open spec fn swapped<A, B>(s: Seq<(A, B)>) -> Seq<(B, A)> {
    s.map_values(|p: (A, B)| (p.1, p.0))
}

/// In a keyed sequence, a pair's first component maps to its second.
pub proof fn lemma_map_of_index<A, B>(s: Seq<(A, B)>, i: int)
    requires
        keyed(s),
        0 <= i < s.len(),
    ensures
        map_of(s).contains_key(s[i].0),
        map_of(s)[s[i].0] == s[i].1,
{
    let a = s[i].0;
    assert(has_first(s, a));
    let j = choose|j: int| 0 <= j < s.len() && (#[trigger] s[j]).0 == a;
    assert(j == i);
}

/// Where neither components repeat, the map of the pairs and the map of the swapped pairs
/// are inverse to each other.
pub proof fn lemma_inverse<A, B>(s: Seq<(A, B)>)
    requires
        keyed(s),
        keyed(swapped(s)),
    ensures
        forall|a: A| #[trigger] map_of(s).contains_key(a) ==> map_of(swapped(s)).contains_key(map_of(s)[a])
            && map_of(swapped(s))[map_of(s)[a]] == a,
        forall|b: B| #[trigger] map_of(swapped(s)).contains_key(b) ==> map_of(s).contains_key(map_of(swapped(s))[b])
            && map_of(s)[map_of(swapped(s))[b]] == b,
{
    assert forall|a: A| #[trigger] map_of(s).contains_key(a) implies map_of(swapped(s)).contains_key(map_of(s)[a])
        && map_of(swapped(s))[map_of(s)[a]] == a by {
        let i = choose|i: int| 0 <= i < s.len() && (#[trigger] s[i]).0 == a;
        lemma_map_of_index(s, i);
        assert(swapped(s)[i] == (s[i].1, s[i].0));
        lemma_map_of_index(swapped(s), i);
    }
    assert forall|b: B| #[trigger] map_of(swapped(s)).contains_key(b) implies map_of(s).contains_key(map_of(swapped(s))[b])
        && map_of(s)[map_of(swapped(s))[b]] == b by {
        let i = choose|i: int| 0 <= i < swapped(s).len() && (#[trigger] swapped(s)[i]).0 == b;
        lemma_map_of_index(swapped(s), i);
        assert(swapped(s)[i] == (s[i].1, s[i].0));
        lemma_map_of_index(s, i);
    }
}

/// Pushing a pair with a new first component onto a keyed sequence inserts it into the map.
pub proof fn lemma_map_of_push<A, B>(s: Seq<(A, B)>, p: (A, B))
    requires
        keyed(s),
        !has_first(s, p.0),
    ensures
        keyed(s.push(p)),
        map_of(s.push(p)) == map_of(s).insert(p.0, p.1),
{
    let t = s.push(p);
    assert forall|i: int, j: int| 0 <= i < t.len() && 0 <= j < t.len() && i != j implies (#[trigger] t[i]).0 != (#[trigger] t[j]).0 by {
        if i < s.len() && j < s.len() {
            assert(s[i] == t[i] && s[j] == t[j]);
        } else if i < s.len() {
            assert(s[i] == t[i]);
        } else {
            assert(s[j] == t[j]);
        }
    }
    assert forall|a: A| #[trigger] map_of(t).contains_key(a) == map_of(s).insert(p.0, p.1).contains_key(a) by {
        if has_first(s, a) {
            let i = choose|i: int| 0 <= i < s.len() && (#[trigger] s[i]).0 == a;
            assert(t[i] == s[i]);
        }
        if a == p.0 {
            assert(t[s.len() as int] == p);
        }
        if has_first(t, a) {
            let i = choose|i: int| 0 <= i < t.len() && (#[trigger] t[i]).0 == a;
            if i < s.len() {
                assert(t[i] == s[i]);
            }
        }
    }
    assert forall|a: A| #[trigger] map_of(t).contains_key(a) implies map_of(t)[a] == map_of(s).insert(p.0, p.1)[a] by {
        let i = choose|i: int| 0 <= i < t.len() && (#[trigger] t[i]).0 == a;
        lemma_map_of_index(t, i);
        if i < s.len() {
            assert(t[i] == s[i]);
            lemma_map_of_index(s, i);
        }
    }
    assert(map_of(t) =~= map_of(s).insert(p.0, p.1));
}

/// Removing a pair from a keyed sequence removes its first component from the map.
pub proof fn lemma_map_of_remove<A, B>(s: Seq<(A, B)>, i: int)
    requires
        keyed(s),
        0 <= i < s.len(),
    ensures
        keyed(s.remove(i)),
        map_of(s.remove(i)) == map_of(s).remove(s[i].0),
{
    let t = s.remove(i);
    assert forall|k: int| 0 <= k < t.len() implies #[trigger] t[k] == s[if k < i { k } else { k + 1 }] by {
    }
    assert forall|x: int, y: int| 0 <= x < t.len() && 0 <= y < t.len() && x != y implies (#[trigger] t[x]).0 != (#[trigger] t[y]).0 by {
        let xs = if x < i { x } else { x + 1 };
        let ys = if y < i { y } else { y + 1 };
        assert(t[x] == s[xs] && t[y] == s[ys]);
    }
    assert forall|a: A| #[trigger] map_of(t).contains_key(a) == map_of(s).remove(s[i].0).contains_key(a) by {
        if has_first(t, a) {
            let k = choose|k: int| 0 <= k < t.len() && (#[trigger] t[k]).0 == a;
            let ks = if k < i { k } else { k + 1 };
            assert(t[k] == s[ks]);
        }
        if has_first(s, a) && a != s[i].0 {
            let k = choose|k: int| 0 <= k < s.len() && (#[trigger] s[k]).0 == a;
            let kt = if k < i { k } else { k - 1 };
            assert(t[kt] == s[k]);
        }
    }
    assert forall|a: A| #[trigger] map_of(t).contains_key(a) implies map_of(t)[a] == map_of(s).remove(s[i].0)[a] by {
        let k = choose|k: int| 0 <= k < t.len() && (#[trigger] t[k]).0 == a;
        let ks = if k < i { k } else { k + 1 };
        assert(t[k] == s[ks]);
        lemma_map_of_index(t, k);
        lemma_map_of_index(s, ks);
    }
    assert(map_of(t) =~= map_of(s).remove(s[i].0));
}

/// Swapping commutes with pushing.
pub proof fn lemma_swapped_push<A, B>(s: Seq<(A, B)>, p: (A, B))
    ensures
        swapped(s.push(p)) == swapped(s).push((p.1, p.0)),
{
    assert(swapped(s.push(p)) =~= swapped(s).push((p.1, p.0)));
}

/// Swapping commutes with removing.
pub proof fn lemma_swapped_remove<A, B>(s: Seq<(A, B)>, i: int)
    requires
        0 <= i < s.len(),
    ensures
        swapped(s.remove(i)) == swapped(s).remove(i),
{
    assert(swapped(s.remove(i)) =~= swapped(s).remove(i));
}

/// Finds the pair whose first component is `key`.
pub fn find_first<A: Key + Copy, B: Copy>(pairs: &Vec<(A, B)>, key: &A) -> (index: Option<usize>)
    ensures
        match index {
            Some(i) => i < pairs@.len() && pairs@[i as int].0 == *key,
            None => !has_first(pairs@, *key),
        },
{
    let mut i: usize = 0;

    while i < pairs.len()
        invariant
            i <= pairs@.len(),
            forall|j: int| 0 <= j < i ==> (#[trigger] pairs@[j]).0 != *key,
        decreases pairs@.len() - i,
    {
        if pairs[i].0.key_eq(key) {
            return Some(i);
        }
        i += 1;
    }

    None
}

/// Finds the pair whose second component is `key`.
pub fn find_second<A: Copy, B: Key + Copy>(pairs: &Vec<(A, B)>, key: &B) -> (index: Option<usize>)
    ensures
        match index {
            Some(i) => i < pairs@.len() && pairs@[i as int].1 == *key,
            None => !has_first(swapped(pairs@), *key),
        },
{
    let mut i: usize = 0;

    while i < pairs.len()
        invariant
            i <= pairs@.len(),
            forall|j: int| 0 <= j < i ==> (#[trigger] pairs@[j]).1 != *key,
        decreases pairs@.len() - i,
    {
        if pairs[i].1.key_eq(key) {
            return Some(i);
        }
        i += 1;
    }

    proof {
        if has_first(swapped(pairs@), *key) {
            let j = choose|j: int| 0 <= j < swapped(pairs@).len() && (#[trigger] swapped(pairs@)[j]).0 == *key;
            assert(swapped(pairs@)[j] == (pairs@[j].1, pairs@[j].0));
        }
    }
    None
}

/// In a keyed sequence, a first component maps to a second exactly when the pair is present.
pub proof fn lemma_map_of_contains<A, B>(s: Seq<(A, B)>, a: A, b: B)
    requires
        keyed(s),
    ensures
        (map_of(s).contains_key(a) && map_of(s)[a] == b) <==> s.contains((a, b)),
{
    if s.contains((a, b)) {
        let i = choose|i: int| 0 <= i < s.len() && s[i] == (a, b);
        lemma_map_of_index(s, i);
    }
    if map_of(s).contains_key(a) && map_of(s)[a] == b {
        let i = choose|i: int| 0 <= i < s.len() && (#[trigger] s[i]).0 == a;
        lemma_map_of_index(s, i);
        assert(s[i] == (a, b));
    }
}

/// A keyed sequence holds no pair twice.
pub proof fn lemma_keyed_no_duplicates<A, B>(s: Seq<(A, B)>)
    requires
        keyed(s),
    ensures
        s.no_duplicates(),
{
    assert forall|i: int, j: int| 0 <= i < s.len() && 0 <= j < s.len() && i != j implies s[i] != s[j] by {
        assert(s[i].0 != s[j].0);
    }
}

/// Collects the first components of the pairs whose second component is `key`, in order.
pub fn collect_with_second<A: Copy, B: Key + Copy>(pairs: &Vec<(A, B)>, key: &B) -> (found: Vec<A>)
    requires
        pairs@.no_duplicates(),
    ensures
        found@.no_duplicates(),
        forall|a: A| #[trigger] found@.contains(a) <==> pairs@.contains((a, *key)),
{
    let mut found: Vec<A> = Vec::new();
    let mut i: usize = 0;

    while i < pairs.len()
        invariant
            i <= pairs@.len(),
            pairs@.no_duplicates(),
            found@.no_duplicates(),
            forall|a: A| #[trigger] found@.contains(a) <==> exists|j: int| 0 <= j < i && pairs@[j] == (a, *key),
        decreases pairs@.len() - i,
    {
        let pair: (A, B) = pairs[i];

        if pair.1.key_eq(key) {
            proof {
                if found@.contains(pair.0) {
                    let j = choose|j: int| 0 <= j < i && pairs@[j] == (pair.0, *key);
                    assert(pairs@[j] == pairs@[i as int]);
                }
            }
            let ghost before: Seq<A> = found@;
            found.push(pair.0);
            proof {
                assert(found@ == before.push(pair.0));
                assert forall|a: A| #[trigger] found@.contains(a) <==> exists|j: int| 0 <= j < i + 1 && pairs@[j] == (a, *key) by {
                    if found@.contains(a) && a != pair.0 {
                        let k = choose|k: int| 0 <= k < found@.len() && found@[k] == a;
                        assert(before[k] == a);
                        assert(before.contains(a));
                    }
                    if exists|j: int| 0 <= j < i + 1 && pairs@[j] == (a, *key) {
                        if a != pair.0 {
                            let j = choose|j: int| 0 <= j < i + 1 && pairs@[j] == (a, *key);
                            assert(j < i);
                            assert(before.contains(a));
                            let k = choose|k: int| 0 <= k < before.len() && before[k] == a;
                            assert(found@[k] == a);
                        } else {
                            assert(found@[found@.len() - 1] == a);
                        }
                    }
                }
            }
        } else {
            proof {
                assert forall|a: A| #[trigger] found@.contains(a) <==> exists|j: int| 0 <= j < i + 1 && pairs@[j] == (a, *key) by {
                    if exists|j: int| 0 <= j < i + 1 && pairs@[j] == (a, *key) {
                        let j = choose|j: int| 0 <= j < i + 1 && pairs@[j] == (a, *key);
                        assert(j < i);
                    }
                }
            }
        }
        i += 1;
    }

    proof {
        assert forall|a: A| #[trigger] found@.contains(a) <==> pairs@.contains((a, *key)) by {
            if pairs@.contains((a, *key)) {
                let j = choose|j: int| 0 <= j < pairs@.len() && pairs@[j] == (a, *key);
            }
        }
    }
    found
}

/// Collects the second components of the pairs whose first component is `key`, in order.
pub fn collect_with_first<A: Key + Copy, B: Copy>(pairs: &Vec<(A, B)>, key: &A) -> (found: Vec<B>)
    requires
        pairs@.no_duplicates(),
    ensures
        found@.no_duplicates(),
        forall|a: B| #[trigger] found@.contains(a) <==> pairs@.contains((*key, a)),
{
    let mut found: Vec<B> = Vec::new();
    let mut i: usize = 0;

    while i < pairs.len()
        invariant
            i <= pairs@.len(),
            pairs@.no_duplicates(),
            found@.no_duplicates(),
            forall|a: B| #[trigger] found@.contains(a) <==> exists|j: int| 0 <= j < i && pairs@[j] == (*key, a),
        decreases pairs@.len() - i,
    {
        let pair: (A, B) = pairs[i];

        if pair.0.key_eq(key) {
            proof {
                if found@.contains(pair.1) {
                    let j = choose|j: int| 0 <= j < i && pairs@[j] == (*key, pair.1);
                    assert(pairs@[j] == pairs@[i as int]);
                }
            }
            let ghost before: Seq<B> = found@;
            found.push(pair.1);
            proof {
                assert(found@ == before.push(pair.1));
                assert forall|a: B| #[trigger] found@.contains(a) <==> exists|j: int| 0 <= j < i + 1 && pairs@[j] == (*key, a) by {
                    if found@.contains(a) && a != pair.1 {
                        let k = choose|k: int| 0 <= k < found@.len() && found@[k] == a;
                        assert(before[k] == a);
                        assert(before.contains(a));
                    }
                    if exists|j: int| 0 <= j < i + 1 && pairs@[j] == (*key, a) {
                        if a != pair.1 {
                            let j = choose|j: int| 0 <= j < i + 1 && pairs@[j] == (*key, a);
                            assert(j < i);
                            assert(before.contains(a));
                            let k = choose|k: int| 0 <= k < before.len() && before[k] == a;
                            assert(found@[k] == a);
                        } else {
                            assert(found@[found@.len() - 1] == a);
                        }
                    }
                }
            }
        } else {
            proof {
                assert forall|a: B| #[trigger] found@.contains(a) <==> exists|j: int| 0 <= j < i + 1 && pairs@[j] == (*key, a) by {
                    if exists|j: int| 0 <= j < i + 1 && pairs@[j] == (*key, a) {
                        let j = choose|j: int| 0 <= j < i + 1 && pairs@[j] == (*key, a);
                        assert(j < i);
                    }
                }
            }
        }
        i += 1;
    }

    proof {
        assert forall|a: B| #[trigger] found@.contains(a) <==> pairs@.contains((*key, a)) by {
            if pairs@.contains((*key, a)) {
                let j = choose|j: int| 0 <= j < pairs@.len() && pairs@[j] == (*key, a);
            }
        }
    }
    found
}

/// Finds `key` in a sequence of keys.
pub fn find_key<A: Key + Copy>(keys: &Vec<A>, key: &A) -> (index: Option<usize>)
    ensures
        match index {
            Some(i) => i < keys@.len() && keys@[i as int] == *key,
            None => !keys@.contains(*key),
        },
{
    let mut i: usize = 0;

    while i < keys.len()
        invariant
            i <= keys@.len(),
            forall|j: int| 0 <= j < i ==> keys@[j] != *key,
        decreases keys@.len() - i,
    {
        if keys[i].key_eq(key) {
            return Some(i);
        }
        i += 1;
    }

    None
}

} // verus!
