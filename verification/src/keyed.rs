//! A map from strings to values, kept as a vector sorted by key in the order
//! of `str`.

use vstd::prelude::*;

use crate::order::compare_keys;
use crate::order::key_lt;
use crate::order::lemma_key_lt_strict_total_order;
use crate::order::Order;

verus! {

/// The keys of `s` are strictly increasing, so no key occurs twice.
pub open spec fn sorted_by_key<V>(s: Seq<(Seq<char>, V)>) -> bool {
    forall|i: int, j: int| 0 <= i < j < s.len() ==> key_lt(#[trigger] s[i].0, #[trigger] s[j].0)
}

/// The key `k` is one of the keys of `s`.
pub open spec fn has_key<V>(s: Seq<(Seq<char>, V)>, k: Seq<char>) -> bool {
    exists|i: int| 0 <= i < s.len() && #[trigger] s[i].0 == k
}

/// The map that a sequence of pairs with distinct keys stands for.
pub open spec fn pairs_to_map<V>(s: Seq<(Seq<char>, V)>) -> Map<Seq<char>, V> {
    Map::new(
        |k: Seq<char>| has_key(s, k),
        |k: Seq<char>| s[choose|i: int| 0 <= i < s.len() && #[trigger] s[i].0 == k].1,
    )
}

/// In a sorted sequence, the pair at index `i` is the map's entry for its key.
pub proof fn lemma_pairs_to_map_at<V>(s: Seq<(Seq<char>, V)>, i: int)
    requires
        sorted_by_key(s),
        0 <= i < s.len(),
    ensures
        pairs_to_map(s).contains_key(s[i].0),
        pairs_to_map(s)[s[i].0] == s[i].1,
{
    assert(has_key(s, s[i].0));
    let j = choose|j: int| 0 <= j < s.len() && #[trigger] s[j].0 == s[i].0;
    if j != i {
        lemma_key_lt_strict_total_order(s[i].0, s[j].0, s[i].0);
        if j < i {
            assert(key_lt(s[j].0, s[i].0));
        } else {
            assert(key_lt(s[i].0, s[j].0));
        }
    }
}

/// A map from strings to values, sorted by key.
pub struct KeyedVec<V> {
    slots: Vec<(String, V)>,
}

impl<V> View for KeyedVec<V> {
    type V = Seq<(Seq<char>, V)>;

    /// The pairs in key order, each key by its characters.
    closed spec fn view(&self) -> Seq<(Seq<char>, V)> {
        self.slots@.map_values(|p: (String, V)| (p.0@, p.1))
    }
}

impl<V> KeyedVec<V> {
    /// The pairs are sorted by key; `use_type_invariant` brings this in.
    #[verifier::type_invariant]
    pub open spec fn inv(self) -> bool {
        sorted_by_key(self@)
    }

    /// The map that the pairs stand for.
    pub open spec fn as_map(&self) -> Map<Seq<char>, V> {
        pairs_to_map(self@)
    }

    /// An empty map.
    pub fn new() -> (result: Self)
        ensures
            result@ == Seq::<(Seq<char>, V)>::empty(),
    {
        let result = KeyedVec { slots: Vec::new() };
        assert(result@ =~= Seq::<(Seq<char>, V)>::empty());
        result
    }

    /// The number of pairs.
    pub fn len(&self) -> (result: usize)
        ensures
            result == self@.len(),
    {
        self.slots.len()
    }

    /// The key of the pair at index `i`.
    pub fn key_at(&self, i: usize) -> (result: &String)
        requires
            i < self@.len(),
        ensures
            result@ == self@[i as int].0,
    {
        &self.slots[i].0
    }

    /// The value of the pair at index `i`.
    pub fn value_at(&self, i: usize) -> (result: &V)
        requires
            i < self@.len(),
        ensures
            *result == self@[i as int].1,
    {
        &self.slots[i].1
    }

    /// The index of the pair whose key is `key`, if there is one.
    pub fn find(&self, key: &str) -> (result: Option<usize>)
        ensures
            match result {
                Some(i) => i < self@.len() && self@[i as int].0 == key@,
                None => !has_key(self@, key@),
            },
    {
        let n = self.slots.len();
        let mut i: usize = 0;
        while i < n
            invariant
                n == self@.len(),
                i <= n,
                forall|j: int| 0 <= j < i ==> self@[j].0 != key@,
            decreases n - i,
        {
            if compare_keys(self.slots[i].0.as_str(), key) == Order::Equal {
                return Some(i);
            }
            i = i + 1;
        }
        None
    }

    /// Sets the value of `key` to `value`, adding the key where it is missing.
    pub fn insert(&mut self, key: String, value: V)
        ensures
            final(self).as_map() == old(self).as_map().insert(key@, value),
    {
        proof {
            use_type_invariant(&*self);
        }
        let mut slots: Vec<(String, V)> = Vec::new();
        std::mem::swap(&mut slots, &mut self.slots);
        let ghost s = old(self)@;
        let n = slots.len();
        let mut i: usize = 0;
        let mut same = false;
        while i < n
            invariant_except_break
                forall|j: int| 0 <= j < i ==> key_lt(#[trigger] s[j].0, key@),
            invariant
                n == slots@.len(),
                i <= n,
                !same,
                s == slots@.map_values(|p: (String, V)| (p.0@, p.1)),
                sorted_by_key(s),
            ensures
                i <= n,
                forall|j: int| 0 <= j < i ==> key_lt(#[trigger] s[j].0, key@),
                i < n ==> key_lt(key@, s[i as int].0) || key@ == s[i as int].0,
                s == slots@.map_values(|p: (String, V)| (p.0@, p.1)),
            decreases n - i,
        {
            let c = compare_keys(key.as_str(), slots[i].0.as_str());
            if c != Order::Greater {
                break;
            }
            i = i + 1;
        }
        let ghost k = key@;
        if i < n && compare_keys(key.as_str(), slots[i].0.as_str()) == Order::Equal {
            slots.set(i, (key, value));
            proof {
                assert(slots@.map_values(|p: (String, V)| (p.0@, p.1)) =~= s.update(
                    i as int,
                    (k, value),
                ));
                lemma_map_update_at(s, i as int, value);
            }
        } else {
            slots.insert(i, (key, value));
            proof {
                assert(slots@.map_values(|p: (String, V)| (p.0@, p.1)) =~= s.insert(
                    i as int,
                    (k, value),
                ));
                lemma_sorted_insert(s, i as int, k, value);
                lemma_map_insert_at(s, i as int, k, value);
            }
        }
        self.slots = slots;
    }

    /// Removes the pair with key `key`, if there is one.
    pub fn remove(&mut self, key: &str)
        ensures
            final(self).as_map() == old(self).as_map().remove(key@),
    {
        match self.find(key) {
            Some(i) => self.remove_at(i),
            None => {
                proof {
                    assert(self.as_map() =~= old(self).as_map().remove(key@));
                }
            },
        }
    }

    /// Removes the pair at index `i`.
    pub fn remove_at(&mut self, i: usize)
        requires
            i < old(self)@.len(),
        ensures
            final(self)@ == old(self)@.remove(i as int),
            final(self).as_map() == old(self).as_map().remove(old(self)@[i as int].0),
    {
        proof {
            use_type_invariant(&*self);
        }
        let mut slots: Vec<(String, V)> = Vec::new();
        std::mem::swap(&mut slots, &mut self.slots);
        let ghost s = old(self)@;
        slots.remove(i);
        proof {
            assert(slots@.map_values(|p: (String, V)| (p.0@, p.1)) =~= s.remove(i as int));
            lemma_map_remove_at(s, i as int);
        }
        self.slots = slots;
    }

    /// Removes every pair.
    pub fn clear(&mut self)
        ensures
            final(self)@ == Seq::<(Seq<char>, V)>::empty(),
            final(self).as_map() == Map::<Seq<char>, V>::empty(),
    {
        self.slots = Vec::new();
        proof {
            assert(self@ =~= Seq::<(Seq<char>, V)>::empty());
            assert(self.as_map() =~= Map::<Seq<char>, V>::empty());
        }
    }
}

/// Inserting a pair whose key lies strictly between its neighbours keeps the
/// sequence sorted.
pub proof fn lemma_sorted_insert<V>(s: Seq<(Seq<char>, V)>, i: int, k: Seq<char>, v: V)
    requires
        sorted_by_key(s),
        0 <= i <= s.len(),
        forall|j: int| 0 <= j < i ==> key_lt(#[trigger] s[j].0, k),
        i < s.len() ==> key_lt(k, s[i].0),
    ensures
        sorted_by_key(s.insert(i, (k, v))),
{
    let t = s.insert(i, (k, v));
    assert forall|a: int, b: int| 0 <= a < b < t.len() implies key_lt(
        #[trigger] t[a].0,
        #[trigger] t[b].0,
    ) by {
        if b < i {
            assert(t[a] == s[a]);
            assert(t[b] == s[b]);
        } else if a < i && b == i {
        } else if a < i && b > i {
            assert(t[b] == s[b - 1]);
        } else if a == i {
            assert(t[b] == s[b - 1]);
            if b - 1 > i {
                lemma_key_lt_strict_total_order(k, s[i].0, s[b - 1].0);
            }
        } else {
            assert(t[a] == s[a - 1]);
            assert(t[b] == s[b - 1]);
        }
    }
}

/// Inserting a new key at its place adds it to the map.
pub proof fn lemma_map_insert_at<V>(s: Seq<(Seq<char>, V)>, i: int, k: Seq<char>, v: V)
    requires
        sorted_by_key(s),
        sorted_by_key(s.insert(i, (k, v))),
        0 <= i <= s.len(),
    ensures
        pairs_to_map(s.insert(i, (k, v))) == pairs_to_map(s).insert(k, v),
{
    let t = s.insert(i, (k, v));
    lemma_pairs_to_map_at(t, i);
    assert forall|x: Seq<char>| #[trigger] has_key(t, x) == (has_key(s, x) || x == k) by {
        if has_key(s, x) {
            let j = choose|j: int| 0 <= j < s.len() && #[trigger] s[j].0 == x;
            if j < i {
                assert(t[j] == s[j]);
            } else {
                assert(t[j + 1] == s[j]);
            }
        }
        if has_key(t, x) {
            let j = choose|j: int| 0 <= j < t.len() && #[trigger] t[j].0 == x;
            if j < i {
                assert(s[j] == t[j]);
            } else if j > i {
                assert(s[j - 1] == t[j]);
            }
        }
    }
    assert forall|x: Seq<char>| x != k && #[trigger] has_key(s, x) implies pairs_to_map(t)[x]
        == pairs_to_map(s)[x] by {
        let j = choose|j: int| 0 <= j < s.len() && #[trigger] s[j].0 == x;
        lemma_pairs_to_map_at(s, j);
        if j < i {
            assert(t[j] == s[j]);
            lemma_pairs_to_map_at(t, j);
        } else {
            assert(t[j + 1] == s[j]);
            lemma_pairs_to_map_at(t, j + 1);
        }
    }
    assert(pairs_to_map(t) =~= pairs_to_map(s).insert(k, v));
}

/// Replacing the value at an index changes the map at that index's key alone.
pub proof fn lemma_map_update_at<V>(s: Seq<(Seq<char>, V)>, i: int, v: V)
    requires
        sorted_by_key(s),
        0 <= i < s.len(),
    ensures
        sorted_by_key(s.update(i, (s[i].0, v))),
        pairs_to_map(s.update(i, (s[i].0, v))) == pairs_to_map(s).insert(s[i].0, v),
{
    let k = s[i].0;
    let t = s.update(i, (k, v));
    assert forall|a: int, b: int| 0 <= a < b < t.len() implies key_lt(
        #[trigger] t[a].0,
        #[trigger] t[b].0,
    ) by {
        assert(t[a].0 == s[a].0);
        assert(t[b].0 == s[b].0);
    }
    lemma_pairs_to_map_at(s, i);
    lemma_pairs_to_map_at(t, i);
    assert forall|x: Seq<char>| #[trigger] has_key(t, x) == has_key(s, x) by {
        if has_key(s, x) {
            let j = choose|j: int| 0 <= j < s.len() && #[trigger] s[j].0 == x;
            assert(t[j].0 == s[j].0);
        }
        if has_key(t, x) {
            let j = choose|j: int| 0 <= j < t.len() && #[trigger] t[j].0 == x;
            assert(t[j].0 == s[j].0);
        }
    }
    assert forall|x: Seq<char>| x != k && #[trigger] has_key(s, x) implies pairs_to_map(t)[x]
        == pairs_to_map(s)[x] by {
        let j = choose|j: int| 0 <= j < s.len() && #[trigger] s[j].0 == x;
        lemma_pairs_to_map_at(s, j);
        assert(j != i);
        assert(t[j] == s[j]);
        lemma_pairs_to_map_at(t, j);
    }
    assert(pairs_to_map(t) =~= pairs_to_map(s).insert(k, v));
}

/// Removing the pair at an index removes its key from the map.
pub proof fn lemma_map_remove_at<V>(s: Seq<(Seq<char>, V)>, i: int)
    requires
        sorted_by_key(s),
        0 <= i < s.len(),
    ensures
        sorted_by_key(s.remove(i)),
        pairs_to_map(s.remove(i)) == pairs_to_map(s).remove(s[i].0),
{
    let k = s[i].0;
    let t = s.remove(i);
    assert forall|a: int, b: int| 0 <= a < b < t.len() implies key_lt(
        #[trigger] t[a].0,
        #[trigger] t[b].0,
    ) by {
        if a < i {
            assert(t[a] == s[a]);
        } else {
            assert(t[a] == s[a + 1]);
        }
        if b < i {
            assert(t[b] == s[b]);
        } else {
            assert(t[b] == s[b + 1]);
        }
    }
    assert forall|x: Seq<char>| #[trigger] has_key(t, x) == (has_key(s, x) && x != k) by {
        if has_key(s, x) && x != k {
            let j = choose|j: int| 0 <= j < s.len() && #[trigger] s[j].0 == x;
            if j < i {
                assert(t[j] == s[j]);
            } else {
                assert(t[j - 1] == s[j]);
            }
        }
        if has_key(t, x) {
            let j = choose|j: int| 0 <= j < t.len() && #[trigger] t[j].0 == x;
            if j < i {
                assert(t[j] == s[j]);
                lemma_key_lt_strict_total_order(s[j].0, k, k);
            } else {
                assert(t[j] == s[j + 1]);
                lemma_key_lt_strict_total_order(k, s[j + 1].0, k);
            }
        }
    }
    assert forall|x: Seq<char>| x != k && #[trigger] has_key(s, x) implies pairs_to_map(t)[x]
        == pairs_to_map(s)[x] by {
        let j = choose|j: int| 0 <= j < s.len() && #[trigger] s[j].0 == x;
        lemma_pairs_to_map_at(s, j);
        if j < i {
            assert(t[j] == s[j]);
            lemma_pairs_to_map_at(t, j);
        } else {
            assert(t[j - 1] == s[j]);
            lemma_pairs_to_map_at(t, j - 1);
        }
    }
    assert(pairs_to_map(t) =~= pairs_to_map(s).remove(k));
}

} // verus!
