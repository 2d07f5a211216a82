//! Maps whose keys are vault keys, in the order of the keys.
use std::collections::BTreeMap;

use vstd::laws_cmp::obeys_cmp;
use vstd::prelude::*;
use vstd::std_specs::btree::{increasing_seq, key_obeys_cmp_spec};
use vstd::std_specs::cmp::OrdSpec;
use vstd::std_specs::iter::IteratorSpec;

use crate::vault_key::AssetVaultKey;
use crate::word::{word_less, RawWord};

verus! {

// MODEL
// ================================================================================================

/// The elements of a word from the last one to the first. The order of these tuples is the order of
/// the words.
pub open spec fn order_key(key: RawWord) -> RawWord {
    (key.3, key.2, key.1, key.0)
}

/// The list holds the pairs of the map, each once, by increasing key.
pub open spec fn is_listing<T>(list: Seq<(RawWord, T)>, map: Map<RawWord, T>) -> bool {
    &&& forall|i: int, j: int| 0 <= i < j < list.len() ==> word_less(list[i].0, list[j].0)
    &&& forall|i: int|
        0 <= i < list.len() ==> map.contains_key((#[trigger] list[i]).0) && map[list[i].0]
            == list[i].1
    &&& forall|k: RawWord| #[trigger]
        map.contains_key(k) ==> exists|i: int| 0 <= i < list.len() && (#[trigger] list[i]).0 == k
}

/// The pairs of a map by increasing key.
pub open spec fn listing<T>(map: Map<RawWord, T>) -> Seq<(RawWord, T)> {
    choose|list: Seq<(RawWord, T)>| is_listing(list, map)
}

/// The values of a list of entries.
pub open spec fn entry_values<V: View>(list: Seq<(AssetVaultKey, V)>) -> Seq<(RawWord, V::V)> {
    Seq::new(list.len(), |i: int| (list[i].0@, list[i].1@))
}

/// The map after all pairs of a list have been inserted into it, one after the other.
pub open spec fn insert_all<T>(map: Map<RawWord, T>, list: Seq<(RawWord, T)>) -> Map<RawWord, T>
    decreases list.len(),
{
    if list.len() == 0 {
        map
    } else {
        insert_all(map, list.drop_last()).insert(list.last().0, list.last().1)
    }
}

/// Inserting a list of one pair inserts that pair.
pub proof fn lemma_insert_one<T>(map: Map<RawWord, T>, list: Seq<(RawWord, T)>)
    requires
        list.len() == 1,
    ensures
        insert_all(map, list) == map.insert(list[0].0, list[0].1),
{
    assert(insert_all(map, list.drop_last()) == map);
}

/// A key is in the map after an insertion only if it was there before or is in the list.
pub proof fn lemma_insert_all_dom<T>(map: Map<RawWord, T>, list: Seq<(RawWord, T)>)
    ensures
        forall|k: RawWord| #[trigger]
            insert_all(map, list).contains_key(k) ==> map.contains_key(k) || exists|i: int|
                0 <= i < list.len() && (#[trigger] list[i]).0 == k,
    decreases list.len(),
{
    if list.len() > 0 {
        let rest = list.drop_last();
        lemma_insert_all_dom(map, rest);
        assert forall|k: RawWord| #[trigger]
            insert_all(map, list).contains_key(k) && !map.contains_key(k) implies exists|i: int|
            0 <= i < list.len() && (#[trigger] list[i]).0 == k by {
            if k == list.last().0 {
                assert(list[list.len() - 1].0 == k);
            } else {
                assert(insert_all(map, rest).contains_key(k));
                let i = choose|i: int| 0 <= i < rest.len() && (#[trigger] rest[i]).0 == k;
                assert(list[i].0 == k);
            }
        }
    }
}

/// A map has only one listing.
pub proof fn lemma_listing_unique<T>(
    a: Seq<(RawWord, T)>,
    b: Seq<(RawWord, T)>,
    map: Map<RawWord, T>,
)
    requires
        is_listing(a, map),
        is_listing(b, map),
    ensures
        a == b,
    decreases a.len(),
{
    if a.len() == 0 {
        if b.len() > 0 {
            assert(map.contains_key(b[0].0));
        }
        assert(a =~= b);
    } else {
        let n = a.len() - 1;
        let k = a[n].0;
        assert(map.contains_key(k));
        let j = choose|j: int| 0 <= j < b.len() && (#[trigger] b[j]).0 == k;
        let m = b.len() - 1;
        assert(map.contains_key(b[m].0));
        let i = choose|i: int| 0 <= i < a.len() && (#[trigger] a[i]).0 == b[m].0;
        if i < n {
            assert(word_less(a[i].0, a[n].0));
            if j < m {
                assert(word_less(b[j].0, b[m].0));
            }
        }
        assert(b[m].0 == k && b[m].1 == a[n].1);
        lemma_drop_last_listing(a, map);
        lemma_drop_last_listing(b, map);
        lemma_listing_unique(a.drop_last(), b.drop_last(), map.remove(k));
        assert(a =~= a.drop_last().push(a[n]));
        assert(b =~= b.drop_last().push(b[m]));
    }
}

/// Without its last pair, a listing is one of the map without the greatest key.
proof fn lemma_drop_last_listing<T>(list: Seq<(RawWord, T)>, map: Map<RawWord, T>)
    requires
        is_listing(list, map),
        list.len() > 0,
    ensures
        is_listing(list.drop_last(), map.remove(list.last().0)),
{
    let n = list.len() - 1;
    let rest = list.drop_last();
    let k = list[n].0;
    assert forall|i: int| 0 <= i < rest.len() implies map.remove(k).contains_key(
        (#[trigger] rest[i]).0,
    ) && map.remove(k)[rest[i].0] == rest[i].1 by {
        assert(word_less(list[i].0, list[n].0));
        assert(map.contains_key(list[i].0));
    }
    assert forall|q: RawWord| #[trigger] map.remove(k).contains_key(q) implies exists|i: int|
        0 <= i < rest.len() && (#[trigger] rest[i]).0 == q by {
        assert(map.contains_key(q));
        let i = choose|i: int| 0 <= i < list.len() && (#[trigger] list[i]).0 == q;
        assert(rest[i].0 == q);
    }
}

/// A finite set of words that is not empty has a greatest word.
proof fn lemma_greatest_exists(words: Set<RawWord>) -> (greatest: RawWord)
    requires
        words.finite(),
        words.len() > 0,
    ensures
        words.contains(greatest),
        forall|w: RawWord| #[trigger]
            words.contains(w) && w != greatest ==> word_less(w, greatest),
    decreases words.len(),
{
    let w = words.choose();
    let rest = words.remove(w);
    if rest.len() == 0 {
        assert forall|x: RawWord| words.contains(x) implies x == w by {
            if x != w {
                assert(rest.contains(x));
            }
        }
        w
    } else {
        let g = lemma_greatest_exists(rest);
        assert forall|x: RawWord| #[trigger] words.contains(x) && x != w implies rest.contains(
            x,
        ) by {}
        if word_less(w, g) {
            g
        } else {
            assert(word_less(g, w) || g == w);
            w
        }
    }
}

/// Every finite map has a listing.
pub proof fn lemma_listing_exists<T>(map: Map<RawWord, T>)
    requires
        map.dom().finite(),
    ensures
        is_listing(listing(map), map),
    decreases map.dom().len(),
{
    if map.dom().len() == 0 {
        assert forall|k: RawWord| !map.contains_key(k) by {
            if map.contains_key(k) {
                assert(map.dom().contains(k));
            }
        }
        assert(is_listing(Seq::<(RawWord, T)>::empty(), map));
    } else {
        let g = lemma_greatest_exists(map.dom());
        let rest = map.remove(g);
        assert(rest.dom() =~= map.dom().remove(g));
        lemma_listing_exists(rest);
        let before = listing(rest);
        let list = before.push((g, map[g]));
        assert forall|i: int, j: int| 0 <= i < j < list.len() implies word_less(
            list[i].0,
            list[j].0,
        ) by {
            assert(rest.contains_key(before[i].0));
            assert(map.dom().contains(before[i].0));
            if j < before.len() {
                assert(word_less(before[i].0, before[j].0));
            }
        }
        assert forall|i: int| 0 <= i < list.len() implies map.contains_key((#[trigger] list[i]).0)
            && map[list[i].0] == list[i].1 by {
            if i < before.len() {
                assert(rest.contains_key(before[i].0));
            }
        }
        assert forall|k: RawWord| #[trigger] map.contains_key(k) implies exists|i: int|
            0 <= i < list.len() && (#[trigger] list[i]).0 == k by {
            if k == g {
                assert(list[before.len() as int].0 == k);
            } else {
                assert(rest.contains_key(k));
                let i = choose|i: int| 0 <= i < before.len() && (#[trigger] before[i]).0 == k;
                assert(list[i].0 == k);
            }
        }
        assert(is_listing(list, map));
    }
}

/// Inserting a listing of a map overrides with that map.
pub proof fn lemma_insert_listing<T>(
    map: Map<RawWord, T>,
    list: Seq<(RawWord, T)>,
    other: Map<RawWord, T>,
)
    requires
        is_listing(list, other),
    ensures
        insert_all(map, list) == map.union_prefer_right(other),
    decreases list.len(),
{
    if list.len() == 0 {
        assert forall|k: RawWord| !other.contains_key(k) by {
            if other.contains_key(k) {
                let i = choose|i: int| 0 <= i < list.len() && (#[trigger] list[i]).0 == k;
                assert(0 <= i < list.len());
            }
        }
        assert(map.union_prefer_right(other) =~= map);
    } else {
        let k = list.last().0;
        lemma_drop_last_listing(list, other);
        lemma_insert_listing(map, list.drop_last(), other.remove(k));
        assert(other.contains_key(list[list.len() - 1].0));
        assert(map.union_prefer_right(other) =~= map.union_prefer_right(other.remove(k)).insert(
            k,
            list.last().1,
        ));
    }
}

/// A listing is as long as the map is large.
pub proof fn lemma_listing_len<T>(list: Seq<(RawWord, T)>, map: Map<RawWord, T>)
    requires
        is_listing(list, map),
    ensures
        map.dom().finite(),
        map.dom().len() == list.len(),
{
    let keys = Seq::new(list.len(), |i: int| list[i].0);
    assert forall|i: int, j: int| 0 <= i < keys.len() && 0 <= j < keys.len() && i
        != j implies keys[i] != keys[j] by {
        if i < j {
            assert(word_less(list[i].0, list[j].0));
        } else {
            assert(word_less(list[j].0, list[i].0));
        }
    }
    assert(keys.to_set() =~= map.dom()) by {
        assert forall|k: RawWord| map.contains_key(k) implies keys.contains(k) by {
            let i = choose|i: int| 0 <= i < list.len() && (#[trigger] list[i]).0 == k;
            assert(keys[i] == k);
        }
        assert forall|k: RawWord| keys.contains(k) implies map.contains_key(k) by {
            let i = choose|i: int| 0 <= i < keys.len() && keys[i] == k;
            assert(list[i].0 == k);
        }
    }
    keys.unique_seq_to_set();
}

/// Tuples of integers are ordered as the standard library documents it.
proof fn lemma_tuples_obey()
    ensures
        obeys_cmp::<(u64, u64, u64, u64)>(),
        key_obeys_cmp_spec::<(u64, u64, u64, u64)>(),
{
    broadcast use vstd::laws_cmp::group_laws_cmp;
    broadcast use vstd::std_specs::btree::group_btree_axioms;

}

// MAP
// ================================================================================================

/// A map whose keys are vault keys.
#[derive(Debug, PartialEq, Eq)]
pub struct KeyMap<V> {
    map: BTreeMap<(u64, u64, u64, u64), (AssetVaultKey, V)>,
}

impl<V: View> View for KeyMap<V> {
    type V = Map<RawWord, V::V>;

    closed spec fn view(&self) -> Map<RawWord, V::V> {
        Map::new(
            |k: RawWord| self.map@.contains_key(order_key(k)),
            |k: RawWord| self.map@[order_key(k)].1@,
        )
    }
}

/// Returns the elements of the word of a vault key from the last one to the first.
fn ordered(key: &AssetVaultKey) -> (r: (u64, u64, u64, u64))
    ensures
        r == order_key(key@),
{
    let word = key.to_word();
    (
        word.element(3).as_canonical_u64(),
        word.element(2).as_canonical_u64(),
        word.element(1).as_canonical_u64(),
        word.element(0).as_canonical_u64(),
    )
}

impl<V> KeyMap<V> {
    /// Every vault key is stored under its own elements.
    #[verifier::type_invariant]
    closed spec fn keyed_by_elements(self) -> bool {
        forall|k: RawWord| #[trigger]
            self.map@.contains_key(order_key(k)) ==> self.map@[order_key(k)].0@ == k
    }
}

impl<V: View + Copy> KeyMap<V> {
    /// Creates a map without entries.
    pub fn new() -> (r: KeyMap<V>)
        ensures
            r@ == Map::<RawWord, V::V>::empty(),
    {
        let r = KeyMap { map: BTreeMap::new() };
        assert(r@ =~= Map::empty());
        r
    }

    /// Returns what a vault key maps to, if there is an entry for it.
    pub fn get(&self, key: &AssetVaultKey) -> (r: Option<V>)
        ensures
            match r {
                Some(value) => self@.contains_key(key@) && value@ == self@[key@],
                None => !self@.contains_key(key@),
            },
    {
        proof {
            lemma_tuples_obey();
        }
        match self.map.get(&ordered(key)) {
            Some(entry) => Some(entry.1),
            None => None,
        }
    }

    /// Inserts an entry, or replaces an existing one.
    pub fn insert(&mut self, key: AssetVaultKey, value: V)
        ensures
            final(self)@ == old(self)@.insert(key@, value@),
    {
        proof {
            use_type_invariant(&*self);
            lemma_tuples_obey();
        }
        let mut map: BTreeMap<(u64, u64, u64, u64), (AssetVaultKey, V)> = BTreeMap::new();
        std::mem::swap(&mut map, &mut self.map);
        map.insert(ordered(&key), (key, value));
        self.map = map;
        assert(self@ =~= old(self)@.insert(key@, value@));
    }

    /// Removes the entry of a vault key, if there is one.
    pub fn remove(&mut self, key: &AssetVaultKey)
        ensures
            final(self)@ == old(self)@.remove(key@),
    {
        proof {
            use_type_invariant(&*self);
            lemma_tuples_obey();
        }
        let mut map: BTreeMap<(u64, u64, u64, u64), (AssetVaultKey, V)> = BTreeMap::new();
        std::mem::swap(&mut map, &mut self.map);
        map.remove(&ordered(key));
        self.map = map;
        assert(self@ =~= old(self)@.remove(key@));
    }

    /// Returns the number of entries.
    pub fn len(&self) -> (r: usize)
        ensures
            r == self@.dom().len(),
    {
        proof {
            self.lemma_finite();
        }
        self.map.len()
    }

    /// There are finitely many entries, as many as the underlying map has.
    proof fn lemma_finite(&self)
        ensures
            self@.dom().finite(),
            self@.dom().len() == self.map.len(),
    {
        broadcast use vstd::std_specs::btree::group_btree_axioms;

        lemma_tuples_obey();
        let f = |k: RawWord| order_key(k);
        assert(self.map@.dom().map(f) =~= self@.dom()) by {
            assert forall|k: RawWord| self@.dom().contains(k) implies self.map@.dom().map(
                f,
            ).contains(k) by {
                assert(f(order_key(k)) == k);
            }
            assert forall|k: RawWord| self.map@.dom().map(f).contains(k) implies self@.dom().contains(
                k,
            ) by {
                let o = choose|o: RawWord| self.map@.dom().contains(o) && f(o) == k;
                assert(order_key(k) == o);
            }
        }
        assert(vstd::relations::injective_on(f, self.map@.dom()));
        vstd::set_lib::lemma_map_size(self.map@.dom(), self@.dom(), f);
    }

    /// Inserts all entries of a list, one after the other.
    pub fn extend(&mut self, list: &Vec<(AssetVaultKey, V)>)
        ensures
            final(self)@ == insert_all(old(self)@, entry_values(list@)),
    {
        let ghost values = entry_values(list@);
        assert(values.take(0) =~= Seq::empty());
        let mut i: usize = 0;
        while i < list.len()
            invariant
                i <= list.len(),
                values == entry_values(list@),
                self@ == insert_all(old(self)@, values.take(i as int)),
            decreases list.len() - i,
        {
            self.insert(list[i].0, list[i].1);
            assert(values.take(i + 1).drop_last() =~= values.take(i as int));
            i += 1;
        }
        assert(values.take(i as int) =~= values);
    }

    /// Returns all entries by increasing key.
    pub fn to_list(&self) -> (r: Vec<(AssetVaultKey, V)>)
        ensures
            is_listing(entry_values(r@), self@),
            entry_values(r@) == listing(self@),
    {
        proof {
            use_type_invariant(self);
            lemma_tuples_obey();
        }
        let items = self.map.iter();
        let ghost seq = items.remaining();
        let ghost keys = seq.map_values(|kv: (&(u64, u64, u64, u64), &(AssetVaultKey, V))| *kv.0);
        let mut list: Vec<(AssetVaultKey, V)> = Vec::new();
        for entry in iter: items
            invariant
                iter.seq() == seq,
                list@.len() == iter.index(),
                forall|i: int| 0 <= i < list@.len() ==> (#[trigger] list@[i]) == *seq[i].1,
        {
            list.push(*entry.1);
        }
        proof {
            broadcast use vstd::std_specs::btree::group_btree_axioms;

            let values = entry_values(list@);
            assert(increasing_seq(keys));
            assert forall|i: int| 0 <= i < values.len() implies #[trigger] self@.contains_key(
                values[i].0,
            ) && self@[values[i].0] == values[i].1 && order_key(values[i].0) == keys[i] by {
                let k = keys[i];
                assert(self.map@.contains_key(*seq[i].0));
                assert(order_key(order_key(k)) == k);
                assert(self.map@.contains_key(order_key(order_key(k))));
            }
            assert forall|i: int, j: int| 0 <= i < j < values.len() implies word_less(
                values[i].0,
                values[j].0,
            ) by {
                assert(self@.contains_key(values[i].0) && self@.contains_key(values[j].0));
                assert(keys[i].cmp_spec(&keys[j]) is Less);
            }
            assert forall|k: RawWord| #[trigger] self@.contains_key(k) implies exists|i: int|
                0 <= i < values.len() && (#[trigger] values[i]).0 == k by {
                let stored = self.map@[order_key(k)];
                assert(self.map@.contains_key(order_key(k)));
                assert(seq.contains((&order_key(k), &stored)));
                let i = choose|i: int|
                    0 <= i < seq.len() && seq[i] == (&order_key(k), &stored);
                assert(values[i].0 == k);
            }
            assert(is_listing(values, self@));
            lemma_listing_unique(values, listing(self@), self@);
        }
        list
    }
}

impl<V: View + Copy> Clone for KeyMap<V> {
    fn clone(&self) -> (r: KeyMap<V>)
        ensures
            r@ == self@,
    {
        proof {
            use_type_invariant(self);
        }
        KeyMap { map: self.map.clone() }
    }
}

} // verus!
