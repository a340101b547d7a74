//! A map keyed by text, held in the order of its keys: the metadata of a
//! row, the distinct values of each column, the selection of each column.

use crate::text::{
    compare_text, lemma_text_lt_irreflexive, lemma_text_lt_total, lemma_text_lt_transitive,
    text_lt, Position,
};
use vstd::prelude::*;

verus! {

/// Every text of the sequence comes before each later one.
pub open spec fn texts_sorted(s: Seq<Seq<char>>) -> bool {
    forall|i: int, j: int| 0 <= i < j < s.len() ==> text_lt(#[trigger] s[i], #[trigger] s[j])
}

/// In a sorted sequence of texts no text occurs twice.
pub proof fn lemma_texts_distinct(s: Seq<Seq<char>>, i: int, j: int)
    requires
        texts_sorted(s),
        0 <= i < s.len(),
        0 <= j < s.len(),
        s[i] == s[j],
    ensures
        i == j,
{
    lemma_text_lt_irreflexive(s[i]);
    if i < j {
        assert(text_lt(s[i], s[j]));
    }
    if j < i {
        assert(text_lt(s[j], s[i]));
    }
}

/// A text that is before or after every member of a sequence is no member
/// of it.
pub proof fn lemma_texts_absent(s: Seq<Seq<char>>, p: int, x: Seq<char>)
    requires
        0 <= p <= s.len(),
        forall|k: int| 0 <= k < p ==> text_lt(#[trigger] s[k], x),
        forall|k: int| p <= k < s.len() ==> text_lt(x, #[trigger] s[k]),
    ensures
        !s.contains(x),
{
    lemma_text_lt_irreflexive(x);
}

/// Putting a text where the order wants it keeps the sequence sorted.
pub proof fn lemma_texts_insert(s: Seq<Seq<char>>, p: int, x: Seq<char>)
    requires
        texts_sorted(s),
        0 <= p <= s.len(),
        forall|k: int| 0 <= k < p ==> text_lt(#[trigger] s[k], x),
        forall|k: int| p <= k < s.len() ==> text_lt(x, #[trigger] s[k]),
    ensures
        texts_sorted(s.insert(p, x)),
{
    let t = s.insert(p, x);
    assert forall|i: int, j: int| 0 <= i < j < t.len() implies text_lt(
        #[trigger] t[i],
        #[trigger] t[j],
    ) by {
        if i < p && j > p {
            assert(t[i] == s[i] && t[j] == s[j - 1]);
        }
    }
}

/// Taking a text out keeps the sequence sorted.
pub proof fn lemma_texts_remove(s: Seq<Seq<char>>, p: int)
    requires
        texts_sorted(s),
        0 <= p < s.len(),
    ensures
        texts_sorted(s.remove(p)),
{
    let t = s.remove(p);
    assert forall|i: int, j: int| 0 <= i < j < t.len() implies text_lt(
        #[trigger] t[i],
        #[trigger] t[j],
    ) by {
        let si = if i < p { i } else { i + 1 };
        let sj = if j < p { j } else { j + 1 };
        assert(t[i] == s[si] && t[j] == s[sj]);
    }
}

/// The map that a sequence of keys and the sequence of their values stand
/// for: each key with the value at its place.
pub open spec fn entries_map<T>(keys: Seq<Seq<char>>, values: Seq<T>) -> Map<Seq<char>, T> {
    Map::new(|k: Seq<char>| keys.contains(k), |k: Seq<char>| values[keys.index_of(k)])
}

/// In the map of sorted keys, the key at place `i` has the value at place
/// `i`.
pub proof fn lemma_entries_map_at<T>(keys: Seq<Seq<char>>, values: Seq<T>, i: int)
    requires
        texts_sorted(keys),
        0 <= i < keys.len(),
    ensures
        entries_map(keys, values).contains_key(keys[i]),
        entries_map(keys, values)[keys[i]] == values[i],
{
    assert(keys.contains(keys[i]));
    let j = keys.index_of(keys[i]);
    lemma_texts_distinct(keys, i, j);
}

/// A new key at its place in the order adds one entry to the map.
pub proof fn lemma_entries_map_insert<T>(keys: Seq<Seq<char>>, values: Seq<T>, p: int, k: Seq<char>, v: T)
    requires
        texts_sorted(keys),
        keys.len() == values.len(),
        0 <= p <= keys.len(),
        forall|i: int| 0 <= i < p ==> text_lt(#[trigger] keys[i], k),
        forall|i: int| p <= i < keys.len() ==> text_lt(k, #[trigger] keys[i]),
    ensures
        texts_sorted(keys.insert(p, k)),
        entries_map(keys.insert(p, k), values.insert(p, v)) == entries_map(keys, values).insert(k, v),
{
    lemma_texts_insert(keys, p, k);
    lemma_texts_absent(keys, p, k);
    let keys2 = keys.insert(p, k);
    let values2 = values.insert(p, v);
    let m = entries_map(keys, values);
    let m2 = entries_map(keys2, values2);
    assert forall|x: Seq<char>| m2.contains_key(x) <==> m.insert(k, v).contains_key(x) by {
        if keys2.contains(x) {
            let i = choose|i: int| 0 <= i < keys2.len() && keys2[i] == x;
            if i < p {
                assert(keys[i] == x);
            } else if i > p {
                assert(keys[i - 1] == x);
            }
        }
        if keys.contains(x) {
            let i = choose|i: int| 0 <= i < keys.len() && keys[i] == x;
            if i < p {
                assert(keys2[i] == x);
            } else {
                assert(keys2[i + 1] == x);
            }
        }
        if x == k {
            assert(keys2[p] == x);
        }
    }
    assert forall|x: Seq<char>| m2.contains_key(x) implies m2[x] == m.insert(k, v)[x] by {
        let i = choose|i: int| 0 <= i < keys2.len() && keys2[i] == x;
        lemma_entries_map_at(keys2, values2, i);
        if i < p {
            lemma_entries_map_at(keys, values, i);
        } else if i > p {
            lemma_entries_map_at(keys, values, i - 1);
        }
    }
    assert(m2 =~= m.insert(k, v));
}

/// A new value at the place of a key replaces that key's entry.
pub proof fn lemma_entries_map_update<T>(keys: Seq<Seq<char>>, values: Seq<T>, p: int, v: T)
    requires
        texts_sorted(keys),
        keys.len() == values.len(),
        0 <= p < keys.len(),
    ensures
        entries_map(keys, values.update(p, v)) == entries_map(keys, values).insert(keys[p], v),
{
    let values2 = values.update(p, v);
    let m = entries_map(keys, values);
    let m2 = entries_map(keys, values2);
    assert(keys.contains(keys[p]));
    assert forall|x: Seq<char>| m2.contains_key(x) implies m2[x] == m.insert(keys[p], v)[x] by {
        assert(keys.contains(x));
        let i = choose|i: int| 0 <= i < keys.len() && keys[i] == x;
        lemma_entries_map_at(keys, values2, i);
        lemma_entries_map_at(keys, values, i);
        if x == keys[p] {
            lemma_texts_distinct(keys, i, p);
        }
    }
    assert(m2 =~= m.insert(keys[p], v));
}

/// Taking the key at place `p` out removes its entry from the map.
pub proof fn lemma_entries_map_remove<T>(keys: Seq<Seq<char>>, values: Seq<T>, p: int)
    requires
        texts_sorted(keys),
        keys.len() == values.len(),
        0 <= p < keys.len(),
    ensures
        texts_sorted(keys.remove(p)),
        entries_map(keys.remove(p), values.remove(p)) == entries_map(keys, values).remove(keys[p]),
{
    lemma_texts_remove(keys, p);
    let keys2 = keys.remove(p);
    let values2 = values.remove(p);
    let m = entries_map(keys, values);
    let m2 = entries_map(keys2, values2);
    assert forall|x: Seq<char>| m2.contains_key(x) <==> m.remove(keys[p]).contains_key(x) by {
        if keys2.contains(x) {
            let i = choose|i: int| 0 <= i < keys2.len() && keys2[i] == x;
            let si = if i < p { i } else { i + 1 };
            assert(keys[si] == x);
            if x == keys[p] {
                lemma_texts_distinct(keys, si, p);
            }
        }
        if keys.contains(x) && x != keys[p] {
            let i = choose|i: int| 0 <= i < keys.len() && keys[i] == x;
            if i < p {
                assert(keys2[i] == x);
            } else {
                assert(keys2[i - 1] == x);
            }
        }
    }
    assert forall|x: Seq<char>| m2.contains_key(x) implies m2[x] == m.remove(keys[p])[x] by {
        let i = choose|i: int| 0 <= i < keys2.len() && keys2[i] == x;
        let si = if i < p { i } else { i + 1 };
        lemma_entries_map_at(keys2, values2, i);
        lemma_entries_map_at(keys, values, si);
    }
    assert(m2 =~= m.remove(keys[p]));
}

/// A map from text to `V`, held as its entries in the order of their keys.
#[derive(Debug)]
pub struct TextMap<V: View> {
    entries: Vec<(String, V)>,
}

impl<V: View> View for TextMap<V> {
    type V = Map<Seq<char>, V::V>;

    /// The map from each key to the view of its value.
    open spec fn view(&self) -> Map<Seq<char>, V::V> {
        entries_map(self.keys(), self.values())
    }
}

impl<V: View> TextMap<V> {
    /// The keys in their order.
    pub closed spec fn keys(&self) -> Seq<Seq<char>> {
        self.entries@.map_values(|e: (String, V)| e.0@)
    }

    /// The views of the values, each at the place of its key.
    pub closed spec fn values(&self) -> Seq<V::V> {
        self.entries@.map_values(|e: (String, V)| e.1@)
    }

    /// The keys come in strictly ascending order, one value to each.
    pub open spec fn wf(&self) -> bool {
        &&& texts_sorted(self.keys())
        &&& self.keys().len() == self.values().len()
    }

    #[verifier::type_invariant]
    closed spec fn inv(self) -> bool {
        self.wf()
    }

    /// The empty map.
    pub fn new() -> (r: TextMap<V>)
        ensures
            r.wf(),
            r.keys() == Seq::<Seq<char>>::empty(),
            r@ == Map::<Seq<char>, V::V>::empty(),
    {
        let r = TextMap { entries: Vec::new() };
        assert(r.keys() =~= Seq::<Seq<char>>::empty());
        assert(r@ =~= Map::<Seq<char>, V::V>::empty());
        r
    }

    /// The number of entries.
    pub fn len(&self) -> (r: usize)
        ensures
            self.wf(),
            r == self.keys().len(),
            r == self.values().len(),
    {
        proof {
            use_type_invariant(self);
        }
        self.entries.len()
    }

    /// The key at place `i` of the order.
    pub fn key_at(&self, i: usize) -> (r: &String)
        requires
            i < self.keys().len(),
        ensures
            r@ == self.keys()[i as int],
            self@.contains_key(r@),
    {
        proof {
            use_type_invariant(self);
            lemma_entries_map_at(self.keys(), self.values(), i as int);
        }
        &self.entries[i].0
    }

    /// The value of the key at place `i` of the order.
    pub fn value_at(&self, i: usize) -> (r: &V)
        requires
            i < self.keys().len(),
        ensures
            r@ == self.values()[i as int],
            r@ == self@[self.keys()[i as int]],
    {
        proof {
            use_type_invariant(self);
            lemma_entries_map_at(self.keys(), self.values(), i as int);
        }
        &self.entries[i].1
    }

    /// Where `key` is, or where it would go: the place, and whether `key`
    /// is there.
    fn locate(&self, key: &str) -> (r: (usize, bool))
        ensures
            r.0 <= self.keys().len(),
            r.1 ==> r.0 < self.keys().len() && self.keys()[r.0 as int] == key@,
            r.1 == self.keys().contains(key@),
            forall|k: int| 0 <= k < r.0 ==> text_lt(#[trigger] self.keys()[k], key@),
            forall|k: int|
                r.0 + (if r.1 { 1int } else { 0int }) <= k < self.keys().len() ==> text_lt(
                    key@,
                    #[trigger] self.keys()[k],
                ),
    {
        proof {
            use_type_invariant(self);
        }
        let mut i: usize = 0;
        while i < self.entries.len()
            invariant
                i <= self.entries.len(),
                self.wf(),
                self.keys().len() == self.entries.len(),
                forall|k: int| 0 <= k < i ==> text_lt(#[trigger] self.keys()[k], key@),
            decreases self.entries.len() - i,
        {
            let place = compare_text(self.entries[i].0.as_str(), key);
            proof {
                let n = i as int;
                let keys = self.keys();
                assert(keys[n] == self.entries@[n].0@);
                lemma_text_lt_total(keys[n], key@);
                if place != Position::Before {
                    assert forall|k: int| n < k < keys.len() implies text_lt(
                        key@,
                        #[trigger] keys[k],
                    ) by {
                        assert(text_lt(keys[n], keys[k]));
                        if place == Position::After {
                            lemma_text_lt_transitive(key@, keys[n], keys[k]);
                        }
                    }
                    if place == Position::After {
                        lemma_texts_absent(keys, n, key@);
                    }
                }
            }
            match place {
                Position::Before => {
                    i += 1;
                },
                Position::Same => {
                    return (i, true);
                },
                Position::After => {
                    return (i, false);
                },
            }
        }
        proof {
            lemma_texts_absent(self.keys(), i as int, key@);
        }
        (i, false)
    }

    /// Whether the map has an entry for `key`.
    pub fn contains_key(&self, key: &str) -> (r: bool)
        ensures
            r == self@.contains_key(key@),
    {
        self.locate(key).1
    }

    /// The value of `key`, if the map has one.
    pub fn get(&self, key: &str) -> (r: Option<&V>)
        ensures
            r is Some == self@.contains_key(key@),
            r matches Some(v) ==> v@ == self@[key@],
    {
        let (p, found) = self.locate(key);
        if found {
            proof {
                use_type_invariant(self);
                lemma_entries_map_at(self.keys(), self.values(), p as int);
            }
            Some(&self.entries[p].1)
        } else {
            None
        }
    }

    /// Sets the value of `key`, adding the key where it is new.
    pub fn insert(&mut self, key: String, value: V)
        ensures
            final(self).wf(),
            final(self)@ == old(self)@.insert(key@, value@),
    {
        let (p, found) = self.locate(key.as_str());
        proof {
            use_type_invariant(&*self);
            let keys = self.keys();
            let values = self.values();
            if found {
                lemma_entries_map_update(keys, values, p as int, value@);
                assert(self.entries@.remove(p as int).insert(p as int, (key, value)).map_values(
                    |e: (String, V)| e.0@,
                ) =~= keys);
                assert(self.entries@.remove(p as int).insert(p as int, (key, value)).map_values(
                    |e: (String, V)| e.1@,
                ) =~= values.update(p as int, value@));
            } else {
                lemma_entries_map_insert(keys, values, p as int, key@, value@);
                assert(self.entries@.insert(p as int, (key, value)).map_values(
                    |e: (String, V)| e.0@,
                ) =~= keys.insert(p as int, key@));
                assert(self.entries@.insert(p as int, (key, value)).map_values(
                    |e: (String, V)| e.1@,
                ) =~= values.insert(p as int, value@));
            }
        }
        let mut entries: Vec<(String, V)> = Vec::new();
        std::mem::swap(&mut self.entries, &mut entries);
        if found {
            let _ = entries.remove(p);
        }
        entries.insert(p, (key, value));
        std::mem::swap(&mut self.entries, &mut entries);
    }

    /// Takes the entry of `key` out and hands back its value, if there was
    /// one.
    pub fn remove(&mut self, key: &str) -> (r: Option<V>)
        ensures
            final(self).wf(),
            final(self)@ == old(self)@.remove(key@),
            r is Some == old(self)@.contains_key(key@),
            r matches Some(v) ==> v@ == old(self)@[key@],
    {
        let (p, found) = self.locate(key);
        if found {
            proof {
                use_type_invariant(&*self);
                let keys = self.keys();
                let values = self.values();
                lemma_entries_map_at(keys, values, p as int);
                lemma_entries_map_remove(keys, values, p as int);
                assert(self.entries@.remove(p as int).map_values(|e: (String, V)| e.0@)
                    =~= keys.remove(p as int));
                assert(self.entries@.remove(p as int).map_values(|e: (String, V)| e.1@)
                    =~= values.remove(p as int));
            }
            let mut entries: Vec<(String, V)> = Vec::new();
            std::mem::swap(&mut self.entries, &mut entries);
            let entry = entries.remove(p);
            std::mem::swap(&mut self.entries, &mut entries);
            Some(entry.1)
        } else {
            proof {
                use_type_invariant(&*self);
                assert(self@.remove(key@) =~= self@);
            }
            None
        }
    }
}

} // verus!
