//! A map from text keys to values that remembers the order in which keys were
//! first inserted. Its view is the mathematical map; the order is what a
//! writer walks when it prints the map.
use vstd::prelude::*;

use crate::text::same_text;

verus! {

/// No key occurs twice in `es`.
pub open spec fn keys_unique<W>(es: Seq<(Seq<char>, W)>) -> bool {
    forall|i: int, j: int|
        0 <= i < es.len() && 0 <= j < es.len() && i != j ==> (#[trigger] es[i]).0 != (
        #[trigger] es[j]).0
}

/// `k` is a key of `es`.
pub open spec fn has_key<W>(es: Seq<(Seq<char>, W)>, k: Seq<char>) -> bool {
    exists|i: int| 0 <= i < es.len() && (#[trigger] es[i]).0 == k
}

/// The map that a list of entries with distinct keys stands for.
pub open spec fn entries_to_map<W>(es: Seq<(Seq<char>, W)>) -> Map<Seq<char>, W> {
    Map::new(
        |k: Seq<char>| has_key(es, k),
        |k: Seq<char>| es[choose|i: int| 0 <= i < es.len() && (#[trigger] es[i]).0 == k].1,
    )
}

/// With distinct keys, the value of each entry is what the map holds at its key.
pub proof fn lemma_entries_to_map_at<W>(es: Seq<(Seq<char>, W)>, i: int)
    requires
        keys_unique(es),
        0 <= i < es.len(),
    ensures
        entries_to_map(es).contains_key(es[i].0),
        entries_to_map(es)[es[i].0] == es[i].1,
{
    let k = es[i].0;
    assert(has_key(es, k));
    let j = choose|j: int| 0 <= j < es.len() && (#[trigger] es[j]).0 == k;
    assert(i == j);
}

/// Appending an entry with a new key inserts it into the map.
pub proof fn lemma_entries_to_map_push<W>(es: Seq<(Seq<char>, W)>, k: Seq<char>, v: W)
    requires
        keys_unique(es),
        !has_key(es, k),
    ensures
        keys_unique(es.push((k, v))),
        entries_to_map(es.push((k, v))) == entries_to_map(es).insert(k, v),
{
    let es2 = es.push((k, v));
    assert forall|i: int, j: int|
        0 <= i < es2.len() && 0 <= j < es2.len() && i != j implies (#[trigger] es2[i]).0 != (
        #[trigger] es2[j]).0 by {
        if i < es.len() && j < es.len() {
            assert(es2[i] == es[i] && es2[j] == es[j]);
        } else if i < es.len() {
            assert(es2[i] == es[i]);
        } else if j < es.len() {
            assert(es2[j] == es[j]);
        }
    }
    let m1 = entries_to_map(es2);
    let m2 = entries_to_map(es).insert(k, v);
    assert forall|key: Seq<char>| m1.contains_key(key) <==> m2.contains_key(key) by {
        if has_key(es2, key) && key != k {
            let i = choose|i: int| 0 <= i < es2.len() && (#[trigger] es2[i]).0 == key;
            assert(es[i] == es2[i]);
        }
        if has_key(es, key) {
            let i = choose|i: int| 0 <= i < es.len() && (#[trigger] es[i]).0 == key;
            assert(es2[i] == es[i]);
        }
        if key == k {
            assert(es2[es.len() as int].0 == k);
        }
    }
    assert forall|key: Seq<char>| m1.contains_key(key) implies m1[key] == m2[key] by {
        let i = choose|i: int| 0 <= i < es2.len() && (#[trigger] es2[i]).0 == key;
        lemma_entries_to_map_at(es2, i);
        if i < es.len() {
            assert(es2[i] == es[i]);
            lemma_entries_to_map_at(es, i);
        }
    }
    assert(m1 =~= m2);
}

/// Replacing the value of an existing entry updates the map at its key.
pub proof fn lemma_entries_to_map_update<W>(es: Seq<(Seq<char>, W)>, i: int, v: W)
    requires
        keys_unique(es),
        0 <= i < es.len(),
    ensures
        keys_unique(es.update(i, (es[i].0, v))),
        entries_to_map(es.update(i, (es[i].0, v))) == entries_to_map(es).insert(es[i].0, v),
{
    let k = es[i].0;
    let es2 = es.update(i, (k, v));
    assert forall|a: int, b: int|
        0 <= a < es2.len() && 0 <= b < es2.len() && a != b implies (#[trigger] es2[a]).0 != (
        #[trigger] es2[b]).0 by {
        assert(es2[a].0 == es[a].0);
        assert(es2[b].0 == es[b].0);
    }
    let m1 = entries_to_map(es2);
    let m2 = entries_to_map(es).insert(k, v);
    assert forall|key: Seq<char>| m1.contains_key(key) <==> m2.contains_key(key) by {
        if has_key(es2, key) {
            let j = choose|j: int| 0 <= j < es2.len() && (#[trigger] es2[j]).0 == key;
            assert(es[j].0 == key);
        }
        if has_key(es, key) {
            let j = choose|j: int| 0 <= j < es.len() && (#[trigger] es[j]).0 == key;
            assert(es2[j].0 == key);
        }
        assert(es2[i].0 == k);
    }
    assert forall|key: Seq<char>| m1.contains_key(key) implies m1[key] == m2[key] by {
        let j = choose|j: int| 0 <= j < es2.len() && (#[trigger] es2[j]).0 == key;
        lemma_entries_to_map_at(es2, j);
        if j != i {
            assert(es2[j] == es[j]);
            lemma_entries_to_map_at(es, j);
        }
    }
    assert(m1 =~= m2);
}

/// Sets the value of key `k` in a list of entries: in place where the key is
/// there, as a new last entry where it is not.
pub open spec fn entries_insert<W>(es: Seq<(Seq<char>, W)>, k: Seq<char>, v: W) -> Seq<
    (Seq<char>, W),
> {
    if has_key(es, k) {
        let i = choose|i: int| 0 <= i < es.len() && (#[trigger] es[i]).0 == k;
        es.update(i, (k, v))
    } else {
        es.push((k, v))
    }
}

/// A map with text keys whose entries keep the order of first insertion.
pub struct StringMap<V: View> {
    entries: Vec<(String, V)>,
}

/// The entries of `es` as keys and views.
pub open spec fn entries_view<V: View>(es: Seq<(String, V)>) -> Seq<(Seq<char>, V::V)> {
    es.map_values(|e: (String, V)| (e.0@, e.1@))
}

impl<V: View> StringMap<V> {
    /// The entries, in the order of first insertion.
    pub closed spec fn entries(&self) -> Seq<(Seq<char>, V::V)> {
        entries_view(self.entries@)
    }

    #[verifier::type_invariant]
    closed spec fn inv(&self) -> bool {
        keys_unique(self.entries())
    }

    /// An empty map.
    pub fn new() -> (m: Self)
        ensures
            m.entries() == Seq::<(Seq<char>, V::V)>::empty(),
    {
        let m = StringMap { entries: Vec::new() };
        assert(m.entries() =~= Seq::<(Seq<char>, V::V)>::empty());
        m
    }

    /// The number of entries.
    pub fn len(&self) -> (n: usize)
        ensures
            n == self.entries().len(),
            keys_unique(self.entries()),
    {
        proof {
            use_type_invariant(self);
        }
        self.entries.len()
    }

    /// The key of entry `i`.
    pub fn key_at(&self, i: usize) -> (k: &String)
        requires
            i < self.entries().len(),
        ensures
            k@ == self.entries()[i as int].0,
    {
        &self.entries[i].0
    }

    /// The value of entry `i`.
    pub fn value_at(&self, i: usize) -> (v: &V)
        requires
            i < self.entries().len(),
        ensures
            v@ == self.entries()[i as int].1,
    {
        &self.entries[i].1
    }

    /// The position of the entry for `key`, if there is one.
    pub fn find(&self, key: &str) -> (r: Option<usize>)
        ensures
            match r {
                Some(i) => i < self.entries().len() && self.entries()[i as int].0 == key@,
                None => !has_key(self.entries(), key@),
            },
    {
        let mut i: usize = 0;
        while i < self.entries.len()
            invariant
                i <= self.entries@.len(),
                forall|j: int| 0 <= j < i ==> (#[trigger] self.entries()[j]).0 != key@,
            decreases self.entries@.len() - i,
        {
            if same_text(self.entries[i].0.as_str(), key) {
                return Some(i);
            }
            i = i + 1;
        }
        None
    }

    /// Replaces the value of entry `i`.
    pub fn set_value_at(&mut self, i: usize, value: V)
        requires
            i < old(self).entries().len(),
        ensures
            final(self).entries() == old(self).entries().update(
                i as int,
                (old(self).entries()[i as int].0, value@),
            ),
    {
        proof {
            use_type_invariant(&*self);
        }
        let ghost es = self.entries();
        let ghost k = es[i as int].0;
        let key = self.entries[i].0.clone();
        proof {
            lemma_entries_to_map_update(es, i as int, value@);
        }
        let mut list: Vec<(String, V)> = Vec::new();
        std::mem::swap(&mut list, &mut self.entries);
        let ghost vv = value@;
        list.set(i, (key, value));
        assert(entries_view(list@) =~= es.update(i as int, (k, vv)));
        self.entries = list;
    }

    /// Sets the value of `key` to `value`: in place where the key is there,
    /// as a new last entry where it is not.
    pub fn insert(&mut self, key: String, value: V)
        ensures
            has_key(old(self).entries(), key@) ==> exists|i: int|
                0 <= i < old(self).entries().len() && old(self).entries()[i].0 == key@
                    && final(self).entries() == old(self).entries().update(i, (key@, value@)),
            !has_key(old(self).entries(), key@) ==> final(self).entries() == old(
                self,
            ).entries().push((key@, value@)),
            final(self).entries() == entries_insert(old(self).entries(), key@, value@),
            final(self)@ == old(self)@.insert(key@, value@),
    {
        proof {
            use_type_invariant(&*self);
        }
        let ghost es = self.entries();
        match self.find(key.as_str()) {
            Some(i) => {
                proof {
                    lemma_entries_to_map_update(es, i as int, value@);
                }
                let ghost vv = value@;
                self.set_value_at(i, value);
                proof {
                    let j = choose|j: int| 0 <= j < es.len() && (#[trigger] es[j]).0 == key@;
                    assert(es[j].0 == es[i as int].0);
                    assert(j == i);
                }
            },
            None => {
                proof {
                    lemma_entries_to_map_push(es, key@, value@);
                }
                let ghost kv = key@;
                let ghost vv = value@;
                let mut list: Vec<(String, V)> = Vec::new();
                std::mem::swap(&mut list, &mut self.entries);
                list.push((key, value));
                assert(entries_view(list@) =~= es.push((kv, vv)));
                self.entries = list;
            },
        }
    }
}

impl<V: View> View for StringMap<V> {
    type V = Map<Seq<char>, V::V>;

    open spec fn view(&self) -> Map<Seq<char>, V::V> {
        entries_to_map(self.entries())
    }
}

} // verus!
