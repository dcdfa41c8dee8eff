//! A string-keyed map held as a vector of entries with pairwise distinct
//! keys. The link-reference table, the heading slugger and the cache of
//! claimed unique values keep their state in one.

use vstd::prelude::*;

verus! {

/// No key occurs twice among the entries.
pub open spec fn distinct_keys<V>(es: Seq<(String, V)>) -> bool {
    forall|i: int, j: int|
        0 <= i < es.len() && 0 <= j < es.len() && i != j ==> #[trigger] es[i].0@ != #[trigger] es[j].0@
}

pub open spec fn key_at<V>(es: Seq<(String, V)>, k: Seq<char>, i: int) -> bool {
    0 <= i < es.len() && es[i].0@ == k
}

/// The map that a list of entries stands for.
pub open spec fn entries_view<V>(es: Seq<(String, V)>) -> Map<Seq<char>, V> {
    Map::new(
        |k: Seq<char>| exists|i: int| key_at(es, k, i),
        |k: Seq<char>| es[choose|i: int| key_at(es, k, i)].1,
    )
}

proof fn lemma_index<V>(es: Seq<(String, V)>, k: Seq<char>, i: int)
    requires
        distinct_keys(es),
        key_at(es, k, i),
    ensures
        entries_view(es).dom().contains(k),
        entries_view(es)[k] == es[i].1,
{
    let j = choose|j: int| key_at(es, k, j);
    assert(key_at(es, k, j));
    if i != j {
        assert(es[i].0@ != es[j].0@);
    }
}

proof fn lemma_update<V>(es: Seq<(String, V)>, i: int, v: V)
    requires
        distinct_keys(es),
        0 <= i < es.len(),
    ensures
        distinct_keys(es.update(i, (es[i].0, v))),
        entries_view(es.update(i, (es[i].0, v))) == entries_view(es).insert(es[i].0@, v),
{
    let nes = es.update(i, (es[i].0, v));
    assert forall|a: int, b: int|
        0 <= a < nes.len() && 0 <= b < nes.len() && a != b implies #[trigger] nes[a].0@
        != #[trigger] nes[b].0@ by {
        assert(nes[a].0 == es[a].0);
        assert(nes[b].0 == es[b].0);
        assert(es[a].0@ != es[b].0@);
    }
    let k = es[i].0@;
    assert(key_at(nes, k, i));
    lemma_index(nes, k, i);
    assert forall|k2: Seq<char>| #[trigger]
        entries_view(nes).dom().contains(k2) <==> entries_view(es).insert(k, v).dom().contains(
            k2,
        ) by {
        if entries_view(nes).dom().contains(k2) {
            let j = choose|j: int| key_at(nes, k2, j);
            assert(key_at(es, k2, j));
        }
        if entries_view(es).dom().contains(k2) {
            let j = choose|j: int| key_at(es, k2, j);
            assert(key_at(nes, k2, j));
        }
    }
    assert forall|k2: Seq<char>| #[trigger] entries_view(nes).dom().contains(k2) implies entries_view(
        nes,
    )[k2] == entries_view(es).insert(k, v)[k2] by {
        let j = choose|j: int| key_at(nes, k2, j);
        assert(key_at(nes, k2, j));
        lemma_index(nes, k2, j);
        if k2 != k {
            assert(key_at(es, k2, j));
            lemma_index(es, k2, j);
        }
    }
    assert(entries_view(nes) =~= entries_view(es).insert(k, v));
}

proof fn lemma_push<V>(es: Seq<(String, V)>, key: String, v: V)
    requires
        distinct_keys(es),
        !entries_view(es).dom().contains(key@),
    ensures
        distinct_keys(es.push((key, v))),
        entries_view(es.push((key, v))) == entries_view(es).insert(key@, v),
{
    let nes = es.push((key, v));
    assert forall|a: int, b: int|
        0 <= a < nes.len() && 0 <= b < nes.len() && a != b implies #[trigger] nes[a].0@
        != #[trigger] nes[b].0@ by {
        if a == es.len() {
            assert(nes[b] == es[b]);
            assert(key_at(es, es[b].0@, b));
        } else if b == es.len() {
            assert(nes[a] == es[a]);
            assert(key_at(es, es[a].0@, a));
        } else {
            assert(nes[a] == es[a]);
            assert(nes[b] == es[b]);
        }
    }
    let k = key@;
    assert(key_at(nes, k, es.len() as int));
    lemma_index(nes, k, es.len() as int);
    assert forall|k2: Seq<char>| #[trigger]
        entries_view(nes).dom().contains(k2) <==> entries_view(es).insert(k, v).dom().contains(
            k2,
        ) by {
        if entries_view(nes).dom().contains(k2) && k2 != k {
            let j = choose|j: int| key_at(nes, k2, j);
            assert(key_at(es, k2, j));
        }
        if entries_view(es).dom().contains(k2) {
            let j = choose|j: int| key_at(es, k2, j);
            assert(key_at(nes, k2, j));
        }
    }
    assert forall|k2: Seq<char>| #[trigger] entries_view(nes).dom().contains(k2) implies entries_view(
        nes,
    )[k2] == entries_view(es).insert(k, v)[k2] by {
        if k2 != k {
            let j = choose|j: int| key_at(nes, k2, j);
            assert(key_at(nes, k2, j));
            lemma_index(nes, k2, j);
            assert(key_at(es, k2, j));
            lemma_index(es, k2, j);
        }
    }
    assert(entries_view(nes) =~= entries_view(es).insert(k, v));
}

proof fn lemma_len<V>(es: Seq<(String, V)>)
    requires
        distinct_keys(es),
    ensures
        entries_view(es).dom().finite(),
        entries_view(es).dom().len() == es.len(),
{
    let keys = es.map_values(|e: (String, V)| e.0@);
    assert(keys.no_duplicates()) by {
        assert forall|i: int, j: int|
            0 <= i < keys.len() && 0 <= j < keys.len() && i != j implies keys[i] != keys[j] by {
            assert(es[i].0@ != es[j].0@);
        }
    }
    assert(entries_view(es).dom() =~= keys.to_set()) by {
        assert forall|k: Seq<char>| entries_view(es).dom().contains(k) implies keys.to_set().contains(
            k,
        ) by {
            let i = choose|i: int| key_at(es, k, i);
            assert(keys[i] == k);
        }
        assert forall|k: Seq<char>| keys.to_set().contains(k) implies entries_view(
            es,
        ).dom().contains(k) by {
            let i = choose|i: int| 0 <= i < keys.len() && keys[i] == k;
            assert(key_at(es, k, i));
        }
    }
    keys.unique_seq_to_set();
}

/// Entries `(key, value)`; no key occurs twice.
pub struct StrMap<V> {
    entries: Vec<(String, V)>,
}

impl<V> StrMap<V> {
    #[verifier::type_invariant]
    spec fn inv(self) -> bool {
        distinct_keys(self.entries@)
    }

    /// The map that the entries stand for.
    pub closed spec fn view(self) -> Map<Seq<char>, V> {
        entries_view(self.entries@)
    }

    /// An empty map.
    pub fn new() -> (m: Self)
        ensures
            m.view() == Map::<Seq<char>, V>::empty(),
    {
        let m = StrMap { entries: Vec::new() };
        assert(m.view() =~= Map::<Seq<char>, V>::empty());
        m
    }

    /// Number of keys.
    pub fn len(&self) -> (n: usize)
        ensures
            self.view().dom().finite(),
            n == self.view().dom().len(),
    {
        proof {
            use_type_invariant(self);
            lemma_len(self.entries@);
        }
        self.entries.len()
    }

    /// The index of the entry whose key is `key`.
    fn find(&self, key: &String) -> (r: Option<usize>)
        ensures
            r matches Some(i) ==> key_at(self.entries@, key@, i as int),
            r is None ==> !self.view().dom().contains(key@),
    {
        let mut i: usize = 0;
        while i < self.entries.len()
            invariant
                i <= self.entries@.len(),
                forall|j: int| 0 <= j < i ==> self.entries@[j].0@ != key@,
            decreases self.entries@.len() - i,
        {
            if self.entries[i].0 == *key {
                return Some(i);
            }
            i += 1;
        }
        None
    }

    /// Whether `key` is present.
    pub fn contains_key(&self, key: &String) -> (r: bool)
        ensures
            r == self.view().dom().contains(key@),
    {
        proof {
            use_type_invariant(self);
        }
        match self.find(key) {
            Some(i) => {
                proof {
                    lemma_index(self.entries@, key@, i as int);
                }
                true
            },
            None => false,
        }
    }

    /// The value stored under `key`.
    pub fn get(&self, key: &String) -> (r: Option<&V>)
        ensures
            r is Some <==> self.view().dom().contains(key@),
            r matches Some(v) ==> *v == self.view()[key@],
    {
        proof {
            use_type_invariant(self);
        }
        match self.find(key) {
            Some(i) => {
                proof {
                    lemma_index(self.entries@, key@, i as int);
                }
                Some(&self.entries[i].1)
            },
            None => None,
        }
    }

    /// Stores `value` under `key`, replacing any earlier value.
    pub fn set(&mut self, key: String, value: V)
        ensures
            final(self).view() == old(self).view().insert(key@, value),
    {
        proof {
            use_type_invariant(&*self);
        }
        let ghost old_entries = self.entries@;
        let found = self.find(&key);
        let mut entries: Vec<(String, V)> = Vec::new();
        std::mem::swap(&mut entries, &mut self.entries);
        assert(entries@ == old_entries);
        match found {
            Some(i) => {
                let old_pair = entries.remove(i);
                entries.insert(i, (old_pair.0, value));
                proof {
                    assert(entries@ =~= old_entries.update(i as int, (old_entries[i as int].0, value)));
                    lemma_update(old_entries, i as int, value);
                }
            },
            None => {
                proof {
                    lemma_push(old_entries, key, value);
                }
                entries.push((key, value));
            },
        }
        self.entries = entries;
    }
}

} // verus!
