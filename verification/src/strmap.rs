//! A map keyed by strings, kept as a vector of entries in insertion order.
//!
//! Its view is a `Map<Seq<char>, V>`; the invariant is that no key occurs
//! twice among the entries.

use vstd::prelude::*;

verus! {

/// The map that a list of entries denotes, later entries overriding earlier.
pub open spec fn entries_map<V>(e: Seq<(String, V)>) -> Map<Seq<char>, V>
    decreases e.len(),
{
    if e.len() == 0 {
        Map::empty()
    } else {
        entries_map(e.drop_last()).insert(e.last().0@, e.last().1)
    }
}

/// No key occurs twice.
pub open spec fn keys_distinct<V>(e: Seq<(String, V)>) -> bool {
    forall|i: int, j: int| 0 <= i < j < e.len() ==> e[i].0@ != e[j].0@
}

/// A key is in the map exactly when some entry holds it, with that entry's value.
pub proof fn lemma_entries_map<V>(e: Seq<(String, V)>)
    requires
        keys_distinct(e),
    ensures
        forall|k: Seq<char>|
            #[trigger] entries_map(e).dom().contains(k) <==> exists|i: int|
                0 <= i < e.len() && e[i].0@ == k,
        forall|i: int| 0 <= i < e.len() ==> #[trigger] entries_map(e)[e[i].0@] == e[i].1,
        entries_map(e).dom().finite(),
        entries_map(e).dom().len() == e.len(),
    decreases e.len(),
{
    if e.len() > 0 {
        let p = e.drop_last();
        assert(keys_distinct(p));
        lemma_entries_map(p);
        assert forall|k: Seq<char>|
            #[trigger] entries_map(e).dom().contains(k) <==> exists|i: int|
                0 <= i < e.len() && e[i].0@ == k by {
            if entries_map(e).dom().contains(k) {
                if k == e.last().0@ {
                    assert(e[e.len() - 1].0@ == k);
                } else {
                    let i = choose|i: int| 0 <= i < p.len() && p[i].0@ == k;
                    assert(e[i].0@ == k);
                }
            }
            if exists|i: int| 0 <= i < e.len() && e[i].0@ == k {
                let i = choose|i: int| 0 <= i < e.len() && e[i].0@ == k;
                if i < e.len() - 1 {
                    assert(p[i].0@ == k);
                }
            }
        }
        assert forall|i: int| 0 <= i < e.len() implies #[trigger] entries_map(e)[e[i].0@]
            == e[i].1 by {
            if i < e.len() - 1 {
                assert(p[i] == e[i]);
                assert(e[i].0@ != e.last().0@);
            }
        }
        assert(!entries_map(p).dom().contains(e.last().0@)) by {
            if entries_map(p).dom().contains(e.last().0@) {
                let i = choose|i: int| 0 <= i < p.len() && p[i].0@ == e.last().0@;
                assert(e[i].0@ == e[e.len() - 1].0@);
            }
        }
    }
}

/// A map keyed by strings.
#[derive(Debug, Clone)]
pub struct StrMap<V> {
    entries: Vec<(String, V)>,
}

impl<V> StrMap<V> {
    /// The map denoted.
    pub closed spec fn view(&self) -> Map<Seq<char>, V> {
        entries_map(self.entries@)
    }

    /// The entries in insertion order.
    pub closed spec fn entries(&self) -> Seq<(String, V)> {
        self.entries@
    }

    /// Well formed: no key twice.
    pub closed spec fn wf(&self) -> bool {
        keys_distinct(self.entries@)
    }

    /// What the view and the entry list have to do with each other.
    pub proof fn lemma_view(&self)
        requires
            self.wf(),
        ensures
            forall|k: Seq<char>|
                #[trigger] self.view().dom().contains(k) <==> exists|i: int|
                    0 <= i < self.entries().len() && self.entries()[i].0@ == k,
            forall|i: int|
                0 <= i < self.entries().len() ==> #[trigger] self.view()[self.entries()[i].0@]
                    == self.entries()[i].1,
            self.view().dom().finite(),
            self.view().dom().len() == self.entries().len(),
    {
        lemma_entries_map(self.entries@);
        assert forall|k: Seq<char>|
            #[trigger] self.view().dom().contains(k) <==> exists|i: int|
                0 <= i < self.entries().len() && self.entries()[i].0@ == k by {
            if self.view().dom().contains(k) {
                let i = choose|i: int| 0 <= i < self.entries@.len() && self.entries@[i].0@ == k;
                assert(self.entries()[i].0@ == k);
            }
            if exists|i: int| 0 <= i < self.entries().len() && self.entries()[i].0@ == k {
                let i = choose|i: int| 0 <= i < self.entries().len() && self.entries()[i].0@ == k;
                assert(self.entries@[i].0@ == k);
            }
        }
    }

    /// No key occurs twice among the entries.
    pub proof fn lemma_keys_distinct(&self)
        requires
            self.wf(),
        ensures
            forall|i: int, j: int|
                0 <= i < j < self.entries().len() ==> #[trigger] self.entries()[i].0@
                    != #[trigger] self.entries()[j].0@,
    {
    }

    /// An empty map.
    pub fn new() -> (m: Self)
        ensures
            m.wf(),
            m.view() == Map::<Seq<char>, V>::empty(),
            m.entries().len() == 0,
    {
        StrMap { entries: Vec::new() }
    }

    /// The map of a list of key-value pairs, later pairs overriding earlier
    /// ones.
    pub fn from_pairs(pairs: Vec<(String, V)>) -> (m: Self)
        ensures
            m.wf(),
            m.view() == entries_map(pairs@),
    {
        let ghost all = pairs@;
        let n = pairs.len();
        let mut m = StrMap::new();
        let mut rest = pairs;
        let mut k: usize = 0;
        while rest.len() > 0
            invariant
                m.wf(),
                k + rest@.len() == all.len(),
                all.len() == n,
                rest@ == all.skip(k as int),
                m.view() == entries_map(all.take(k as int)),
            decreases rest.len(),
        {
            let (key, v) = rest.remove(0);
            assert(all.take(k + 1).drop_last() =~= all.take(k as int));
            m.insert(key, v);
            assert(rest@ =~= all.skip(k + 1));
            k += 1;
        }
        assert(all.take(k as int) =~= all);
        m
    }

    /// Number of entries in the entry list.
    pub fn entry_count(&self) -> (n: usize)
        ensures
            n == self.entries().len(),
    {
        self.entries.len()
    }

    /// Number of entries.
    pub fn len(&self) -> (n: usize)
        requires
            self.wf(),
        ensures
            n == self.view().dom().len(),
            n == self.entries().len(),
    {
        proof {
            lemma_entries_map(self.entries@);
        }
        self.entries.len()
    }

    /// Whether the map is empty.
    pub fn is_empty(&self) -> (b: bool)
        requires
            self.wf(),
        ensures
            b == (self.view().dom().len() == 0),
    {
        proof {
            lemma_entries_map(self.entries@);
        }
        self.entries.len() == 0
    }

    /// Position of a key among the entries.
    pub fn index_of(&self, key: &str) -> (r: Option<usize>)
        requires
            self.wf(),
        ensures
            match r {
                Some(i) => i < self.entries().len() && self.entries()[i as int].0@ == key@,
                None => !self.view().dom().contains(key@),
            },
    {
        proof {
            lemma_entries_map(self.entries@);
        }
        let mut i: usize = 0;
        while i < self.entries.len()
            invariant
                i <= self.entries@.len(),
                forall|j: int| 0 <= j < i ==> self.entries@[j].0@ != key@,
            decreases self.entries.len() - i,
        {
            if crate::text::str_eq(self.entries[i].0.as_str(), key) {
                return Some(i);
            }
            i += 1;
        }
        None
    }

    /// The value at a key.
    pub fn get(&self, key: &str) -> (r: Option<&V>)
        requires
            self.wf(),
        ensures
            match r {
                Some(v) => self.view().dom().contains(key@) && self.view()[key@] == *v,
                None => !self.view().dom().contains(key@),
            },
    {
        proof {
            lemma_entries_map(self.entries@);
        }
        match self.index_of(key) {
            Some(i) => Some(&self.entries[i].1),
            None => None,
        }
    }

    /// Whether a key is present.
    pub fn contains_key(&self, key: &str) -> (b: bool)
        requires
            self.wf(),
        ensures
            b == self.view().dom().contains(key@),
    {
        proof {
            lemma_entries_map(self.entries@);
        }
        self.index_of(key).is_some()
    }

    /// Sets the value at a key; a new key goes to the end of the entries.
    pub fn insert(&mut self, key: String, value: V)
        requires
            old(self).wf(),
        ensures
            final(self).wf(),
            final(self).view() == old(self).view().insert(key@, value),
            !old(self).view().dom().contains(key@) ==> final(self).entries() == old(
                self,
            ).entries().push((key, value)),
            old(self).view().dom().contains(key@) ==> exists|i: int|
                0 <= i < old(self).entries().len() && old(self).entries()[i].0@ == key@
                    && final(self).entries() == old(self).entries().update(i, (key, value)),
    {
        proof {
            lemma_entries_map(self.entries@);
        }
        match self.index_of(key.as_str()) {
            Some(i) => {
                let ghost old_e = self.entries@;
                self.entries.set(i, (key, value));
                proof {
                    let e = self.entries@;
                    assert(keys_distinct(e)) by {
                        assert forall|a: int, b: int| 0 <= a < b < e.len() implies e[a].0@
                            != e[b].0@ by {
                            assert(e[a].0@ == old_e[a].0@);
                            assert(e[b].0@ == old_e[b].0@);
                        }
                    }
                    lemma_entries_map(e);
                    assert forall|k: Seq<char>| #[trigger]
                        old(self).view().insert(key@, value).dom().contains(k) implies self.view().dom().contains(k) by {
                        if k == key@ {
                            assert(e[i as int].0@ == k);
                        }
                        if k != key@ && old(self).view().dom().contains(k) {
                            let j = choose|j: int| 0 <= j < old_e.len() && old_e[j].0@ == k;
                            assert(e[j].0@ == k);
                        }
                    }
                    assert forall|k: Seq<char>| #[trigger]
                        self.view().dom().contains(k) implies old(self).view().insert(
                            key@,
                            value,
                        ).dom().contains(k) && self.view()[k] == old(self).view().insert(
                            key@,
                            value,
                        )[k] by {
                        let j = choose|j: int| 0 <= j < e.len() && e[j].0@ == k;
                        if j != i {
                            assert(old_e[j] == e[j]);
                        }
                    }
                    assert(self.view() =~= old(self).view().insert(key@, value));
                }
            },
            None => {
                let ghost old_e = self.entries@;
                self.entries.push((key, value));
                proof {
                    let e = self.entries@;
                    assert(e.drop_last() =~= old_e);
                    assert(keys_distinct(e)) by {
                        assert forall|a: int, b: int| 0 <= a < b < e.len() implies e[a].0@
                            != e[b].0@ by {
                            if b == e.len() - 1 {
                                assert(old(self).view().dom().contains(old_e[a].0@));
                            } else {
                                assert(e[a] == old_e[a] && e[b] == old_e[b]);
                            }
                        }
                    }
                }
            },
        }
    }

    /// Removes a key, keeping the order of the other entries.
    pub fn remove(&mut self, key: &str) -> (r: Option<V>)
        requires
            old(self).wf(),
        ensures
            final(self).wf(),
            final(self).view() == old(self).view().remove(key@),
            r is Some <==> old(self).view().dom().contains(key@),
            r matches Some(v) ==> v == old(self).view()[key@],
            r is None ==> final(self).entries() == old(self).entries(),
            r is Some ==> exists|i: int|
                0 <= i < old(self).entries().len() && old(self).entries()[i].0@ == key@
                    && final(self).entries() == old(self).entries().remove(i),
    {
        proof {
            lemma_entries_map(self.entries@);
        }
        match self.index_of(key) {
            Some(i) => {
                let ghost old_e = self.entries@;
                let (_, v) = self.entries.remove(i);
                proof {
                    let e = self.entries@;
                    assert(e =~= old_e.remove(i as int));
                    assert(keys_distinct(e)) by {
                        assert forall|a: int, b: int| 0 <= a < b < e.len() implies e[a].0@
                            != e[b].0@ by {
                            let a2 = if a < i { a } else { a + 1 };
                            let b2 = if b < i { b } else { b + 1 };
                            assert(e[a] == old_e[a2]);
                            assert(e[b] == old_e[b2]);
                        }
                    }
                    lemma_entries_map(e);
                    assert forall|k: Seq<char>|
                        #[trigger] self.view().dom().contains(k) == old(self).view().remove(
                            key@,
                        ).dom().contains(k) by {
                        if self.view().dom().contains(k) {
                            let j = choose|j: int| 0 <= j < e.len() && e[j].0@ == k;
                            let j2 = if j < i { j } else { j + 1 };
                            assert(old_e[j2] == e[j]);
                            assert(j2 != i);
                        }
                        if old(self).view().remove(key@).dom().contains(k) {
                            let j = choose|j: int| 0 <= j < old_e.len() && old_e[j].0@ == k;
                            assert(j != i);
                            let j2 = if j < i { j } else { j - 1 };
                            assert(e[j2] == old_e[j]);
                        }
                    }
                    assert forall|k: Seq<char>| #[trigger]
                        self.view().dom().contains(k) implies self.view()[k] == old(
                            self,
                        ).view()[k] by {
                        let j = choose|j: int| 0 <= j < e.len() && e[j].0@ == k;
                        let j2 = if j < i { j } else { j + 1 };
                        assert(old_e[j2] == e[j]);
                    }
                    assert(self.view() =~= old(self).view().remove(key@));
                }
                Some(v)
            },
            None => {
                assert(old(self).view().remove(key@) =~= old(self).view());
                None
            },
        }
    }

    /// Takes the entry at a position out, keeping the order of the others.
    pub fn take_at(&mut self, i: usize) -> (r: (String, V))
        requires
            old(self).wf(),
            i < old(self).entries().len(),
        ensures
            final(self).wf(),
            r == old(self).entries()[i as int],
            final(self).entries() == old(self).entries().remove(i as int),
            final(self).view() == old(self).view().remove(r.0@),
    {
        let ghost old_e = self.entries@;
        let r = self.entries.remove(i);
        proof {
            let e = self.entries@;
            assert(e =~= old_e.remove(i as int));
            assert(keys_distinct(e)) by {
                assert forall|a: int, b: int| 0 <= a < b < e.len() implies e[a].0@ != e[b].0@ by {
                    let a2 = if a < i { a } else { a + 1 };
                    let b2 = if b < i { b } else { b + 1 };
                    assert(e[a] == old_e[a2]);
                    assert(e[b] == old_e[b2]);
                }
            }
            lemma_entries_map(e);
            lemma_entries_map(old_e);
            let k = r.0@;
            assert forall|x: Seq<char>|
                #[trigger] self.view().dom().contains(x) == old(self).view().remove(k).dom().contains(x) by {
                if self.view().dom().contains(x) {
                    let j = choose|j: int| 0 <= j < e.len() && e[j].0@ == x;
                    let j2 = if j < i { j } else { j + 1 };
                    assert(old_e[j2] == e[j]);
                    assert(j2 != i);
                }
                if old(self).view().remove(k).dom().contains(x) {
                    let j = choose|j: int| 0 <= j < old_e.len() && old_e[j].0@ == x;
                    assert(j != i);
                    let j2 = if j < i { j } else { j - 1 };
                    assert(e[j2] == old_e[j]);
                }
            }
            assert forall|x: Seq<char>| #[trigger]
                self.view().dom().contains(x) implies self.view()[x] == old(self).view()[x] by {
                let j = choose|j: int| 0 <= j < e.len() && e[j].0@ == x;
                let j2 = if j < i { j } else { j + 1 };
                assert(old_e[j2] == e[j]);
            }
            assert(self.view() =~= old(self).view().remove(k));
        }
        r
    }

    /// Puts an entry with a new key at a position.
    pub fn put_at(&mut self, i: usize, key: String, value: V)
        requires
            old(self).wf(),
            i <= old(self).entries().len(),
            !old(self).view().dom().contains(key@),
        ensures
            final(self).wf(),
            final(self).entries() == old(self).entries().insert(i as int, (key, value)),
            final(self).view() == old(self).view().insert(key@, value),
    {
        let ghost old_e = self.entries@;
        let ghost k = key@;
        proof {
            lemma_entries_map(old_e);
        }
        self.entries.insert(i, (key, value));
        proof {
            let e = self.entries@;
            assert(e[i as int].0@ == k);
            assert(forall|a: int| 0 <= a < i ==> e[a] == old_e[a]);
            assert(forall|a: int| i < a < e.len() ==> e[a] == old_e[a - 1]);
            assert(forall|a: int| 0 <= a < old_e.len() ==> old_e[a].0@ != k) by {
                assert forall|a: int| 0 <= a < old_e.len() implies old_e[a].0@ != k by {
                    if old_e[a].0@ == k {
                        assert(old(self).view().dom().contains(old_e[a].0@));
                    }
                }
            }
            assert(keys_distinct(e)) by {
                assert forall|a: int, b: int| 0 <= a < b < e.len() implies e[a].0@ != e[b].0@ by {
                    if a == i {
                        assert(e[b] == old_e[b - 1]);
                    } else if b == i {
                        assert(e[a] == old_e[a]);
                    } else {
                        let a2 = if a < i { a } else { a - 1 };
                        let b2 = if b < i { b } else { b - 1 };
                        assert(e[a] == old_e[a2]);
                        assert(e[b] == old_e[b2]);
                    }
                }
            }
            lemma_entries_map(e);
            assert forall|x: Seq<char>|
                #[trigger] self.view().dom().contains(x) == old(self).view().insert(k, value).dom().contains(x) by {
                if self.view().dom().contains(x) && x != k {
                    let j = choose|j: int| 0 <= j < e.len() && e[j].0@ == x;
                    assert(j != i);
                    let j2 = if j < i { j } else { j - 1 };
                    assert(old_e[j2] == e[j]);
                }
                if x == k {
                    assert(e[i as int].0@ == x);
                } else if old(self).view().dom().contains(x) {
                    let j = choose|j: int| 0 <= j < old_e.len() && old_e[j].0@ == x;
                    let j2 = if j < i { j } else { j + 1 };
                    assert(e[j2] == old_e[j]);
                }
            }
            assert forall|x: Seq<char>| #[trigger]
                self.view().dom().contains(x) implies self.view()[x] == old(self).view().insert(k, value)[x] by {
                let j = choose|j: int| 0 <= j < e.len() && e[j].0@ == x;
                if j == i {
                } else {
                    let j2 = if j < i { j } else { j - 1 };
                    assert(old_e[j2] == e[j]);
                }
            }
            assert(self.view() =~= old(self).view().insert(k, value));
        }
    }

    /// Key and value of the entry at a position.
    pub fn entry_at(&self, i: usize) -> (r: (&String, &V))
        requires
            i < self.entries().len(),
        ensures
            *r.0 == self.entries()[i as int].0,
            *r.1 == self.entries()[i as int].1,
    {
        (&self.entries[i].0, &self.entries[i].1)
    }

    /// Removes every entry.
    pub fn clear(&mut self)
        ensures
            final(self).wf(),
            final(self).view() == Map::<Seq<char>, V>::empty(),
            final(self).entries().len() == 0,
    {
        self.entries = Vec::new();
    }
}


impl StrMap<String> {
    /// A copy of the map, entry for entry.
    pub fn duplicate(&self) -> (r: Self)
        ensures
            r.entries() == self.entries(),
            r.wf() == self.wf(),
            r.view() == self.view(),
    {
        let mut out: Vec<(String, String)> = Vec::new();
        let mut i: usize = 0;
        while i < self.entries.len()
            invariant
                i <= self.entries@.len(),
                out@ == self.entries@.take(i as int),
            decreases self.entries.len() - i,
        {
            let k = self.entries[i].0.clone();
            let v = self.entries[i].1.clone();
            out.push((k, v));
            assert(out@ =~= self.entries@.take(i + 1));
            i += 1;
        }
        assert(out@ =~= self.entries@);
        StrMap { entries: out }
    }
}

} // verus!
