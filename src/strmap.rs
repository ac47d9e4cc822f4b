//! A map keyed by strings, kept as a list of entries with distinct keys in
//! the order in which they were first inserted.
use vstd::prelude::*;

verus! {

#[derive(Debug)]
pub struct StrMap<V> {
    entries: Vec<(String, V)>,
}

/// The map that a list of entries denotes; a later entry overrides an earlier
/// one with the same key.
pub open spec fn entries_map<V>(s: Seq<(String, V)>) -> Map<Seq<char>, V>
    decreases s.len(),
{
    if s.len() == 0 {
        Map::empty()
    } else {
        entries_map(s.drop_last()).insert(s.last().0@, s.last().1)
    }
}

pub open spec fn entry_keys<V>(s: Seq<(String, V)>) -> Seq<Seq<char>> {
    s.map_values(|e: (String, V)| e.0@)
}

pub open spec fn distinct_keys<V>(s: Seq<(String, V)>) -> bool {
    forall|i: int, j: int| 0 <= i < j < s.len() ==> s[i].0@ != s[j].0@
}

proof fn lemma_entries_index<V>(s: Seq<(String, V)>, i: int)
    requires
        distinct_keys(s),
        0 <= i < s.len(),
    ensures
        entries_map(s).contains_key(s[i].0@),
        entries_map(s)[s[i].0@] == s[i].1,
    decreases s.len(),
{
    if i < s.len() - 1 {
        lemma_entries_index(s.drop_last(), i);
    }
}

proof fn lemma_entries_dom<V>(s: Seq<(String, V)>)
    ensures
        entries_map(s).dom() == entry_keys(s).to_set(),
    decreases s.len(),
{
    if s.len() > 0 {
        lemma_entries_dom(s.drop_last());
        assert(entry_keys(s) =~= entry_keys(s.drop_last()).push(s.last().0@));
        assert(entries_map(s).dom() =~= entry_keys(s).to_set()) by {
            assert forall|k: Seq<char>| entry_keys(s).to_set().contains(k) implies entries_map(
                s,
            ).dom().contains(k) by {
                let j = choose|j: int| 0 <= j < entry_keys(s).len() && entry_keys(s)[j] == k;
                if j < s.len() - 1 {
                    assert(entry_keys(s.drop_last())[j] == k);
                }
            }
            assert forall|k: Seq<char>| entries_map(s).dom().contains(k) implies entry_keys(
                s,
            ).to_set().contains(k) by {
                if k != s.last().0@ {
                    assert(entry_keys(s.drop_last()).to_set().contains(k));
                    let j = choose|j: int|
                        0 <= j < entry_keys(s.drop_last()).len() && entry_keys(s.drop_last())[j]
                            == k;
                    assert(entry_keys(s)[j] == k);
                } else {
                    assert(entry_keys(s)[s.len() - 1] == k);
                }
            }
        }
    }
}

proof fn lemma_entries_update<V>(s: Seq<(String, V)>, i: int, e: (String, V))
    requires
        distinct_keys(s),
        0 <= i < s.len(),
        e.0@ == s[i].0@,
    ensures
        entries_map(s.update(i, e)) == entries_map(s).insert(e.0@, e.1),
    decreases s.len(),
{
    let t = s.update(i, e);
    if i == s.len() - 1 {
        assert(t.drop_last() =~= s.drop_last());
        assert(entries_map(t) =~= entries_map(s).insert(e.0@, e.1));
    } else {
        assert(t.drop_last() =~= s.drop_last().update(i, e));
        lemma_entries_update(s.drop_last(), i, e);
        assert(s[i].0@ != s.last().0@);
        assert(entries_map(t) =~= entries_map(s).insert(e.0@, e.1));
    }
}

impl<V> StrMap<V> {
    #[verifier::type_invariant]
    spec fn keys_distinct(self) -> bool {
        distinct_keys(self.entries@)
    }

    /// The keys, in the order of their first insertion.
    pub closed spec fn keys(&self) -> Seq<Seq<char>> {
        entry_keys(self.entries@)
    }

    pub closed spec fn spec_map(&self) -> Map<Seq<char>, V> {
        entries_map(self.entries@)
    }

    pub fn new() -> (r: Self)
        ensures
            r.spec_map() == Map::<Seq<char>, V>::empty(),
            r.keys() == Seq::<Seq<char>>::empty(),
    {
        let r = StrMap { entries: Vec::new() };
        assert(r.keys() =~= Seq::<Seq<char>>::empty());
        r
    }

    /// The number of keys; every key occurs once, and the keys are the map's
    /// domain.
    pub fn len(&self) -> (r: usize)
        ensures
            r == self.keys().len(),
            self.keys().no_duplicates(),
            self.spec_map().dom() == self.keys().to_set(),
    {
        proof {
            use_type_invariant(self);
            lemma_entries_dom(self.entries@);
        }
        self.entries.len()
    }

    /// The position of key `k`, if present.
    fn position(&self, k: &String) -> (r: Option<usize>)
        ensures
            match r {
                Some(i) => i < self.entries@.len() && self.entries@[i as int].0@ == k@,
                None => forall|i: int| 0 <= i < self.entries@.len() ==> self.entries@[i].0@ != k@,
            },
    {
        let mut i: usize = 0;
        while i < self.entries.len()
            invariant
                i <= self.entries@.len(),
                forall|j: int| 0 <= j < i ==> self.entries@[j].0@ != k@,
            decreases self.entries@.len() - i,
        {
            if self.entries[i].0 == *k {
                return Some(i);
            }
            i += 1;
        }
        None
    }

    pub fn key_at(&self, i: usize) -> (r: &String)
        requires
            i < self.keys().len(),
        ensures
            r@ == self.keys()[i as int],
    {
        &self.entries[i].0
    }

    pub fn value_at(&self, i: usize) -> (r: &V)
        requires
            i < self.keys().len(),
        ensures
            self.spec_map().contains_key(self.keys()[i as int]),
            *r == self.spec_map()[self.keys()[i as int]],
    {
        proof {
            use_type_invariant(self);
            lemma_entries_index(self.entries@, i as int);
        }
        &self.entries[i].1
    }

    pub fn get(&self, k: &str) -> (r: Option<&V>)
        ensures
            match r {
                Some(v) => self.spec_map().contains_key(k@) && *v == self.spec_map()[k@],
                None => !self.spec_map().contains_key(k@),
            },
    {
        let key = k.to_owned();
        match self.position(&key) {
            Some(i) => {
                proof {
                    use_type_invariant(self);
                    lemma_entries_index(self.entries@, i as int);
                }
                Some(&self.entries[i].1)
            },
            None => {
                proof {
                    use_type_invariant(self);
                    lemma_entries_dom(self.entries@);
                    if self.keys().to_set().contains(k@) {
                        let j = choose|j: int|
                            0 <= j < self.keys().len() && self.keys()[j] == k@;
                        assert(self.entries@[j].0@ == k@);
                    }
                }
                None
            },
        }
    }

    pub fn contains_key(&self, k: &str) -> (r: bool)
        ensures
            r == self.spec_map().contains_key(k@),
    {
        self.get(k).is_some()
    }

    /// Sets `k` to `v`; a new key goes after the others.
    pub fn insert(&mut self, k: String, v: V)
        ensures
            final(self).spec_map() == old(self).spec_map().insert(k@, v),
            final(self).keys() == (if old(self).spec_map().contains_key(k@) {
                old(self).keys()
            } else {
                old(self).keys().push(k@)
            }),
    {
        proof {
            use_type_invariant(&*self);
            lemma_entries_dom(self.entries@);
        }
        let ghost k0 = k@;
        let ghost v0 = v;
        match self.position(&k) {
            Some(i) => {
                let ghost s = self.entries@;
                proof {
                    lemma_entries_update(s, i as int, (k, v));
                    assert(entry_keys(s)[i as int] == k0);
                }
                let mut entries = Vec::new();
                std::mem::swap(&mut entries, &mut self.entries);
                entries.set(i, (k, v));
                assert(entry_keys(entries@) =~= entry_keys(s));
                self.entries = entries;
            },
            None => {
                let ghost s = self.entries@;
                proof {
                    if entry_keys(s).to_set().contains(k0) {
                        let j = choose|j: int| 0 <= j < entry_keys(s).len() && entry_keys(s)[j] == k0;
                        assert(s[j].0@ == k0);
                    }
                }
                let mut entries = Vec::new();
                std::mem::swap(&mut entries, &mut self.entries);
                entries.push((k, v));
                assert(entries@.drop_last() =~= s);
                assert(entry_keys(entries@) =~= entry_keys(s).push(k0));
                self.entries = entries;
            },
        }
    }
}

impl<V> View for StrMap<V> {
    type V = Map<Seq<char>, V>;

    open spec fn view(&self) -> Map<Seq<char>, V> {
        self.spec_map()
    }
}

} // verus!
