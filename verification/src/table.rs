//! A small map from string keys to values, kept as a vector of distinct keys.

use vstd::prelude::*;

verus! {

/// The keys of `s` are pairwise distinct.
pub open spec fn distinct_keys<V>(s: Seq<(String, V)>) -> bool {
    forall|i: int, j: int| 0 <= i < s.len() && 0 <= j < s.len() && i != j ==> s[i].0@ != s[j].0@
}

/// `k` is the key of some entry of `s`.
pub open spec fn has_key<V>(s: Seq<(String, V)>, k: Seq<char>) -> bool {
    exists|i: int| 0 <= i < s.len() && s[i].0@ == k
}

/// The mapping that the entries `s` describe.
pub open spec fn entries_map<V>(s: Seq<(String, V)>) -> Map<Seq<char>, V> {
    Map::new(
        |k: Seq<char>| has_key(s, k),
        |k: Seq<char>| s[choose|i: int| 0 <= i < s.len() && s[i].0@ == k].1,
    )
}

/// With distinct keys, the entry at `i` is what the map holds for its key.
pub proof fn lemma_entries_map_at<V>(s: Seq<(String, V)>, i: int)
    requires
        distinct_keys(s),
        0 <= i < s.len(),
    ensures
        entries_map(s).contains_key(s[i].0@),
        entries_map(s)[s[i].0@] == s[i].1,
{
    let k = s[i].0@;
    assert(has_key(s, k));
    let j = choose|j: int| 0 <= j < s.len() && s[j].0@ == k;
    assert(j == i);
}

/// A map from strings to values.
pub struct StrMap<V> {
    entries: Vec<(String, V)>,
}

impl<V> View for StrMap<V> {
    type V = Map<Seq<char>, V>;

    closed spec fn view(&self) -> Map<Seq<char>, V> {
        entries_map(self.entries@)
    }
}

impl<V> StrMap<V> {
    #[verifier::type_invariant]
    spec fn keys_distinct(self) -> bool {
        distinct_keys(self.entries@)
    }

    /// An empty map.
    pub fn new() -> (r: Self)
        ensures r@ == Map::<Seq<char>, V>::empty(),
    {
        let r = StrMap { entries: Vec::new() };
        assert(r@ =~= Map::<Seq<char>, V>::empty());
        r
    }

    /// The number of keys.
    pub fn len(&self) -> (r: usize)
        ensures r == self@.dom().len(),
    {
        proof {
            use_type_invariant(self);
            self.lemma_dom_len();
        }
        self.entries.len()
    }

    proof fn lemma_dom_len(&self)
        requires distinct_keys(self.entries@),
        ensures
            self@.dom().finite(),
            self@.dom().len() == self.entries@.len(),
        decreases self.entries@.len(),
    {
        lemma_dom_len_seq(self.entries@);
    }

    fn find(&self, k: &str) -> (r: Option<usize>)
        ensures
            match r {
                Some(i) => i < self.entries@.len() && self.entries@[i as int].0@ == k@,
                None => !has_key(self.entries@, k@),
            },
    {
        let n = self.entries.len();
        let mut i: usize = 0;
        let key = String::from_str(k);
        while i < n
            invariant
                n == self.entries@.len(),
                i <= n,
                key@ == k@,
                forall|j: int| 0 <= j < i ==> self.entries@[j].0@ != k@,
            decreases n - i,
        {
            if self.entries[i].0 == key {
                return Some(i);
            }
            i = i + 1;
        }
        None
    }

    /// The value stored under `k`.
    pub fn get(&self, k: &str) -> (r: Option<&V>)
        ensures
            match r {
                Some(v) => self@.contains_key(k@) && *v == self@[k@],
                None => !self@.contains_key(k@),
            },
    {
        proof { use_type_invariant(self); }
        match self.find(k) {
            Some(i) => {
                proof { lemma_entries_map_at(self.entries@, i as int); }
                Some(&self.entries[i].1)
            },
            None => None,
        }
    }

    /// `k` is a key of the map.
    pub fn contains_key(&self, k: &str) -> (r: bool)
        ensures r == self@.contains_key(k@),
    {
        self.find(k).is_some()
    }

    /// Stores `v` under `k`, replacing what was there.
    pub fn insert(&mut self, k: String, v: V)
        ensures final(self)@ == old(self)@.insert(k@, v),
    {
        proof { use_type_invariant(&*self); }
        let ghost old_entries = self.entries@;
        match self.find(k.as_str()) {
            Some(i) => {
                let mut entries = Vec::new();
                std::mem::swap(&mut entries, &mut self.entries);
                entries.set(i, (k, v));
                let ghost new_entries = entries@;
                assert(new_entries == old_entries.update(i as int, new_entries[i as int]));
                assert(distinct_keys(new_entries));
                proof { lemma_map_after_update(old_entries, i as int, new_entries); }
                self.entries = entries;
            },
            None => {
                let mut entries = Vec::new();
                std::mem::swap(&mut entries, &mut self.entries);
                entries.push((k, v));
                let ghost new_entries = entries@;
                assert(new_entries == old_entries.push(new_entries.last()));
                assert(distinct_keys(new_entries));
                proof { lemma_map_after_push(old_entries, new_entries); }
                self.entries = entries;
            },
        }
    }

    /// Removes `k` and what it held.
    pub fn remove(&mut self, k: &str)
        ensures final(self)@ == old(self)@.remove(k@),
    {
        proof { use_type_invariant(&*self); }
        let ghost old_entries = self.entries@;
        match self.find(k) {
            Some(i) => {
                let mut entries = Vec::new();
                std::mem::swap(&mut entries, &mut self.entries);
                let _ = entries.remove(i);
                let ghost new_entries = entries@;
                assert(new_entries == old_entries.remove(i as int));
                assert(distinct_keys(new_entries)) by {
                    assert forall|a: int, b: int| 0 <= a < new_entries.len() && 0 <= b < new_entries.len() && a != b
                        implies new_entries[a].0@ != new_entries[b].0@ by {
                        let oa = if a < i { a } else { a + 1 };
                        let ob = if b < i { b } else { b + 1 };
                        assert(new_entries[a] == old_entries[oa]);
                        assert(new_entries[b] == old_entries[ob]);
                    }
                }
                proof { lemma_map_after_remove(old_entries, i as int, new_entries); }
                self.entries = entries;
            },
            None => {
                assert(entries_map(old_entries) =~= entries_map(old_entries).remove(k@));
            },
        }
    }

    /// The keys, in storage order.
    pub fn keys(&self) -> (r: Vec<String>)
        ensures
            r@.len() == self@.dom().len(),
            forall|i: int| 0 <= i < r@.len() ==> self@.contains_key(#[trigger] r@[i]@),
            forall|k: Seq<char>| self@.contains_key(k) ==> exists|i: int| 0 <= i < r@.len() && #[trigger] r@[i]@ == k,
            forall|i: int, j: int| 0 <= i < r@.len() && 0 <= j < r@.len() && i != j ==> r@[i]@ != r@[j]@,
    {
        proof {
            use_type_invariant(self);
            self.lemma_dom_len();
        }
        let n = self.entries.len();
        let mut r: Vec<String> = Vec::new();
        let mut i: usize = 0;
        while i < n
            invariant
                n == self.entries@.len(),
                i <= n,
                r@.len() == i,
                forall|j: int| 0 <= j < i ==> #[trigger] r@[j]@ == self.entries@[j].0@,
            decreases n - i,
        {
            r.push(self.entries[i].0.clone());
            i = i + 1;
        }
        proof {
            assert forall|j: int| 0 <= j < r@.len() implies self@.contains_key(#[trigger] r@[j]@) by {
                lemma_entries_map_at(self.entries@, j);
            }
            assert forall|k: Seq<char>| self@.contains_key(k) implies exists|j: int| 0 <= j < r@.len() && #[trigger] r@[j]@ == k by {
                let j = choose|j: int| 0 <= j < self.entries@.len() && self.entries@[j].0@ == k;
                assert(r@[j]@ == k);
            }
        }
        r
    }
}

proof fn lemma_dom_len_seq<V>(s: Seq<(String, V)>)
    requires distinct_keys(s),
    ensures
        entries_map(s).dom().finite(),
        entries_map(s).dom().len() == s.len(),
    decreases s.len(),
{
    if s.len() == 0 {
        assert(entries_map(s).dom() =~= Set::<Seq<char>>::empty());
    } else {
        let t = s.drop_last();
        assert(distinct_keys(t)) by {
            assert forall|a: int, b: int| 0 <= a < t.len() && 0 <= b < t.len() && a != b implies t[a].0@ != t[b].0@ by {
                assert(t[a] == s[a]);
                assert(t[b] == s[b]);
            }
        }
        lemma_dom_len_seq(t);
        let k = s.last().0@;
        assert(!has_key(t, k)) by {
            if has_key(t, k) {
                let j = choose|j: int| 0 <= j < t.len() && t[j].0@ == k;
                assert(s[j].0@ == s[s.len() - 1].0@);
            }
        }
        assert(entries_map(s).dom() =~= entries_map(t).dom().insert(k)) by {
            assert forall|x: Seq<char>| entries_map(s).dom().contains(x) implies entries_map(t).dom().insert(k).contains(x) by {
                let j = choose|j: int| 0 <= j < s.len() && s[j].0@ == x;
                if j < s.len() - 1 {
                    assert(t[j] == s[j]);
                }
            }
            assert forall|x: Seq<char>| entries_map(t).dom().insert(k).contains(x) implies entries_map(s).dom().contains(x) by {
                if x == k {
                    assert(s[s.len() - 1].0@ == x);
                } else {
                    let j = choose|j: int| 0 <= j < t.len() && t[j].0@ == x;
                    assert(s[j] == t[j]);
                }
            }
        }
    }
}

proof fn lemma_map_after_update<V>(old: Seq<(String, V)>, i: int, new: Seq<(String, V)>)
    requires
        distinct_keys(old),
        distinct_keys(new),
        0 <= i < old.len(),
        new.len() == old.len(),
        new[i].0@ == old[i].0@,
        forall|j: int| 0 <= j < old.len() && j != i ==> new[j] == old[j],
    ensures entries_map(new) == entries_map(old).insert(new[i].0@, new[i].1),
{
    let m = entries_map(old).insert(new[i].0@, new[i].1);
    assert forall|k: Seq<char>| entries_map(new).contains_key(k) <==> m.contains_key(k) by {
        if has_key(new, k) {
            let j = choose|j: int| 0 <= j < new.len() && new[j].0@ == k;
            if j != i { assert(old[j] == new[j]); }
        }
        if has_key(old, k) {
            let j = choose|j: int| 0 <= j < old.len() && old[j].0@ == k;
            if j != i { assert(old[j] == new[j]); }
        }
    }
    assert forall|k: Seq<char>| entries_map(new).contains_key(k) implies entries_map(new)[k] == m[k] by {
        let j = choose|j: int| 0 <= j < new.len() && new[j].0@ == k;
        lemma_entries_map_at(new, j);
        if j != i {
            assert(old[j] == new[j]);
            lemma_entries_map_at(old, j);
        }
    }
    assert(entries_map(new) =~= m);
}

proof fn lemma_map_after_push<V>(old: Seq<(String, V)>, new: Seq<(String, V)>)
    requires
        distinct_keys(old),
        distinct_keys(new),
        new.len() == old.len() + 1,
        forall|j: int| 0 <= j < old.len() ==> new[j] == old[j],
    ensures entries_map(new) == entries_map(old).insert(new.last().0@, new.last().1),
{
    let n = old.len() as int;
    let m = entries_map(old).insert(new[n].0@, new[n].1);
    assert forall|k: Seq<char>| entries_map(new).contains_key(k) <==> m.contains_key(k) by {
        if has_key(new, k) {
            let j = choose|j: int| 0 <= j < new.len() && new[j].0@ == k;
            if j != n { assert(old[j] == new[j]); }
        }
        if has_key(old, k) {
            let j = choose|j: int| 0 <= j < old.len() && old[j].0@ == k;
            assert(old[j] == new[j]);
        }
    }
    assert forall|k: Seq<char>| entries_map(new).contains_key(k) implies entries_map(new)[k] == m[k] by {
        let j = choose|j: int| 0 <= j < new.len() && new[j].0@ == k;
        lemma_entries_map_at(new, j);
        if j != n {
            assert(old[j] == new[j]);
            lemma_entries_map_at(old, j);
        }
    }
    assert(entries_map(new) =~= m);
}

proof fn lemma_map_after_remove<V>(old: Seq<(String, V)>, i: int, new: Seq<(String, V)>)
    requires
        distinct_keys(old),
        distinct_keys(new),
        0 <= i < old.len(),
        new == old.remove(i),
    ensures entries_map(new) == entries_map(old).remove(old[i].0@),
{
    let k0 = old[i].0@;
    let m = entries_map(old).remove(k0);
    assert forall|k: Seq<char>| entries_map(new).contains_key(k) <==> m.contains_key(k) by {
        if has_key(new, k) {
            let j = choose|j: int| 0 <= j < new.len() && new[j].0@ == k;
            let oj = if j < i { j } else { j + 1 };
            assert(new[j] == old[oj]);
        }
        if has_key(old, k) && k != k0 {
            let j = choose|j: int| 0 <= j < old.len() && old[j].0@ == k;
            if j < i {
                assert(new[j] == old[j]);
            } else {
                assert(j != i);
                assert(new[j - 1] == old[j]);
            }
        }
    }
    assert forall|k: Seq<char>| entries_map(new).contains_key(k) implies entries_map(new)[k] == m[k] by {
        let j = choose|j: int| 0 <= j < new.len() && new[j].0@ == k;
        let oj = if j < i { j } else { j + 1 };
        assert(new[j] == old[oj]);
        lemma_entries_map_at(new, j);
        lemma_entries_map_at(old, oj);
    }
    assert(entries_map(new) =~= m);
}

} // verus!
