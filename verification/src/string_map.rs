//! A map from strings to strings: the shared state and the read-only
//! configuration that agent steps work on.

use vstd::prelude::*;

verus! {

/// A map from strings to strings, kept as a list of entries with distinct keys.
#[derive(Debug)]
pub struct StringMap {
    entries: Vec<(String, String)>,
}

/// No key occurs twice among the entries.
spec fn keys_distinct(es: Seq<(String, String)>) -> bool {
    forall|i: int, j: int|
        #![trigger es[i], es[j]]
        0 <= i < j < es.len() ==> es[i].0@ != es[j].0@
}

/// Some entry has the key `k`.
spec fn has_key(es: Seq<(String, String)>, k: Seq<char>) -> bool {
    exists|i: int| 0 <= i < es.len() && #[trigger] es[i].0@ == k
}

/// The position of an entry with the key `k`.
spec fn index_of(es: Seq<(String, String)>, k: Seq<char>) -> int {
    choose|i: int| 0 <= i < es.len() && #[trigger] es[i].0@ == k
}

/// The map from the text of each key to the text of its value.
spec fn entries_map(es: Seq<(String, String)>) -> Map<Seq<char>, Seq<char>> {
    Map::new(|k: Seq<char>| has_key(es, k), |k: Seq<char>| es[index_of(es, k)].1@)
}

/// With distinct keys, the entry at `i` is the one `index_of` finds for its key.
proof fn lemma_index_of(es: Seq<(String, String)>, i: int)
    requires
        keys_distinct(es),
        0 <= i < es.len(),
    ensures
        has_key(es, es[i].0@),
        index_of(es, es[i].0@) == i,
{
    let k = es[i].0@;
    assert(es[i].0@ == k);
    let j = index_of(es, k);
    if j < i {
        assert(es[j].0@ != es[i].0@);
    } else if i < j {
        assert(es[i].0@ != es[j].0@);
    }
}

/// Writing the entry `(k, v)` at position `i` (an existing entry with the key
/// `k`, or one past the end for a new key) inserts `k -> v` into the map.
proof fn lemma_write_entry(old_es: Seq<(String, String)>, new_es: Seq<(String, String)>, i: int, k: Seq<char>, v: Seq<char>)
    requires
        keys_distinct(old_es),
        keys_distinct(new_es),
        0 <= i < new_es.len(),
        new_es[i].0@ == k,
        new_es[i].1@ == v,
        i < old_es.len() ==> old_es[i].0@ == k,
        i == old_es.len() ==> !has_key(old_es, k),
        new_es.len() == if i < old_es.len() { old_es.len() } else { old_es.len() + 1 },
        forall|j: int| 0 <= j < old_es.len() && j != i ==> #[trigger] new_es[j] == old_es[j],
    ensures
        entries_map(new_es) == entries_map(old_es).insert(k, v),
{
    let old_map = entries_map(old_es);
    let new_map = entries_map(new_es);
    assert forall|q: Seq<char>| new_map.contains_key(q) <==> old_map.insert(k, v).contains_key(q) by {
        if old_map.contains_key(q) {
            let j = choose|j: int| 0 <= j < old_es.len() && #[trigger] old_es[j].0@ == q;
            if j != i {
                assert(new_es[j].0@ == q);
            }
        }
        if new_map.contains_key(q) && q != k {
            let j = choose|j: int| 0 <= j < new_es.len() && #[trigger] new_es[j].0@ == q;
            assert(old_es[j].0@ == q);
        }
        assert(new_es[i].0@ == k);
    }
    assert forall|q: Seq<char>| #[trigger] new_map.contains_key(q) implies new_map[q] == old_map.insert(k, v)[q] by {
        if q == k {
            lemma_index_of(new_es, i);
        } else {
            let j = choose|j: int| 0 <= j < new_es.len() && #[trigger] new_es[j].0@ == q;
            lemma_index_of(new_es, j);
            assert(old_es[j].0@ == q);
            lemma_index_of(old_es, j);
        }
    }
    assert(new_map =~= old_map.insert(k, v));
}

impl StringMap {
    /// No key occurs twice among the entries.
    #[verifier::type_invariant]
    spec fn wf(self) -> bool {
        keys_distinct(self.entries@)
    }

    /// The map from the text of each key to the text of its value.
    pub closed spec fn view(&self) -> Map<Seq<char>, Seq<char>> {
        entries_map(self.entries@)
    }

    /// An empty map.
    pub fn new() -> (r: Self)
        ensures
            r@ == Map::<Seq<char>, Seq<char>>::empty(),
    {
        let r = StringMap { entries: Vec::new() };
        assert(r@ =~= Map::<Seq<char>, Seq<char>>::empty());
        r
    }

    /// The position of the entry whose key has the text of `key`, if any.
    fn find(&self, key: &str) -> (r: Option<usize>)
        ensures
            match r {
                Some(i) => i < self.entries@.len() && self.entries@[i as int].0@ == key@
                    && has_key(self.entries@, key@) && index_of(self.entries@, key@) == i as int,
                None => !has_key(self.entries@, key@),
            },
    {
        proof {
            use_type_invariant(self);
        }
        let k = key.to_string();
        let mut i: usize = 0;
        while i < self.entries.len()
            invariant
                i <= self.entries@.len(),
                k@ == key@,
                keys_distinct(self.entries@),
                forall|j: int| 0 <= j < i ==> #[trigger] self.entries@[j].0@ != key@,
            decreases self.entries@.len() - i,
        {
            if self.entries[i].0 == k {
                proof {
                    lemma_index_of(self.entries@, i as int);
                }
                return Some(i);
            }
            i = i + 1;
        }
        None
    }

    /// The value stored under `key`, if any.
    pub fn get(&self, key: &str) -> (r: Option<&String>)
        ensures
            match r {
                Some(v) => self@.contains_key(key@) && v@ == self@[key@],
                None => !self@.contains_key(key@),
            },
    {
        match self.find(key) {
            Some(i) => Some(&self.entries[i].1),
            None => None,
        }
    }

    /// Whether some value is stored under `key`.
    pub fn contains_key(&self, key: &str) -> (r: bool)
        ensures
            r == self@.contains_key(key@),
    {
        match self.find(key) {
            Some(_) => true,
            None => false,
        }
    }

    /// Store `value` under `key`, returning the value stored there before, if any.
    pub fn insert(&mut self, key: String, value: String) -> (r: Option<String>)
        ensures
            final(self)@ == old(self)@.insert(key@, value@),
            match r {
                Some(v) => old(self)@.contains_key(key@) && v@ == old(self)@[key@],
                None => !old(self)@.contains_key(key@),
            },
    {
        proof {
            use_type_invariant(&*self);
        }
        let ghost old_es = self.entries@;
        let ghost k = key@;
        let ghost v = value@;
        let found = self.find(key.as_str());
        let mut es: Vec<(String, String)> = Vec::new();
        std::mem::swap(&mut es, &mut self.entries);
        let r = match found {
            Some(i) => {
                let old_value = es[i].1.clone();
                es.set(i, (key, value));
                proof {
                    assert forall|a: int, b: int|
                        #![trigger es@[a], es@[b]]
                        0 <= a < b < es@.len() implies es@[a].0@ != es@[b].0@ by {
                        assert(old_es[a] == es@[a] || a == i);
                        assert(old_es[b] == es@[b] || b == i);
                        assert(old_es[a].0@ != old_es[b].0@);
                    }
                    lemma_write_entry(old_es, es@, i as int, k, v);
                }
                Some(old_value)
            },
            None => {
                es.push((key, value));
                proof {
                    let n = old_es.len() as int;
                    assert forall|a: int, b: int|
                        #![trigger es@[a], es@[b]]
                        0 <= a < b < es@.len() implies es@[a].0@ != es@[b].0@ by {
                        if b == n {
                            assert(old_es[a].0@ == es@[a].0@);
                        } else {
                            assert(old_es[a].0@ != old_es[b].0@);
                        }
                    }
                    lemma_write_entry(old_es, es@, n, k, v);
                }
                None
            },
        };
        self.entries = es;
        r
    }

    /// The stored pairs, each key once, in no particular order.
    pub fn to_pairs(&self) -> (r: Vec<(String, String)>)
        ensures
            forall|i: int| 0 <= i < r@.len() ==> self@.contains_key(#[trigger] r@[i].0@)
                && self@[r@[i].0@] == r@[i].1@,
            forall|k: Seq<char>| self@.contains_key(k) ==> exists|i: int| 0 <= i < r@.len() && #[trigger] r@[i].0@ == k,
            forall|i: int, j: int| #![trigger r@[i], r@[j]] 0 <= i < j < r@.len() ==> r@[i].0@ != r@[j].0@,
    {
        proof {
            use_type_invariant(self);
        }
        let mut es: Vec<(String, String)> = Vec::new();
        let mut i: usize = 0;
        while i < self.entries.len()
            invariant
                i <= self.entries@.len(),
                es@ == self.entries@.take(i as int),
            decreases self.entries@.len() - i,
        {
            let k = self.entries[i].0.clone();
            let v = self.entries[i].1.clone();
            es.push((k, v));
            assert(es@ =~= self.entries@.take(i + 1));
            i = i + 1;
        }
        assert(es@ =~= self.entries@);
        proof {
            assert forall|i: int| 0 <= i < es@.len() implies self@.contains_key(#[trigger] es@[i].0@)
                && self@[es@[i].0@] == es@[i].1@ by {
                lemma_index_of(self.entries@, i);
            }
        }
        es
    }
}

impl Clone for StringMap {
    /// A copy holding the same entries.
    fn clone(&self) -> (r: Self)
        ensures
            r@ == self@,
    {
        proof {
            use_type_invariant(self);
        }
        let mut es: Vec<(String, String)> = Vec::new();
        let mut i: usize = 0;
        while i < self.entries.len()
            invariant
                i <= self.entries@.len(),
                es@ == self.entries@.take(i as int),
            decreases self.entries@.len() - i,
        {
            let k = self.entries[i].0.clone();
            let v = self.entries[i].1.clone();
            es.push((k, v));
            assert(es@ =~= self.entries@.take(i + 1));
            i = i + 1;
        }
        assert(es@ =~= self.entries@);
        StringMap { entries: es }
    }
}

} // verus!
