use vstd::prelude::*;

verus! {

/// No key occurs twice.
pub open spec fn unique_keys<V>(s: Seq<(Seq<char>, V)>) -> bool {
    forall|i: int, j: int|
        0 <= i < s.len() && 0 <= j < s.len() && i != j ==> #[trigger] s[i].0 != #[trigger] s[j].0
}

/// Whether some entry has key `k`.
pub open spec fn has_key<V>(s: Seq<(Seq<char>, V)>, k: Seq<char>) -> bool {
    exists|i: int| 0 <= i < s.len() && #[trigger] s[i].0 == k
}

/// The value stored under `k`, if any (keys are unique in a well-formed map).
pub open spec fn lookup<V>(s: Seq<(Seq<char>, V)>, k: Seq<char>) -> Option<V> {
    if has_key(s, k) {
        Some(s[choose|i: int| 0 <= i < s.len() && #[trigger] s[i].0 == k].1)
    } else {
        None
    }
}

/// A lookup in a map whose keys are unique finds the entry at the key's position.
pub proof fn lemma_lookup_at<V>(s: Seq<(Seq<char>, V)>, i: int)
    requires
        unique_keys(s),
        0 <= i < s.len(),
    ensures
        lookup(s, s[i].0) == Some(s[i].1),
{
    assert(has_key(s, s[i].0));
}

/// The entries after `k` is set to `v`: replaced in place where `k` is
/// present, appended otherwise.
pub open spec fn inserted<V>(s: Seq<(Seq<char>, V)>, k: Seq<char>, v: V) -> Seq<(Seq<char>, V)> {
    if has_key(s, k) {
        s.update(choose|i: int| 0 <= i < s.len() && #[trigger] s[i].0 == k, (k, v))
    } else {
        s.push((k, v))
    }
}

/// After setting `k` to `v`, `k` maps to `v` and every other key keeps its value.
pub proof fn lemma_lookup_inserted<V>(s: Seq<(Seq<char>, V)>, k: Seq<char>, v: V, k2: Seq<char>)
    requires
        unique_keys(s),
    ensures
        unique_keys(inserted(s, k, v)),
        lookup(inserted(s, k, v), k2) == if k2 == k {
            Some(v)
        } else {
            lookup(s, k2)
        },
{
    let t = inserted(s, k, v);
    if has_key(s, k) {
        let i = choose|i: int| 0 <= i < s.len() && #[trigger] s[i].0 == k;
        assert(t == s.update(i, (k, v)));
        assert(forall|j: int| 0 <= j < s.len() && j != i ==> #[trigger] t[j] == s[j]);
        assert(unique_keys(t));
        lemma_lookup_at(t, i);
        if k2 != k && has_key(s, k2) {
            let j = choose|j: int| 0 <= j < s.len() && #[trigger] s[j].0 == k2;
            lemma_lookup_at(s, j);
            lemma_lookup_at(t, j);
        }
        if k2 != k && !has_key(s, k2) {
            if has_key(t, k2) {
                let j = choose|j: int| 0 <= j < t.len() && #[trigger] t[j].0 == k2;
                assert(s[j].0 == k2);
            }
        }
    } else {
        assert(t == s.push((k, v)));
        assert(forall|j: int| 0 <= j < s.len() ==> #[trigger] t[j] == s[j]);
        assert(unique_keys(t));
        lemma_lookup_at(t, s.len() as int);
        if k2 != k && has_key(s, k2) {
            let j = choose|j: int| 0 <= j < s.len() && #[trigger] s[j].0 == k2;
            lemma_lookup_at(s, j);
            lemma_lookup_at(t, j);
        }
        if k2 != k && !has_key(s, k2) {
            if has_key(t, k2) {
                let j = choose|j: int| 0 <= j < t.len() && #[trigger] t[j].0 == k2;
                assert(s[j].0 == k2);
            }
        }
    }
}

/// A map from strings to values that keeps the order in which keys were first
/// inserted; inserting an existing key replaces its value in place.
pub struct StrMap<V> {
    entries: Vec<(String, V)>,
}

impl<V> StrMap<V> {
    /// The entries, in insertion order, with keys as character sequences.
    pub closed spec fn view(&self) -> Seq<(Seq<char>, V)> {
        self.entries@.map_values(|e: (String, V)| (e.0@, e.1))
    }

    pub open spec fn wf(&self) -> bool {
        unique_keys(self@)
    }

    pub fn new() -> (r: Self)
        ensures
            r.wf(),
            r@ == Seq::<(Seq<char>, V)>::empty(),
    {
        StrMap { entries: Vec::new() }
    }

    pub fn len(&self) -> (r: usize)
        ensures
            r == self@.len(),
    {
        self.entries.len()
    }

    /// The position of the entry with key `key`.
    pub fn position(&self, key: &String) -> (r: Option<usize>)
        ensures
            match r {
                Some(i) => i < self@.len() && self@[i as int].0 == key@,
                None => !has_key(self@, key@),
            },
    {
        let mut i: usize = 0;
        while i < self.entries.len()
            invariant
                i <= self.entries@.len(),
                self@.len() == self.entries@.len(),
                forall|j: int| 0 <= j < i ==> #[trigger] self@[j].0 != key@,
            decreases self.entries@.len() - i,
        {
            if self.entries[i].0.eq(key) {
                return Some(i);
            }
            i = i + 1;
        }
        None
    }

    pub fn contains_key(&self, key: &String) -> (r: bool)
        ensures
            r == has_key(self@, key@),
    {
        self.position(key).is_some()
    }

    pub fn get(&self, key: &String) -> (r: Option<&V>)
        requires
            self.wf(),
        ensures
            match r {
                Some(v) => lookup(self@, key@) == Some(*v),
                None => lookup(self@, key@) is None,
            },
    {
        match self.position(key) {
            Some(i) => {
                proof {
                    lemma_lookup_at(self@, i as int);
                }
                Some(&self.entries[i].1)
            },
            None => None,
        }
    }

    pub fn key_at(&self, i: usize) -> (r: &String)
        requires
            i < self@.len(),
        ensures
            r@ == self@[i as int].0,
    {
        &self.entries[i].0
    }

    pub fn value_at(&self, i: usize) -> (r: &V)
        requires
            i < self@.len(),
        ensures
            *r == self@[i as int].1,
    {
        &self.entries[i].1
    }

    pub fn insert(&mut self, key: String, value: V)
        requires
            old(self).wf(),
        ensures
            final(self).wf(),
            final(self)@ == inserted(old(self)@, key@, value),
    {
        match self.position(&key) {
            Some(i) => {
                proof {
                    let s = self@;
                    let j = choose|j: int| 0 <= j < s.len() && #[trigger] s[j].0 == key@;
                    assert(s[j].0 == key@);
                    assert(i as int == j);
                }
                self.entries.set(i, (key, value));
                proof {
                    assert(self@ =~= inserted(old(self)@, key@, value));
                }
            },
            None => {
                self.entries.push((key, value));
                proof {
                    assert(self@ =~= inserted(old(self)@, key@, value));
                }
            },
        }
    }


}

} // verus!
