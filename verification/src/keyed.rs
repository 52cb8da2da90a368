//! A text-keyed map that keeps its entries in insertion order, with at most
//! one entry per key. It models the documents, nodes, stages, variables and
//! components that the server indexes.

use vstd::prelude::*;
use crate::text::same_text;

verus! {

/// No key occurs twice in `s`.
pub open spec fn keys_distinct<V>(s: Seq<(Seq<char>, V)>) -> bool {
    forall|i: int, j: int|
        0 <= i < s.len() && 0 <= j < s.len() && i != j ==> #[trigger] s[i].0 != #[trigger] s[j].0
}

/// Some entry of `s` has key `k`.
pub open spec fn has_key<V>(s: Seq<(Seq<char>, V)>, k: Seq<char>) -> bool {
    exists|i: int| 0 <= i < s.len() && #[trigger] s[i].0 == k
}

/// The position of the entry with key `k` (meaningful when there is one).
pub open spec fn key_index<V>(s: Seq<(Seq<char>, V)>, k: Seq<char>) -> int {
    choose|i: int| 0 <= i < s.len() && #[trigger] s[i].0 == k
}

/// The value stored under `k`, if any.
pub open spec fn lookup<V>(s: Seq<(Seq<char>, V)>, k: Seq<char>) -> Option<V> {
    if has_key(s, k) {
        Some(s[key_index(s, k)].1)
    } else {
        None
    }
}

/// `s` after storing `v` under `k`: an existing entry keeps its place and
/// takes the new value, a new key goes to the end.
pub open spec fn inserted<V>(s: Seq<(Seq<char>, V)>, k: Seq<char>, v: V) -> Seq<(Seq<char>, V)> {
    if has_key(s, k) {
        s.update(key_index(s, k), (k, v))
    } else {
        s.push((k, v))
    }
}

/// With distinct keys, the entry at `i` is the one that `lookup` finds.
pub proof fn lemma_lookup_at<V>(s: Seq<(Seq<char>, V)>, i: int)
    requires
        keys_distinct(s),
        0 <= i < s.len(),
    ensures
        has_key(s, s[i].0),
        key_index(s, s[i].0) == i,
        lookup(s, s[i].0) == Some(s[i].1),
{
    assert(has_key(s, s[i].0));
    let j = key_index(s, s[i].0);
    assert(s[j].0 == s[i].0);
}

/// Storing under a key keeps the keys distinct.
pub proof fn lemma_inserted_distinct<V>(s: Seq<(Seq<char>, V)>, k: Seq<char>, v: V)
    requires
        keys_distinct(s),
    ensures
        keys_distinct(inserted(s, k, v)),
        inserted(s, k, v).len() == if has_key(s, k) { s.len() } else { s.len() + 1 },
{
    let t = inserted(s, k, v);
    if has_key(s, k) {
        let p = key_index(s, k);
        assert forall|i: int, j: int|
            0 <= i < t.len() && 0 <= j < t.len() && i != j implies #[trigger] t[i].0 != #[trigger] t[j].0 by {
            if i == p {
                assert(t[i].0 == s[p].0);
            }
            if j == p {
                assert(t[j].0 == s[p].0);
            }
        }
    } else {
        assert forall|i: int, j: int|
            0 <= i < t.len() && 0 <= j < t.len() && i != j implies #[trigger] t[i].0 != #[trigger] t[j].0 by {
            if i == s.len() {
                assert(t[j].0 == s[j].0);
            } else if j == s.len() {
                assert(t[i].0 == s[i].0);
            }
        }
    }
}

/// What was just stored under a key is what a lookup of that key gives back,
/// and the other keys keep their values.
pub proof fn lemma_lookup_inserted<V>(s: Seq<(Seq<char>, V)>, k: Seq<char>, v: V, other: Seq<char>)
    requires
        keys_distinct(s),
    ensures
        lookup(inserted(s, k, v), k) == Some(v),
        other != k ==> lookup(inserted(s, k, v), other) == lookup(s, other),
{
    let t = inserted(s, k, v);
    lemma_inserted_distinct(s, k, v);
    let p = if has_key(s, k) { key_index(s, k) } else { s.len() as int };
    assert(t[p].0 == k && t[p].1 == v);
    lemma_lookup_at(t, p);
    if other != k {
        if has_key(s, other) {
            let q = key_index(s, other);
            assert(t[q] == s[q]);
            lemma_lookup_at(t, q);
        } else {
            if has_key(t, other) {
                let q = key_index(t, other);
                assert(q != p);
                assert(s[q].0 == other);
            }
        }
    }
}

/// `s` with `f` applied to every value; keys and order stay.
pub open spec fn mapped<V, W>(s: Seq<(Seq<char>, V)>, f: spec_fn(V) -> W) -> Seq<(Seq<char>, W)> {
    s.map_values(|e: (Seq<char>, V)| (e.0, f(e.1)))
}

/// The entries of a text-valued map, each value taken as its characters.
pub open spec fn text_view(s: Seq<(Seq<char>, String)>) -> Seq<(Seq<char>, Seq<char>)> {
    mapped(s, |v: String| v@)
}

/// Mapping the values keeps the keys, so it keeps them distinct and keeps
/// what a lookup finds.
pub proof fn lemma_mapped_distinct<V, W>(s: Seq<(Seq<char>, V)>, f: spec_fn(V) -> W, k: Seq<char>)
    requires
        keys_distinct(s),
    ensures
        keys_distinct(mapped(s, f)),
        has_key(mapped(s, f), k) == has_key(s, k),
        lookup(mapped(s, f), k) == match lookup(s, k) {
            Some(x) => Some(f(x)),
            None => None::<W>,
        },
{
    let t = mapped(s, f);
    assert forall|i: int, j: int|
        0 <= i < t.len() && 0 <= j < t.len() && i != j implies #[trigger] t[i].0 != #[trigger] t[j].0 by {
        assert(t[i].0 == s[i].0 && t[j].0 == s[j].0);
    }
    if has_key(s, k) {
        let p = key_index(s, k);
        assert(t[p].0 == k);
        lemma_lookup_at(t, p);
        lemma_lookup_at(s, p);
    } else {
        if has_key(t, k) {
            let q = key_index(t, k);
            assert(s[q].0 == k);
        }
    }
}

/// Mapping the values commutes with storing under a key.
pub proof fn lemma_mapped_inserted<V, W>(s: Seq<(Seq<char>, V)>, k: Seq<char>, v: V, f: spec_fn(V) -> W)
    requires
        keys_distinct(s),
    ensures
        keys_distinct(mapped(s, f)),
        has_key(mapped(s, f), k) == has_key(s, k),
        mapped(inserted(s, k, v), f) == inserted(mapped(s, f), k, f(v)),
        lookup(mapped(s, f), k) == match lookup(s, k) {
            Some(x) => Some(f(x)),
            None => None::<W>,
        },
{
    let t = mapped(s, f);
    lemma_mapped_distinct(s, f, k);
    if has_key(s, k) {
        let p = key_index(s, k);
        assert(t[p].0 == k);
        lemma_lookup_at(t, p);
        lemma_lookup_at(s, p);
    }
    assert(mapped(inserted(s, k, v), f) =~= inserted(t, k, f(v)));
}

/// Text-keyed map in insertion order.
pub struct KeyedList<V> {
    entries: Vec<(String, V)>,
}

impl<V> View for KeyedList<V> {
    type V = Seq<(Seq<char>, V)>;

    closed spec fn view(&self) -> Seq<(Seq<char>, V)> {
        self.entries@.map_values(|e: (String, V)| (e.0@, e.1))
    }
}

impl<V> KeyedList<V> {
    /// At most one entry per key.
    pub open spec fn wf(&self) -> bool {
        keys_distinct(self@)
    }

    /// An empty map.
    pub fn new() -> (r: Self)
        ensures
            r@ == Seq::<(Seq<char>, V)>::empty(),
            r.wf(),
    {
        let r = KeyedList { entries: Vec::new() };
        assert(r@ =~= Seq::<(Seq<char>, V)>::empty());
        r
    }

    /// Number of entries.
    pub fn len(&self) -> (n: usize)
        ensures
            n == self@.len(),
    {
        self.entries.len()
    }

    /// Key of the entry at `i`.
    pub fn key_at(&self, i: usize) -> (k: &String)
        requires
            i < self@.len(),
        ensures
            k@ == self@[i as int].0,
    {
        &self.entries[i].0
    }

    /// Value of the entry at `i`.
    pub fn value_at(&self, i: usize) -> (v: &V)
        requires
            i < self@.len(),
        ensures
            *v == self@[i as int].1,
    {
        &self.entries[i].1
    }

    /// Position of the entry with key `key`.
    pub fn find(&self, key: &str) -> (r: Option<usize>)
        requires
            self.wf(),
        ensures
            match r {
                Some(i) => i < self@.len() && self@[i as int].0 == key@ && key_index(self@, key@) == i,
                None => !has_key(self@, key@),
            },
    {
        let n = self.entries.len();
        let mut i: usize = 0;
        while i < n
            invariant
                n == self@.len(),
                i <= n,
                self.wf(),
                forall|j: int| 0 <= j < i ==> #[trigger] self@[j].0 != key@,
            decreases n - i,
        {
            if same_text(self.entries[i].0.as_str(), key) {
                proof {
                    lemma_lookup_at(self@, i as int);
                }
                return Some(i);
            }
            i = i + 1;
        }
        None
    }

    /// Whether some entry has key `key`.
    pub fn contains_key(&self, key: &str) -> (r: bool)
        requires
            self.wf(),
        ensures
            r == has_key(self@, key@),
    {
        self.find(key).is_some()
    }

    /// The value stored under `key`.
    pub fn get(&self, key: &str) -> (r: Option<&V>)
        requires
            self.wf(),
        ensures
            match r {
                Some(v) => lookup(self@, key@) == Some(*v),
                None => lookup(self@, key@) == None::<V>,
            },
    {
        match self.find(key) {
            Some(i) => Some(&self.entries[i].1),
            None => None,
        }
    }

    /// Stores `value` under `key`, replacing what was there.
    pub fn insert(&mut self, key: String, value: V)
        requires
            old(self).wf(),
        ensures
            final(self).wf(),
            final(self)@ == inserted(old(self)@, key@, value),
    {
        match self.find(key.as_str()) {
            Some(i) => {
                let ghost k = key@;
                self.entries.set(i, (key, value));
                assert(self@ =~= old(self)@.update(i as int, (k, value)));
            },
            None => {
                let ghost k = key@;
                self.entries.push((key, value));
                assert(self@ =~= old(self)@.push((k, value)));
            },
        }
        proof {
            lemma_inserted_distinct(old(self)@, key@, value);
        }
    }

    /// Puts `value` in the entry at `i` and hands back the value that was there.
    pub fn replace_value_at(&mut self, i: usize, value: V) -> (previous: V)
        requires
            i < old(self)@.len(),
        ensures
            previous == old(self)@[i as int].1,
            final(self)@ == old(self)@.update(i as int, (old(self)@[i as int].0, value)),
    {
        let (key, previous) = self.entries.remove(i);
        self.entries.insert(i, (key, value));
        assert(self@ =~= old(self)@.update(i as int, (old(self)@[i as int].0, value)));
        previous
    }

    /// Removes every entry.
    pub fn clear(&mut self)
        ensures
            final(self)@ == Seq::<(Seq<char>, V)>::empty(),
            final(self).wf(),
    {
        self.entries.clear();
        assert(self@ =~= Seq::<(Seq<char>, V)>::empty());
    }
}

} // verus!
