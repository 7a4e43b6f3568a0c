//! A text-keyed association table in which no key occurs twice.

use vstd::prelude::*;

verus! {

/// The map that parallel sequences of distinct keys and of values stand for.
pub open spec fn assoc<V>(keys: Seq<Seq<char>>, vals: Seq<V>) -> Map<Seq<char>, V> {
    Map::new(|k: Seq<char>| keys.contains(k), |k: Seq<char>| vals[keys.index_of(k)])
}

/// With distinct keys, `assoc` is finite, has one entry per key, and maps
/// the key at each position to the value at that position.
pub proof fn lemma_assoc<V>(keys: Seq<Seq<char>>, vals: Seq<V>)
    requires
        keys.no_duplicates(),
        keys.len() == vals.len(),
    ensures
        assoc(keys, vals).dom() == keys.to_set(),
        assoc(keys, vals).dom().finite(),
        assoc(keys, vals).dom().len() == keys.len(),
        forall|i: int|
            0 <= i < keys.len() ==> assoc(keys, vals).contains_key(#[trigger] keys[i]) && assoc(
                keys,
                vals,
            )[keys[i]] == vals[i],
{
    assert(assoc(keys, vals).dom() =~= keys.to_set());
    vstd::seq_lib::seq_to_set_is_finite(keys);
    keys.unique_seq_to_set();
    assert forall|i: int| 0 <= i < keys.len() implies assoc(keys, vals).contains_key(
        #[trigger] keys[i],
    ) && assoc(keys, vals)[keys[i]] == vals[i] by {
        assert(keys.contains(keys[i]));
        let j = keys.index_of(keys[i]);
        assert(0 <= j < keys.len() && keys[j] == keys[i]);
    }
}

/// Appending a fresh key adds one entry.
pub proof fn lemma_assoc_push<V>(keys: Seq<Seq<char>>, vals: Seq<V>, k: Seq<char>, v: V)
    requires
        keys.no_duplicates(),
        keys.len() == vals.len(),
        !keys.contains(k),
    ensures
        keys.push(k).no_duplicates(),
        assoc(keys.push(k), vals.push(v)) == assoc(keys, vals).insert(k, v),
{
    let keys2 = keys.push(k);
    let vals2 = vals.push(v);
    assert forall|i: int, j: int| 0 <= i < keys2.len() && 0 <= j < keys2.len() && i != j implies keys2[i] != keys2[j] by {
        if i < keys.len() && j < keys.len() {
        } else if i < keys.len() {
            assert(keys.contains(keys[i]));
        } else {
            assert(keys.contains(keys[j]));
        }
    }
    lemma_assoc(keys, vals);
    lemma_assoc(keys2, vals2);
    let a = assoc(keys2, vals2);
    let b = assoc(keys, vals).insert(k, v);
    assert forall|x: Seq<char>| a.contains_key(x) <==> b.contains_key(x) by {
        if keys2.contains(x) {
            let i = keys2.index_of(x);
            if i < keys.len() {
                assert(keys[i] == x);
                assert(keys.contains(x));
            }
        }
        if keys.contains(x) {
            let i = keys.index_of(x);
            assert(keys2[i] == x);
        }
        if x == k {
            assert(keys2[keys.len() as int] == x);
        }
    }
    assert forall|x: Seq<char>| a.contains_key(x) implies a[x] == b[x] by {
        let i = keys2.index_of(x);
        assert(keys2[i] == x);
        assert(a[keys2[i]] == vals2[i]);
        if i < keys.len() {
            assert(keys[i] == x);
            assert(assoc(keys, vals)[keys[i]] == vals[i]);
        }
    }
    assert(a =~= b);
}

/// Replacing the value at one position replaces that key's entry.
pub proof fn lemma_assoc_update<V>(keys: Seq<Seq<char>>, vals: Seq<V>, i: int, v: V)
    requires
        keys.no_duplicates(),
        keys.len() == vals.len(),
        0 <= i < keys.len(),
    ensures
        assoc(keys, vals.update(i, v)) == assoc(keys, vals).insert(keys[i], v),
{
    let vals2 = vals.update(i, v);
    lemma_assoc(keys, vals);
    lemma_assoc(keys, vals2);
    let a = assoc(keys, vals2);
    let b = assoc(keys, vals).insert(keys[i], v);
    assert(keys.contains(keys[i]));
    assert forall|x: Seq<char>| a.contains_key(x) implies a[x] == b[x] by {
        let j = keys.index_of(x);
        assert(keys[j] == x);
        assert(a[keys[j]] == vals2[j]);
        assert(assoc(keys, vals)[keys[j]] == vals[j]);
    }
    assert(a =~= b);
}

/// A table from text keys to values, kept as parallel vectors.
pub struct Table<V> {
    keys: Vec<String>,
    vals: Vec<V>,
}

impl<V> Table<V> {
    /// The keys in the order in which they were first inserted.
    pub closed spec fn key_seq(&self) -> Seq<Seq<char>> {
        self.keys@.map_values(|k: String| k@)
    }

    /// The values, each at the position of its key.
    pub closed spec fn val_seq(&self) -> Seq<V> {
        self.vals@
    }

    /// Every key has a value and no key occurs twice.
    pub open spec fn wf(&self) -> bool {
        &&& self.key_seq().len() == self.val_seq().len()
        &&& self.key_seq().no_duplicates()
    }

    /// The table as a map.
    pub open spec fn view(&self) -> Map<Seq<char>, V> {
        assoc(self.key_seq(), self.val_seq())
    }

    pub fn new() -> (t: Self)
        ensures
            t.wf(),
            t.key_seq() == Seq::<Seq<char>>::empty(),
            t@ == Map::<Seq<char>, V>::empty(),
    {
        let t = Table { keys: Vec::new(), vals: Vec::new() };
        proof {
            assert(t.key_seq() =~= Seq::<Seq<char>>::empty());
            assert(t@ =~= Map::<Seq<char>, V>::empty());
        }
        t
    }

    /// The number of entries.
    pub fn len(&self) -> (n: usize)
        requires
            self.wf(),
        ensures
            n == self.key_seq().len(),
            self@.dom().finite(),
            n == self@.dom().len(),
    {
        proof {
            lemma_assoc(self.key_seq(), self.val_seq());
        }
        self.keys.len()
    }

    /// The position of `key`, if the table holds it.
    pub fn position(&self, key: &String) -> (r: Option<usize>)
        requires
            self.wf(),
        ensures
            match r {
                Some(i) => i < self.key_seq().len() && self.key_seq()[i as int] == key@,
                None => !self.key_seq().contains(key@),
            },
            r.is_some() == self@.contains_key(key@),
    {
        let mut i: usize = 0;
        while i < self.keys.len()
            invariant
                i <= self.keys.len(),
                forall|j: int| 0 <= j < i ==> self.key_seq()[j] != key@,
            decreases self.keys.len() - i,
        {
            if self.keys[i] == *key {
                assert(self.key_seq()[i as int] == key@);
                assert(self.key_seq().contains(key@));
                return Some(i);
            }
            i += 1;
        }
        None
    }

    /// The key at position `i`.
    pub fn key_at(&self, i: usize) -> (k: &String)
        requires
            self.wf(),
            i < self.key_seq().len(),
        ensures
            k@ == self.key_seq()[i as int],
    {
        &self.keys[i]
    }

    /// The value at position `i`, which is the value of the key at `i`.
    pub fn value_at(&self, i: usize) -> (v: &V)
        requires
            self.wf(),
            i < self.key_seq().len(),
        ensures
            *v == self.val_seq()[i as int],
            self@.contains_key(self.key_seq()[i as int]),
            *v == self@[self.key_seq()[i as int]],
    {
        proof {
            lemma_assoc(self.key_seq(), self.val_seq());
        }
        &self.vals[i]
    }

    /// The value of `key`, if the table holds it.
    pub fn get(&self, key: &String) -> (r: Option<&V>)
        requires
            self.wf(),
        ensures
            match r {
                Some(v) => self@.contains_key(key@) && *v == self@[key@],
                None => !self@.contains_key(key@),
            },
    {
        match self.position(key) {
            Some(i) => Some(self.value_at(i)),
            None => None,
        }
    }

    /// Sets the value of `key`, replacing the value it had, and tells
    /// whether it had one. A new key goes to the end; a known key keeps
    /// its position.
    pub fn insert(&mut self, key: String, value: V) -> (replaced: bool)
        requires
            old(self).wf(),
        ensures
            final(self).wf(),
            final(self)@ == old(self)@.insert(key@, value),
            replaced == old(self)@.contains_key(key@),
            replaced ==> final(self).key_seq() == old(self).key_seq(),
            !replaced ==> final(self).key_seq() == old(self).key_seq().push(key@),
    {
        match self.position(&key) {
            Some(i) => {
                proof {
                    lemma_assoc_update(self.key_seq(), self.val_seq(), i as int, value);
                }
                self.vals[i] = value;
                true
            },
            None => {
                proof {
                    lemma_assoc_push(self.key_seq(), self.val_seq(), key@, value);
                    assert(self.keys@.push(key).map_values(|k: String| k@) =~= self.key_seq().push(
                        key@,
                    ));
                }
                self.keys.push(key);
                self.vals.push(value);
                false
            },
        }
    }
}

} // verus!
