//! A runtime's persistent storage: byte strings under byte-string keys.
//!
//! The storage is a list of entries and not a hash map: of a hash map whose
//! keys are byte vectors the verifier knows nothing, not even that a key that
//! was inserted is there.

use vstd::prelude::*;

verus! {

/// Whether two byte strings hold the same bytes.
pub fn bytes_eq(a: &[u8], b: &[u8]) -> (same: bool)
    ensures
        same == (a@ == b@),
{
    if a.len() != b.len() {
        return false;
    }
    let mut i: usize = 0;
    while i < a.len()
        invariant
            i <= a.len(),
            a.len() == b.len(),
            forall|j: int| 0 <= j < i ==> a@[j] == b@[j],
        decreases a.len() - i,
    {
        if a[i] != b[i] {
            return false;
        }
        i += 1;
    }
    assert(a@ =~= b@);
    true
}

/// A map from keys to values that is only ever read and written: nothing is
/// deleted. It lives as long as its runtime, across invocations.
///
/// The entries stand in the order in which their keys were first written. The
/// first entry under a key is the one that counts, and a write to a key that
/// has an entry goes to that entry.
pub struct Storage {
    entries: Vec<(Vec<u8>, Vec<u8>)>,
}

impl View for Storage {
    type V = Map<Seq<u8>, Seq<u8>>;

    closed spec fn view(&self) -> Map<Seq<u8>, Seq<u8>> {
        Map::new(
            |key: Seq<u8>| Self::position(self.entries@, key) is Some,
            |key: Seq<u8>| self.entries@[Self::position(self.entries@, key)->0].1@,
        )
    }
}

impl Storage {
    /// Whether the entry at `i` is the first one under `key`.
    spec fn is_first(entries: Seq<(Vec<u8>, Vec<u8>)>, key: Seq<u8>, i: int) -> bool {
        &&& 0 <= i < entries.len()
        &&& entries[i].0@ == key
        &&& forall|j: int| 0 <= j < i ==> entries[j].0@ != key
    }

    /// Where the first entry under `key` stands.
    spec fn position(entries: Seq<(Vec<u8>, Vec<u8>)>, key: Seq<u8>) -> Option<int> {
        if exists|i: int| Self::is_first(entries, key, i) {
            Some(choose|i: int| Self::is_first(entries, key, i))
        } else {
            None
        }
    }

    /// A storage that holds nothing.
    pub fn new() -> (storage: Self)
        ensures
            storage@ == Map::<Seq<u8>, Seq<u8>>::empty(),
    {
        Storage { entries: Vec::new() }
    }

    /// The index of the first entry under `key`.
    fn find(&self, key: &[u8]) -> (at: Option<usize>)
        ensures
            match at {
                Some(i) => Self::is_first(self.entries@, key@, i as int),
                None => Self::position(self.entries@, key@) is None,
            },
    {
        let mut i: usize = 0;
        while i < self.entries.len()
            invariant
                i <= self.entries@.len(),
                forall|j: int| 0 <= j < i ==> self.entries@[j].0@ != key@,
            decreases self.entries@.len() - i,
        {
            if bytes_eq(self.entries[i].0.as_slice(), key) {
                return Some(i);
            }
            i += 1;
        }
        None
    }

    /// The value under `key`, if one was written.
    pub fn get(&self, key: &[u8]) -> (value: Option<&Vec<u8>>)
        ensures
            match value {
                Some(v) => self@.contains_key(key@) && v@ == self@[key@],
                None => !self@.contains_key(key@),
            },
    {
        match self.find(key) {
            Some(i) => Some(&self.entries[i].1),
            None => None,
        }
    }

    /// Writes `value` under `key`, over what was there. Returns whether
    /// something was there.
    pub fn insert(&mut self, key: Vec<u8>, value: Vec<u8>) -> (replaced: bool)
        ensures
            final(self)@ == old(self)@.insert(key@, value@),
            replaced == old(self)@.contains_key(key@),
    {
        let ghost before = self.entries@;
        let ghost k = key@;
        match self.find(key.as_slice()) {
            Some(i) => {
                self.entries.set(i, (key, value));
                proof {
                    let after = self.entries@;
                    assert forall|j: int| 0 <= j < after.len() implies after[j].0@
                        == before[j].0@ by {}
                    assert forall|q: Seq<u8>, j: int|
                        Self::is_first(after, q, j) == Self::is_first(before, q, j) by {}
                }
                true
            },
            None => {
                self.entries.push((key, value));
                proof {
                    let after = self.entries@;
                    let n = before.len() as int;
                    assert forall|j: int| 0 <= j < n implies after[j] == before[j] by {}
                    assert(Self::is_first(after, k, n)) by {
                        assert forall|j: int| 0 <= j < n implies after[j].0@ != k by {
                            if after[j].0@ == k {
                                Self::lemma_first_exists(before, k, j);
                            }
                        }
                    }
                    assert forall|q: Seq<u8>| q != k implies Self::position(after, q)
                        == Self::position(before, q) by {
                        assert forall|j: int|
                            Self::is_first(after, q, j) == Self::is_first(before, q, j) by {}
                    }
                }
                false
            },
        }
    }

    /// Where an entry stands under `key`, a first one stands.
    proof fn lemma_first_exists(entries: Seq<(Vec<u8>, Vec<u8>)>, key: Seq<u8>, i: int)
        requires
            0 <= i < entries.len(),
            entries[i].0@ == key,
        ensures
            Self::position(entries, key) is Some,
        decreases i,
    {
        if exists|j: int| 0 <= j < i && entries[j].0@ == key {
            let j = choose|j: int| 0 <= j < i && entries[j].0@ == key;
            Self::lemma_first_exists(entries, key, j);
        } else {
            assert(Self::is_first(entries, key, i));
        }
    }
}

} // verus!
