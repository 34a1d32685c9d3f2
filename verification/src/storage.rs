//! The blob store that regions are paged against: named blobs of bytes.

use crate::error::MapError;
use vstd::prelude::*;

verus! {

struct Blob {
    key: String,
    bytes: Vec<u8>,
}

/// A store of named blobs. Its view is the map from each name to the bytes
/// last written under it. The store takes blobs up to a limit of bytes and
/// refuses longer ones.
pub struct Storage {
    entries: Vec<Blob>,
    limit: usize,
}

/// What a list of blobs holds: a later blob replaces an earlier one of the
/// same name.
spec fn contents(entries: Seq<Blob>) -> Map<Seq<char>, Seq<u8>>
    decreases entries.len(),
{
    if entries.len() == 0 {
        Map::empty()
    } else {
        contents(entries.drop_last()).insert(entries.last().key@, entries.last().bytes@)
    }
}

proof fn lemma_absent(entries: Seq<Blob>, key: Seq<char>)
    requires
        forall|j: int| 0 <= j < entries.len() ==> entries[j].key@ != key,
    ensures
        !contents(entries).contains_key(key),
    decreases entries.len(),
{
    if entries.len() > 0 {
        lemma_absent(entries.drop_last(), key);
    }
}

proof fn lemma_found(entries: Seq<Blob>, i: int, key: Seq<char>)
    requires
        0 <= i < entries.len(),
        entries[i].key@ == key,
        forall|j: int| i < j < entries.len() ==> entries[j].key@ != key,
    ensures
        contents(entries).contains_key(key),
        contents(entries)[key] == entries[i].bytes@,
    decreases entries.len(),
{
    if i < entries.len() - 1 {
        lemma_found(entries.drop_last(), i, key);
    }
}

proof fn lemma_replaced(entries: Seq<Blob>, i: int, blob: Blob)
    requires
        0 <= i < entries.len(),
        entries[i].key@ == blob.key@,
        forall|j: int| i < j < entries.len() ==> entries[j].key@ != blob.key@,
    ensures
        contents(entries.update(i, blob)) == contents(entries).insert(blob.key@, blob.bytes@),
    decreases entries.len(),
{
    let after = entries.update(i, blob);
    if i == entries.len() - 1 {
        assert(after.drop_last() == entries.drop_last());
        assert(contents(after) == contents(entries).insert(blob.key@, blob.bytes@));
    } else {
        lemma_replaced(entries.drop_last(), i, blob);
        assert(after.drop_last() == entries.drop_last().update(i, blob));
        assert(after.last() == entries.last());
        assert(contents(after) == contents(entries).insert(blob.key@, blob.bytes@));
    }
}

proof fn lemma_listed(entries: Seq<Blob>, key: Seq<char>)
    ensures
        contents(entries).contains_key(key) <==> exists|j: int|
            0 <= j < entries.len() && #[trigger] entries[j].key@ == key,
    decreases entries.len(),
{
    if entries.len() > 0 {
        lemma_listed(entries.drop_last(), key);
        if contents(entries).contains_key(key) {
            if entries.last().key@ == key {
                assert(entries[entries.len() - 1].key@ == key);
            } else {
                let j = choose|j: int|
                    0 <= j < entries.drop_last().len() && #[trigger] entries.drop_last()[j].key@
                        == key;
                assert(entries[j].key@ == key);
            }
        }
        if exists|j: int| 0 <= j < entries.len() && #[trigger] entries[j].key@ == key {
            let j = choose|j: int| 0 <= j < entries.len() && #[trigger] entries[j].key@ == key;
            if j < entries.len() - 1 {
                assert(entries.drop_last()[j].key@ == key);
            }
        }
    }
}

impl Storage {
    /// The blobs in the store, by name.
    pub closed spec fn view(&self) -> Map<Seq<char>, Seq<u8>> {
        contents(self.entries@)
    }

    /// The greatest number of bytes of a blob that the store takes.
    pub closed spec fn limit(&self) -> nat {
        self.limit as nat
    }

    /// An empty store that takes blobs of any length.
    pub fn new() -> (store: Storage)
        ensures
            store@ == Map::<Seq<char>, Seq<u8>>::empty(),
            store.limit() == usize::MAX,
    {
        Storage { entries: Vec::new(), limit: usize::MAX }
    }

    /// An empty store that takes blobs of up to `limit` bytes.
    pub fn with_limit(limit: usize) -> (store: Storage)
        ensures
            store@ == Map::<Seq<char>, Seq<u8>>::empty(),
            store.limit() == limit,
    {
        Storage { entries: Vec::new(), limit }
    }

    /// The greatest number of bytes of a blob that the store takes.
    pub fn get_limit(&self) -> (limit: usize)
        ensures
            limit == self.limit(),
    {
        self.limit
    }

    /// The place of the blob that answers for `key`, if there is one.
    fn position(&self, key: &String) -> (found: Option<usize>)
        ensures
            match found {
                Some(i) => i < self.entries.len() && self.entries[i as int].key@ == key@
                    && forall|j: int| i < j < self.entries.len() ==> self.entries[j].key@ != key@,
                None => forall|j: int| 0 <= j < self.entries.len() ==> self.entries[j].key@ != key@,
            },
    {
        let mut i: usize = self.entries.len();
        while i > 0
            invariant
                i <= self.entries.len(),
                forall|j: int| i <= j < self.entries.len() ==> self.entries[j].key@ != key@,
            decreases i,
        {
            i -= 1;
            if self.entries[i].key == *key {
                return Some(i);
            }
        }
        None
    }

    /// Whether a blob is stored under `key`.
    pub fn contains(&self, key: &String) -> (found: bool)
        ensures
            found == self@.contains_key(key@),
    {
        match self.position(key) {
            Some(i) => {
                proof {
                    lemma_found(self.entries@, i as int, key@);
                }
                true
            },
            None => {
                proof {
                    lemma_absent(self.entries@, key@);
                }
                false
            },
        }
    }

    /// Reads the blob stored under `key`; `NotFound` exactly when there is
    /// none.
    pub fn read(&self, key: &String) -> (blob: Result<Vec<u8>, MapError>)
        ensures
            match blob {
                Ok(bytes) => self@.contains_key(key@) && bytes@ == self@[key@],
                Err(e) => e == MapError::NotFound && !self@.contains_key(key@),
            },
    {
        match self.position(key) {
            Some(i) => {
                proof {
                    lemma_found(self.entries@, i as int, key@);
                }
                Ok(self.entries[i].bytes.clone())
            },
            None => {
                proof {
                    lemma_absent(self.entries@, key@);
                }
                Err(MapError::NotFound)
            },
        }
    }

    /// Stores `bytes` under `key`, in place of what was stored there.
    /// `WriteFailed`, with the store unchanged, exactly when the blob is
    /// longer than the store's limit.
    pub fn write(&mut self, key: String, bytes: Vec<u8>) -> (written: Result<(), MapError>)
        ensures
            final(self).limit() == old(self).limit(),
            match written {
                Ok(_) => bytes@.len() <= old(self).limit() && final(self)@ == old(self)@.insert(
                    key@,
                    bytes@,
                ),
                Err(e) => {
                    &&& e == MapError::WriteFailed
                    &&& bytes@.len() > old(self).limit()
                    &&& final(self)@ == old(self)@
                },
            },
    {
        if bytes.len() > self.limit {
            return Err(MapError::WriteFailed);
        }
        let found = self.position(&key);
        let blob = Blob { key, bytes };
        match found {
            Some(i) => {
                proof {
                    lemma_replaced(self.entries@, i as int, blob);
                }
                self.entries[i] = blob;
            },
            None => {
                self.entries.push(blob);
                assert(self.entries@.drop_last() == old(self).entries@);
            },
        }
        Ok(())
    }

    /// The names under which blobs are stored.
    pub fn keys(&self) -> (names: Vec<String>)
        ensures
            forall|key: Seq<char>|
                self@.contains_key(key) <==> exists|i: int|
                    0 <= i < names.len() && #[trigger] names[i]@ == key,
    {
        let mut names: Vec<String> = Vec::new();
        let mut i: usize = 0;
        while i < self.entries.len()
            invariant
                i <= self.entries.len(),
                names.len() == i,
                forall|j: int| 0 <= j < i ==> #[trigger] names[j]@ == self.entries[j].key@,
            decreases self.entries.len() - i,
        {
            names.push(self.entries[i].key.clone());
            i += 1;
        }
        proof {
            assert forall|key: Seq<char>|
                self@.contains_key(key) <==> exists|i: int|
                    0 <= i < names.len() && #[trigger] names[i]@ == key by {
                lemma_listed(self.entries@, key);
                if self@.contains_key(key) {
                    let j = choose|j: int|
                        0 <= j < self.entries.len() && #[trigger] self.entries[j].key@ == key;
                    assert(names[j]@ == key);
                }
                if exists|i: int| 0 <= i < names.len() && #[trigger] names[i]@ == key {
                    let j = choose|i: int| 0 <= i < names.len() && #[trigger] names[i]@ == key;
                    assert(self.entries[j].key@ == key);
                }
            }
        }
        names
    }
}

} // verus!
