//! Where blobs are kept: named byte strings.

use crate::chunk::copy_bytes;
use crate::index::bytes_eq;
use vstd::prelude::*;

verus! {

/// Why a backend call failed.
#[derive(Debug, Clone, Copy, PartialEq, Eq, Structural)]
pub enum BackendError {
    /// No blob has that name.
    NotFound,
    /// The storage behind the backend failed.
    Failed,
}

/// A store of named blobs.
pub trait StoreBackend {
    /// The blobs held, by name.
    spec fn blobs(&self) -> Map<Seq<u8>, Seq<u8>>;

    /// The backend never fails: every store and delete succeeds, and so does
    /// every retrieve of a name it holds. A backend over real storage may
    /// leave this false.
    spec fn reliable(&self) -> bool;

    /// Stores `data` under `name`, replacing what was there.
    fn store(&mut self, name: &[u8], data: &[u8]) -> (r: Result<(), BackendError>)
        ensures
            r is Ok ==> final(self).blobs() == old(self).blobs().insert(name@, data@),
            r is Err ==> final(self).blobs() == old(self).blobs(),
            old(self).reliable() ==> r is Ok,
            final(self).reliable() == old(self).reliable(),
    ;

    /// The blob stored under `name`.
    fn retrieve(&self, name: &[u8]) -> (r: Result<Vec<u8>, BackendError>)
        ensures
            r matches Ok(d) ==> self.blobs().contains_key(name@) && d@ == self.blobs()[name@],
            !self.blobs().contains_key(name@) ==> r is Err,
            self.reliable() && self.blobs().contains_key(name@) ==> r is Ok,
    ;

    /// Removes the blob stored under `name`.
    fn delete(&mut self, name: &[u8]) -> (r: Result<(), BackendError>)
        ensures
            r is Ok ==> final(self).blobs() == old(self).blobs().remove(name@),
            r is Err ==> final(self).blobs() == old(self).blobs(),
            old(self).reliable() ==> r is Ok,
            final(self).reliable() == old(self).reliable(),
    ;
}

/// The blobs that a list of writes leaves, a later write of a name winning.
pub open spec fn written(s: Seq<(Vec<u8>, Vec<u8>)>) -> Map<Seq<u8>, Seq<u8>>
    decreases s.len(),
{
    if s.len() == 0 {
        Map::empty()
    } else {
        written(s.drop_last()).insert(s.last().0@, s.last().1@)
    }
}

/// A backend that keeps its blobs in memory.
pub struct MemoryBackend {
    entries: Vec<(Vec<u8>, Vec<u8>)>,
}

impl MemoryBackend {
    /// A backend holding no blob.
    pub fn new() -> (r: MemoryBackend)
        ensures
            r.blobs() == Map::<Seq<u8>, Seq<u8>>::empty(),
            r.reliable(),
    {
        MemoryBackend { entries: Vec::new() }
    }
}

impl StoreBackend for MemoryBackend {
    closed spec fn blobs(&self) -> Map<Seq<u8>, Seq<u8>> {
        written(self.entries@)
    }

    /// Memory never fails.
    open spec fn reliable(&self) -> bool {
        true
    }

    fn store(&mut self, name: &[u8], data: &[u8]) -> (r: Result<(), BackendError>) {
        let ghost prev = self.entries@;
        self.entries.push((copy_bytes(name), copy_bytes(data)));
        assert(self.entries@.drop_last() =~= prev);
        Ok(())
    }

    fn retrieve(&self, name: &[u8]) -> (r: Result<Vec<u8>, BackendError>) {
        let ghost s = self.entries@;
        let mut i: usize = self.entries.len();
        assert(s.take(i as int) =~= s);
        while i > 0
            invariant
                i <= s.len(),
                s == self.entries@,
                written(s.take(i as int)).contains_key(name@) == written(s).contains_key(name@),
                written(s.take(i as int)).contains_key(name@) ==> written(s.take(i as int))[name@]
                    == written(s)[name@],
            decreases i,
        {
            assert(s.take(i as int).drop_last() =~= s.take(i - 1));
            assert(s.take(i as int).last() == s[i - 1]);
            if bytes_eq(self.entries[i - 1].0.as_slice(), name) {
                return Ok(copy_bytes(self.entries[i - 1].1.as_slice()));
            }
            i = i - 1;
        }
        assert(s.take(0) =~= Seq::<(Vec<u8>, Vec<u8>)>::empty());
        Err(BackendError::NotFound)
    }

    fn delete(&mut self, name: &[u8]) -> (r: Result<(), BackendError>) {
        let ghost s = self.entries@;
        let mut kept: Vec<(Vec<u8>, Vec<u8>)> = Vec::new();
        let mut i: usize = 0;
        while i < self.entries.len()
            invariant
                i <= s.len(),
                s == self.entries@,
                written(kept@) == written(s.take(i as int)).remove(name@),
            decreases self.entries.len() - i,
        {
            assert(s.take(i + 1).drop_last() =~= s.take(i as int));
            assert(s.take(i + 1).last() == s[i as int]);
            if !bytes_eq(self.entries[i].0.as_slice(), name) {
                let ghost before = kept@;
                kept.push(
                    (copy_bytes(self.entries[i].0.as_slice()), copy_bytes(self.entries[i].1.as_slice())),
                );
                assert(kept@.drop_last() =~= before);
                assert(written(kept@) =~= written(s.take(i + 1)).remove(name@));
            } else {
                assert(written(kept@) =~= written(s.take(i + 1)).remove(name@));
            }
            i = i + 1;
        }
        assert(s.take(s.len() as int) =~= s);
        self.entries = kept;
        Ok(())
    }
}

} // verus!
