//! The aggregating store: stages chunks in the current blob, writes the blob
//! to the backend when it is full or on request, and hands back the callbacks
//! of the chunks that became durable.
//!
//! A callback is whatever value `C` the caller queued with a chunk; the store
//! returns each one, with the chunk's reference, once the blob holding the
//! chunk is committed. The caller then runs it.

use crate::backend::{BackendError, StoreBackend};
use crate::chunk::{be_bytes, copy_bytes, lemma_be_value_of_bytes, same_ref, ChunkRef, Kind};
use crate::index::{
    advanced, has_name, names_tagged, row_names, tagged_with, untagged, with_tag, BlobDesc, BlobIndex,
    BlobState, IndexError, RowView,
};
use crate::tags::Tag;
use vstd::prelude::*;
use vstd::string::StringSliceAdditionalSpecFns;

verus! {

/// Why a request failed.
#[derive(Debug, Clone, Copy, PartialEq, Eq, Structural)]
pub enum MsgError {
    /// The reply path was dropped.
    ChannelClosed,
    /// The blob index refused.
    Index(IndexError),
    /// The backend failed.
    Backend(BackendError),
    /// A reference points past the end of its blob.
    OutOfRange,
}

/// A request to the store; `C` is the callback queued with a chunk.
pub enum Msg<C> {
    /// Stores a chunk in the current blob. Its callback comes back once the
    /// blob holding it is committed.
    Store(Vec<u8>, Kind, C),
    /// The bytes a reference points to.
    Retrieve(ChunkRef),
    /// Stores a whole blob under a name of its own (used for the root).
    StoreNamed(String, Vec<u8>),
    /// The whole blob stored under a name.
    RetrieveNamed(String),
    /// Records a blob found on the backend in the index.
    Recover(ChunkRef),
    /// Tags the blob holding a chunk.
    Tag(ChunkRef, Tag),
    /// Tags every blob.
    TagAll(Tag),
    /// Deletes every blob with a tag, from the backend and then the index.
    DeleteByTag(Tag),
    /// Writes the current blob out, whatever its size.
    Flush,
}

/// The answer to a request.
#[derive(Debug, PartialEq, Eq)]
pub enum Reply {
    StoreOk(ChunkRef),
    StoreNamedOk(String),
    RetrieveOk(Vec<u8>),
    RecoverOk,
    FlushOk,
    /// The generic acknowledgment, for tag operations.
    Acknowledged,
}

/// The reference of the empty chunk: blob `[0]`, offset 0, length 0.
pub open spec fn is_empty_chunk_ref(r: ChunkRef, kind: Kind) -> bool {
    r.blob_id@ == seq![0u8] && r.offset == 0 && r.length == 0 && r.kind == kind
}

/// A reference that names no bytes on the backend.
pub open spec fn names_no_bytes(r: ChunkRef) -> bool {
    r.offset == 0 && r.length == 0
}

/// The bytes of `blobs` that `r` points to, where they exist.
pub open spec fn resolves(blobs: Map<Seq<u8>, Seq<u8>>, r: ChunkRef, bytes: Seq<u8>) -> bool {
    if names_no_bytes(r) {
        bytes.len() == 0
    } else {
        &&& blobs.contains_key(r.blob_id@)
        &&& r.offset + r.length <= blobs[r.blob_id@].len()
        &&& blobs[r.blob_id@].subrange(r.offset as int, r.offset + r.length) == bytes
    }
}

/// The index rows after writing out the blob named `name`.
pub open spec fn committed(rows: Seq<RowView>, name: Seq<u8>) -> Seq<RowView> {
    advanced(
        advanced(rows, name, BlobState::Reserved, BlobState::InAir),
        name,
        BlobState::InAir,
        BlobState::Committed,
    )
}

/// The references in a callback queue.
pub open spec fn refs_of<C>(q: Seq<(ChunkRef, C)>) -> Seq<ChunkRef> {
    q.map_values(|p: (ChunkRef, C)| p.0)
}

/// The bytes of `blob` that `r` points to, or `OutOfRange` where the range
/// runs past the end of the blob.
pub fn slice_chunk(blob: &[u8], r: &ChunkRef) -> (res: Result<Vec<u8>, MsgError>)
    ensures
        r.offset + r.length <= blob@.len() ==> (res matches Ok(d) && d@ == blob@.subrange(
            r.offset as int,
            r.offset + r.length,
        )),
        r.offset + r.length > blob@.len() ==> res == Err::<Vec<u8>, MsgError>(MsgError::OutOfRange),
{
    if r.offset > blob.len() || r.length > blob.len() - r.offset {
        return Err(MsgError::OutOfRange);
    }
    let end: usize = r.offset + r.length;
    let mut out: Vec<u8> = Vec::new();
    let mut i: usize = r.offset;
    while i < end
        invariant
            r.offset <= i <= end,
            end <= blob@.len(),
            end == r.offset + r.length,
            out@ == blob@.subrange(r.offset as int, i as int),
        decreases end - i,
    {
        out.push(blob[i]);
        i = i + 1;
        assert(out@ =~= blob@.subrange(r.offset as int, i as int));
    }
    Ok(out)
}

/// `after` is `before` with the first `j` of `names` deleted and every other
/// name left as it was.
pub open spec fn deleted_first(
    before: Map<Seq<u8>, Seq<u8>>,
    after: Map<Seq<u8>, Seq<u8>>,
    names: Seq<Seq<u8>>,
    j: int,
) -> bool {
    &&& forall|k: int| 0 <= k < j ==> !after.contains_key(#[trigger] names[k])
    &&& forall|n: Seq<u8>|
        !names.take(j).contains(n) ==> (#[trigger] after.contains_key(n) == before.contains_key(n)
            && (after.contains_key(n) ==> after[n] == before[n]))
}

/// What a `Store` of a non-empty `chunk` into `s0` left in `s1` and gave as
/// `h`: the chunk's reference at the end of the current blob; the chunk
/// appended to the staged bytes; and, where that fills the blob, the blob
/// written out with the chunk's callback among those handed back.
pub open spec fn store_outcome<B: StoreBackend, C>(
    s0: Store<B, C>,
    s1: Store<B, C>,
    chunk: Seq<u8>,
    kind: Kind,
    cb: C,
    h: Handled<C>,
) -> bool {
    let total = s0.staged() + chunk;
    h.reply matches Ok(Reply::StoreOk(r)) && {
        &&& r.blob_id@ == s0.current()
        &&& r.offset == s0.staged().len()
        &&& r.length == chunk.len()
        &&& r.kind == kind
        &&& total.len() < s0.max_blob_size() ==> {
            &&& s1.staged() == total
            &&& s1.current() == s0.current()
            &&& s1.current_id() == s0.current_id()
            &&& s1.blobs() == s0.blobs()
            &&& s1.rows() == s0.rows()
            &&& s1.pending().len() == s0.pending().len() + 1
            &&& s1.pending().drop_last() == s0.pending()
            &&& same_ref(s1.pending().last(), r)
            &&& s1.queued().len() == s0.queued().len() + 1
            &&& s1.queued().drop_last() == s0.queued()
            &&& same_ref(s1.queued().last().0, r)
            &&& s1.queued().last().1 == cb
            &&& h.ready@.len() == 0
            &&& h.failure is None
        }
        &&& total.len() >= s0.max_blob_size() ==> match h.failure {
            None => {
                &&& s1.blobs() == s0.blobs().insert(s0.current(), total)
                &&& refs_of(h.ready@).len() == s0.pending().len() + 1
                &&& refs_of(h.ready@).drop_last() == s0.pending()
                &&& same_ref(refs_of(h.ready@).last(), r)
                &&& h.ready@.len() == s0.queued().len() + 1
                &&& h.ready@.drop_last() == s0.queued()
                &&& same_ref(h.ready@.last().0, r)
                &&& h.ready@.last().1 == cb
                &&& s1.next_id() == s1.current_id() + 1
                &&& s1.staged().len() == 0
                &&& s1.pending().len() == 0
                &&& s1.current_id() > s0.current_id()
            },
            Some(MsgError::Index(_)) => !s0.can_reserve() && s1.staged() == total
                && h.ready@.len() == 0,
            Some(MsgError::Backend(_)) => !s0.reliable() && s1.blobs() == s0.blobs()
                && s1.staged().len() == 0 && h.ready@.len() == 0,
            Some(_) => false,
        }
    }
}

/// The row that reserving the current blob of `s` added.
pub open spec fn reserved_row<B: StoreBackend, C>(s: Store<B, C>) -> RowView {
    RowView { id: s.current_id(), name: s.current(), state: BlobState::Reserved, tag: None }
}

/// What writing out the current blob of `s0`, which holds staged bytes, left
/// in `s1` and gave as `r`. On success the blob is stored under its name,
/// committed, and the waiting callbacks come back in order; where no blob can
/// be reserved nothing changes; where the backend fails the blob stays in the
/// air and its callbacks are dropped. Either way past the reservation a new
/// blob, with a larger id, is current.
pub open spec fn flush_outcome<B: StoreBackend, C>(
    s0: Store<B, C>,
    s1: Store<B, C>,
    r: Result<Vec<(ChunkRef, C)>, MsgError>,
) -> bool {
    match r {
        Ok(ready) => {
            &&& s1.blobs() == s0.blobs().insert(s0.current(), s0.staged())
            &&& ready@ == s0.queued()
            &&& refs_of(ready@) == s0.pending()
            &&& s1.next_id() == s1.current_id() + 1
            &&& forall|k: int|
                0 <= k < ready@.len() ==> s1.blobs().contains_key(
                    (#[trigger] ready@[k]).0.blob_id@,
                )
            &&& s1.staged().len() == 0
            &&& s1.pending().len() == 0
            &&& s1.current_id() > s0.current_id()
            &&& s1.current() != s0.current()
            &&& !has_name(s0.rows(), s1.current())
            &&& s1.rows() == committed(s0.rows().push(reserved_row(s1)), s0.current())
        },
        Err(MsgError::Index(e)) => e == IndexError::Exhausted && !s0.can_reserve() && s1 == s0,
        Err(MsgError::Backend(_)) => {
            &&& !s0.reliable()
            &&& s1.blobs() == s0.blobs()
            &&& s1.next_id() == s1.current_id() + 1
            &&& s1.staged().len() == 0
            &&& s1.pending().len() == 0
            &&& s1.current_id() > s0.current_id()
            &&& s1.current() != s0.current()
            &&& s1.rows() == advanced(
                s0.rows().push(reserved_row(s1)),
                s0.current(),
                BlobState::Reserved,
                BlobState::InAir,
            )
        },
        Err(_) => false,
    }
}

#[verifier::reject_recursive_types(C)]
pub struct Store<B, C> {
    backend: B,
    blob_index: BlobIndex,
    blob_desc: BlobDesc,
    blob_data: Vec<u8>,
    blob_refs: Vec<(ChunkRef, C)>,
    max_blob_size: usize,
}

/// What handling a request gives: the reply, and the callbacks now due with
/// their references.
pub struct Handled<C> {
    pub reply: Result<Reply, MsgError>,
    pub ready: Vec<(ChunkRef, C)>,
    /// Where a `Store` filled the blob and writing it out then failed: why.
    pub failure: Option<MsgError>,
}

impl<B: StoreBackend, C> Store<B, C> {
    /// The backend.
    pub closed spec fn backend_view(&self) -> B {
        self.backend
    }

    /// The blobs on the backend.
    pub open spec fn blobs(&self) -> Map<Seq<u8>, Seq<u8>> {
        self.backend_view().blobs()
    }

    /// The rows of the blob index.
    pub closed spec fn rows(&self) -> Seq<RowView> {
        self.blob_index.rows()
    }

    /// The name of the blob being filled.
    pub closed spec fn current(&self) -> Seq<u8> {
        self.blob_desc.name@
    }

    /// The id of the blob being filled; its name is the id's eight bytes.
    pub closed spec fn current_id(&self) -> u64 {
        self.blob_desc.id
    }

    /// The id the index tries first for the next blob.
    pub closed spec fn next_id(&self) -> u64 {
        self.blob_index.next_id()
    }

    /// The index can reserve a blob at once: the next id is not the last one
    /// and no row has its name.
    pub open spec fn can_reserve(&self) -> bool {
        !has_name(self.rows(), be_bytes(self.next_id())) && self.next_id() < u64::MAX
    }

    /// The bytes staged for the current blob.
    pub closed spec fn staged(&self) -> Seq<u8> {
        self.blob_data@
    }

    /// The backend does not fail.
    pub open spec fn reliable(&self) -> bool {
        self.backend_view().reliable()
    }

    /// The references waiting for the current blob, each with its callback,
    /// in the order they were queued.
    pub closed spec fn queued(&self) -> Seq<(ChunkRef, C)> {
        self.blob_refs@
    }

    /// The references whose callbacks wait for the current blob.
    pub closed spec fn pending(&self) -> Seq<ChunkRef> {
        refs_of(self.blob_refs@)
    }

    /// The size at which the current blob is written out.
    pub closed spec fn max_blob_size(&self) -> usize {
        self.max_blob_size
    }

    /// The index is well formed, and each waiting reference points into the
    /// staged bytes of the current blob.
    pub closed spec fn wf(&self) -> bool {
        &&& self.blob_index.wf()
        &&& self.blob_desc.name@ == be_bytes(self.blob_desc.id)
        &&& self.blob_desc.id < self.blob_index.next_id()
        &&& forall|k: int|
            0 <= k < self.blob_refs@.len() ==> {
                let r = #[trigger] self.blob_refs@[k].0;
                &&& r.blob_id@ == self.blob_desc.name@
                &&& r.length > 0
                &&& r.offset + r.length <= self.blob_data@.len()
            }
    }

    /// How many bytes are staged for the current blob.
    pub fn staged_len(&self) -> (r: usize)
        ensures
            r == self.staged().len(),
    {
        self.blob_data.len()
    }

    /// The backend.
    pub fn backend(&self) -> (r: &B)
        ensures
            *r == self.backend_view(),
    {
        &self.backend
    }

    /// A store over `index` and `backend` that writes a blob out once it holds
    /// `max_blob_size` bytes. It reserves its first blob at once.
    pub fn new(index: BlobIndex, backend: B, max_blob_size: usize) -> (r: Result<
        Store<B, C>,
        MsgError,
    >)
        requires
            index.wf(),
        ensures
            match r {
                Ok(s) => {
                    &&& s.wf()
                    &&& s.blobs() == backend.blobs()
                    &&& s.staged().len() == 0
                    &&& s.pending().len() == 0
                    &&& s.max_blob_size() == max_blob_size
                    &&& s.reliable() == backend.reliable()
                    &&& !has_name(index.rows(), s.current())
                    &&& s.current_id() >= index.next_id()
                    &&& !has_name(index.rows(), be_bytes(index.next_id())) ==> s.current_id()
                        == index.next_id()
                    &&& s.next_id() == s.current_id() + 1
                    &&& s.rows() == index.rows().push(reserved_row(s))
                },
                Err(e) => e == MsgError::Index(IndexError::Exhausted),
            },
            !has_name(index.rows(), be_bytes(index.next_id())) && index.next_id() < u64::MAX
                ==> r is Ok,
    {
        let ghost first = index.next_id();
        let ghost rows0 = index.rows();
        let mut index = index;
        match index.reserve() {
            Ok(d) => {
                proof {
                    if d.id > first {
                        assert(has_name(rows0, be_bytes(first)));
                    }
                }
                let s = Store {
                    backend,
                    blob_index: index,
                    blob_desc: d,
                    blob_refs: Vec::new(),
                    blob_data: Vec::new(),
                    max_blob_size,
                };
                Ok(s)
            },
            Err(e) => Err(MsgError::Index(e)),
        }
    }

    /// Writes the current blob out. With nothing staged it does nothing.
    /// Otherwise a new blob becomes current, the old one goes in the air, is
    /// stored on the backend and committed, and the callbacks that waited for
    /// it come back with their references, in the order they were queued.
    /// Where the backend fails, its error comes back, the old blob stays in
    /// the air and its callbacks are dropped.
    pub fn flush(&mut self) -> (r: Result<Vec<(ChunkRef, C)>, MsgError>)
        requires
            old(self).wf(),
        ensures
            final(self).wf(),
            final(self).max_blob_size() == old(self).max_blob_size(),
            final(self).reliable() == old(self).reliable(),
            final(self).staged().len() <= old(self).staged().len(),
            final(self).current_id() >= old(self).current_id(),
            old(self).staged().len() == 0 ==> (r matches Ok(v) && v@.len() == 0 && *final(self)
                == *old(self)),
            old(self).staged().len() > 0 ==> flush_outcome(*old(self), *final(self), r),
    {
        if self.blob_data.len() == 0 {
            return Ok(Vec::new());
        }
        let ghost old_rows = self.rows();
        let old_desc = match self.reserve_new_blob() {
            Ok(d) => d,
            Err(e) => return Err(e),
        };
        let ghost reserved_rows = self.rows();
        let mut old_blob: Vec<u8> = Vec::new();
        std::mem::swap(&mut old_blob, &mut self.blob_data);
        let mut ready: Vec<(ChunkRef, C)> = Vec::new();
        std::mem::swap(&mut ready, &mut self.blob_refs);
        assert(self.pending() =~= Seq::<ChunkRef>::empty());
        self.blob_index.in_air(&old_desc);
        match self.backend.store(old_desc.name.as_slice(), old_blob.as_slice()) {
            Ok(()) => {},
            Err(e) => {
                proof {
                    lemma_be_value_of_bytes(old_desc.id);
                    lemma_be_value_of_bytes(self.blob_desc.id);
                }
                return Err(MsgError::Backend(e));
            },
        }
        self.blob_index.commit_done(&old_desc);
        assert(self.rows() == committed(reserved_rows, old_desc.name@));
        proof {
            lemma_be_value_of_bytes(old_desc.id);
            lemma_be_value_of_bytes(self.blob_desc.id);
            assert forall|k: int| 0 <= k < ready@.len() implies self.backend.blobs().contains_key(
                (#[trigger] ready@[k]).0.blob_id@,
            ) by {
                assert(old(self).blob_refs@[k] == ready@[k]);
            }
        }
        Ok(ready)
    }

    /// Writes the current blob out once it holds `max_blob_size()` bytes.
    pub fn maybe_flush(&mut self) -> (r: Result<Vec<(ChunkRef, C)>, MsgError>)
        requires
            old(self).wf(),
        ensures
            final(self).wf(),
            final(self).max_blob_size() == old(self).max_blob_size(),
            final(self).reliable() == old(self).reliable(),
            final(self).staged().len() <= old(self).staged().len(),
            final(self).current_id() >= old(self).current_id(),
            old(self).staged().len() < old(self).max_blob_size() ==> (r matches Ok(v) && v@.len()
                == 0 && *final(self) == *old(self)),
            old(self).staged().len() == 0 ==> (r matches Ok(v) && v@.len() == 0 && *final(self)
                == *old(self)),
            old(self).staged().len() >= old(self).max_blob_size() && old(self).staged().len() > 0
                ==> flush_outcome(*old(self), *final(self), r),
            !(r matches Err(MsgError::Index(_))) ==> final(self).staged().len() == 0
                || final(self).staged().len() < final(self).max_blob_size(),
    {
        if self.blob_data.len() >= self.max_blob_size {
            self.flush()
        } else {
            Ok(Vec::new())
        }
    }

    /// Stages a chunk and gives its reference. The empty chunk gets the
    /// reference of the empty chunk, its callback comes back at once and
    /// nothing else changes. Any other chunk goes at the end of the current
    /// blob and its callback waits for that blob.
    pub fn store_chunk(&mut self, chunk: Vec<u8>, kind: Kind, callback: C) -> (r: (
        ChunkRef,
        Option<(ChunkRef, C)>,
    ))
        requires
            old(self).wf(),
            old(self).staged().len() + chunk@.len() <= usize::MAX,
        ensures
            final(self).wf(),
            final(self).max_blob_size() == old(self).max_blob_size(),
            final(self).reliable() == old(self).reliable(),
            final(self).current_id() == old(self).current_id(),
            final(self).next_id() == old(self).next_id(),
            chunk@.len() == 0 ==> {
                &&& is_empty_chunk_ref(r.0, kind)
                &&& r.1 matches Some(p) && same_ref(p.0, r.0) && p.1 == callback
                &&& *final(self) == *old(self)
            },
            chunk@.len() > 0 ==> {
                &&& r.0.blob_id@ == old(self).current()
                &&& r.0.offset == old(self).staged().len()
                &&& r.0.length == chunk@.len()
                &&& r.0.kind == kind
                &&& r.1 is None
                &&& final(self).staged() == old(self).staged() + chunk@
                &&& final(self).pending().len() == old(self).pending().len() + 1
                &&& final(self).pending().drop_last() == old(self).pending()
                &&& same_ref(final(self).pending().last(), r.0)
                &&& final(self).queued().len() == old(self).queued().len() + 1
                &&& final(self).queued().drop_last() == old(self).queued()
                &&& same_ref(final(self).queued().last().0, r.0)
                &&& final(self).queued().last().1 == callback
                &&& final(self).blobs() == old(self).blobs()
                &&& final(self).rows() == old(self).rows()
                &&& final(self).current() == old(self).current()
            },
    {
        if chunk.len() == 0 {
            let id = ChunkRef { blob_id: vec![0u8], offset: 0, length: 0, kind };
            assert(id.blob_id@ =~= seq![0u8]);
            let cb_id = id.duplicate();
            return (id, Some((cb_id, callback)));
        }
        let id = ChunkRef {
            blob_id: copy_bytes(self.blob_desc.name.as_slice()),
            offset: self.blob_data.len(),
            length: chunk.len(),
            kind,
        };
        let mut i: usize = 0;
        while i < chunk.len()
            invariant
                i <= chunk@.len(),
                self.blob_data@ == old(self).blob_data@ + chunk@.subrange(0, i as int),
                old(self).blob_data@.len() + chunk@.len() <= usize::MAX,
                self.blob_refs == old(self).blob_refs,
                self.blob_desc == old(self).blob_desc,
                self.blob_index == old(self).blob_index,
                self.backend == old(self).backend,
                self.max_blob_size == old(self).max_blob_size,
            decreases chunk.len() - i,
        {
            self.blob_data.push(chunk[i]);
            i = i + 1;
            assert(self.blob_data@ =~= old(self).blob_data@ + chunk@.subrange(0, i as int));
        }
        assert(chunk@.subrange(0, i as int) =~= chunk@);
        let ret = id.duplicate();
        let ghost refs_before = self.blob_refs@;
        self.blob_refs.push((id, callback));
        assert(self.pending().drop_last() =~= refs_of(refs_before));
        proof {
            assert forall|k: int| 0 <= k < self.blob_refs@.len() implies {
                let r = #[trigger] self.blob_refs@[k].0;
                &&& r.blob_id@ == self.blob_desc.name@
                &&& r.length > 0
                &&& r.offset + r.length <= self.blob_data@.len()
            } by {
                if k < refs_before.len() {
                    assert(self.blob_refs@[k] == refs_before[k]);
                }
            }
        }
        (ret, None)
    }

    /// The bytes that `r` points to. A reference with offset and length 0
    /// gives no bytes without asking the backend. Otherwise the whole blob is
    /// fetched and the range cut out of it.
    pub fn retrieve(&self, r: &ChunkRef) -> (res: Result<Vec<u8>, MsgError>)
        ensures
            names_no_bytes(*r) ==> (res matches Ok(d) && d@.len() == 0),
            res matches Ok(d) ==> resolves(self.blobs(), *r, d@),
            !names_no_bytes(*r) && !self.blobs().contains_key(r.blob_id@) ==> res is Err,
            res == Err::<Vec<u8>, MsgError>(MsgError::OutOfRange) ==> self.blobs().contains_key(
                r.blob_id@,
            ) && r.offset + r.length > self.blobs()[r.blob_id@].len(),
            res matches Err(e) ==> e == MsgError::OutOfRange || e is Backend,
            !names_no_bytes(*r) && self.reliable() && self.blobs().contains_key(r.blob_id@)
                && r.offset + r.length <= self.blobs()[r.blob_id@].len() ==> res is Ok,
    {
        if r.offset == 0 && r.length == 0 {
            return Ok(Vec::new());
        }
        let blob = match self.backend.retrieve(r.blob_id.as_slice()) {
            Ok(b) => b,
            Err(e) => return Err(MsgError::Backend(e)),
        };
        slice_chunk(blob.as_slice(), r)
    }

    /// Stores `data` on the backend under `name`; the index is not involved.
    pub fn store_named(&mut self, name: &str, data: &[u8]) -> (r: Result<(), MsgError>)
        requires
            old(self).wf(),
        ensures
            final(self).wf(),
            final(self).max_blob_size() == old(self).max_blob_size(),
            final(self).reliable() == old(self).reliable(),
            final(self).current_id() == old(self).current_id(),
            final(self).rows() == old(self).rows(),
            final(self).staged() == old(self).staged(),
            r is Ok ==> final(self).blobs() == old(self).blobs().insert(name.spec_bytes(), data@),
            r matches Err(e) ==> e is Backend && final(self).blobs() == old(self).blobs(),
            old(self).reliable() ==> r is Ok,
    {
        match self.backend.store(name.as_bytes(), data) {
            Ok(()) => Ok(()),
            Err(e) => Err(MsgError::Backend(e)),
        }
    }

    /// The whole blob stored on the backend under `name`.
    pub fn retrieve_named(&self, name: &str) -> (r: Result<Vec<u8>, MsgError>)
        ensures
            r matches Ok(d) ==> self.blobs().contains_key(name.spec_bytes()) && d@ == self.blobs()[name.spec_bytes()],
            !self.blobs().contains_key(name.spec_bytes()) ==> r is Err,
    {
        match self.backend.retrieve(name.as_bytes()) {
            Ok(d) => Ok(d),
            Err(e) => Err(MsgError::Backend(e)),
        }
    }

    /// Records the blob of `r` in the index as committed; the empty chunk's
    /// reference names no blob and changes nothing.
    pub fn recover(&mut self, r: &ChunkRef) -> (res: Result<(), MsgError>)
        requires
            old(self).wf(),
        ensures
            final(self).wf(),
            final(self).max_blob_size() == old(self).max_blob_size(),
            final(self).reliable() == old(self).reliable(),
            final(self).current_id() == old(self).current_id(),
            final(self).blobs() == old(self).blobs(),
            final(self).staged() == old(self).staged(),
            final(self).current() == old(self).current(),
            names_no_bytes(*r) ==> res is Ok && final(self).rows() == old(self).rows(),
            !names_no_bytes(*r) && has_name(old(self).rows(), r.blob_id@) ==> res is Ok
                && final(self).rows() == old(self).rows(),
            !names_no_bytes(*r) && !has_name(old(self).rows(), r.blob_id@) && res is Ok ==> {
                &&& final(self).rows().len() == old(self).rows().len() + 1
                &&& final(self).rows().drop_last() == old(self).rows()
                &&& final(self).rows().last().name == r.blob_id@
                &&& final(self).rows().last().state == BlobState::Committed
            },
            !names_no_bytes(*r) && !has_name(old(self).rows(), r.blob_id@) && old(self).next_id()
                < u64::MAX ==> res is Ok,
            !names_no_bytes(*r) && !has_name(old(self).rows(), r.blob_id@) && res is Ok
                ==> final(self).rows().last().id == old(self).next_id(),
            res matches Err(e) ==> e == MsgError::Index(IndexError::Exhausted)
                && final(self).rows() == old(self).rows(),
    {
        if r.offset == 0 && r.length == 0 {
            return Ok(());
        }
        let ghost before = self.rows();
        match self.blob_index.recover(copy_bytes(r.blob_id.as_slice())) {
            Ok(()) => {
                proof {
                    if !has_name(before, r.blob_id@) {
                        assert(self.rows().drop_last() =~= before);
                    }
                }
                Ok(())
            },
            Err(e) => Err(MsgError::Index(e)),
        }
    }

    /// Tags the blob that holds `r`, found by name.
    pub fn tag(&mut self, r: &ChunkRef, t: Tag)
        requires
            old(self).wf(),
        ensures
            final(self).wf(),
            final(self).max_blob_size() == old(self).max_blob_size(),
            final(self).reliable() == old(self).reliable(),
            final(self).current_id() == old(self).current_id(),
            final(self).blobs() == old(self).blobs(),
            final(self).staged() == old(self).staged(),
            final(self).rows() == old(self).rows().map_values(
                |row: RowView|
                    if row.name == r.blob_id@ {
                        with_tag(row, t)
                    } else {
                        row
                    },
            ),
    {
        let d = BlobDesc { id: 0, name: copy_bytes(r.blob_id.as_slice()) };
        self.blob_index.tag(&d, t);
    }

    /// Tags every blob in the index.
    pub fn tag_all(&mut self, t: Tag)
        requires
            old(self).wf(),
        ensures
            final(self).wf(),
            final(self).max_blob_size() == old(self).max_blob_size(),
            final(self).reliable() == old(self).reliable(),
            final(self).current_id() == old(self).current_id(),
            final(self).blobs() == old(self).blobs(),
            final(self).staged() == old(self).staged(),
            final(self).rows() == old(self).rows().map_values(|row: RowView| with_tag(row, t)),
    {
        self.blob_index.tag_all(t);
    }

    /// Deletes the blobs tagged `t` from the backend, one by one, and then
    /// their rows from the index. On the first backend failure it stops with
    /// that error and leaves the index as it was.
    pub fn delete_by_tag(&mut self, t: Tag) -> (r: Result<(), MsgError>)
        requires
            old(self).wf(),
        ensures
            final(self).wf(),
            final(self).max_blob_size() == old(self).max_blob_size(),
            final(self).reliable() == old(self).reliable(),
            final(self).current_id() == old(self).current_id(),
            final(self).staged() == old(self).staged(),
            final(self).pending() == old(self).pending(),
            names_tagged(old(self).rows(), t).len() == 0 ==> r is Ok,
            old(self).reliable() ==> r is Ok,
            r is Ok ==> final(self).rows() == untagged(old(self).rows(), t),
            r is Ok ==> deleted_first(
                old(self).blobs(),
                final(self).blobs(),
                names_tagged(old(self).rows(), t),
                names_tagged(old(self).rows(), t).len() as int,
            ),
            r matches Err(e) ==> e is Backend && final(self).rows() == old(self).rows()
                && exists|j: int|
                0 <= j < names_tagged(old(self).rows(), t).len() && deleted_first(
                    old(self).blobs(),
                    final(self).blobs(),
                    names_tagged(old(self).rows(), t),
                    j,
                ),
    {
        let blobs = self.blob_index.list_by_tag(t);
        let ghost names = names_tagged(old(self).rows(), t);
        assert(crate::index::desc_names(blobs@).len() == blobs@.len());
        assert(names.take(0) =~= Seq::<Seq<u8>>::empty());
        let mut i: usize = 0;
        while i < blobs.len()
            invariant
                i <= blobs@.len(),
                names == names_tagged(old(self).rows(), t),
                blobs@.len() == names.len(),
                crate::index::desc_names(blobs@) == names,
                self.blob_index == old(self).blob_index,
                self.blob_data == old(self).blob_data,
                self.blob_refs == old(self).blob_refs,
                self.blob_desc == old(self).blob_desc,
                self.max_blob_size == old(self).max_blob_size,
                self.wf(),
                self.backend.reliable() == old(self).backend.reliable(),
                deleted_first(old(self).backend.blobs(), self.backend.blobs(), names, i as int),
            decreases blobs.len() - i,
        {
            assert(names[i as int] == blobs@[i as int].name@);
            let ghost before = self.backend.blobs();
            match self.backend.delete(blobs[i].name.as_slice()) {
                Ok(()) => {},
                Err(e) => {
                    assert(self.backend.blobs() == before);
                    assert(names_tagged(old(self).rows(), t) == names);
                    assert(names.len() > i);
                    assert(deleted_first(
                        old(self).backend.blobs(),
                        self.backend.blobs(),
                        names,
                        i as int,
                    ));
                    assert(self.blobs() == self.backend.blobs());
                    assert(old(self).blobs() == old(self).backend.blobs());
                    assert(exists|j: int|
                        0 <= j < names_tagged(old(self).rows(), t).len() && deleted_first(
                            old(self).blobs(),
                            self.blobs(),
                            names_tagged(old(self).rows(), t),
                            j,
                        ));
                    return Err(MsgError::Backend(e));
                },
            }
            proof {
                let after = self.backend.blobs();
                assert(names.take(i + 1) =~= names.take(i as int).push(names[i as int]));
                assert forall|n: Seq<u8>| !names.take(i + 1).contains(n) implies (#[trigger] after.contains_key(n)
                    == old(self).backend.blobs().contains_key(n) && (after.contains_key(n)
                    ==> after[n] == old(self).backend.blobs()[n])) by {
                    if names.take(i as int).contains(n) {
                        let w = choose|w: int| 0 <= w < i && names.take(i as int)[w] == n;
                        assert(names.take(i + 1)[w] == n);
                    }
                    assert(names.take(i + 1)[i as int] == names[i as int]);
                }
            }
            i = i + 1;
        }
        self.blob_index.delete_by_tag(t);
        Ok(())
    }

    /// Writes the current blob out, whatever its size, and then the index.
    pub fn flush_all(&mut self) -> (r: Result<Vec<(ChunkRef, C)>, MsgError>)
        requires
            old(self).wf(),
        ensures
            final(self).wf(),
            final(self).max_blob_size() == old(self).max_blob_size(),
            final(self).reliable() == old(self).reliable(),
            final(self).current_id() >= old(self).current_id(),
            old(self).staged().len() == 0 ==> (r matches Ok(v) && v@.len() == 0 && *final(self)
                == *old(self)),
            old(self).staged().len() > 0 ==> flush_outcome(*old(self), *final(self), r),
            r is Ok ==> final(self).staged().len() == 0 && final(self).pending().len() == 0,
    {
        proof {
            if self.blob_refs@.len() > 0 {
                let first = self.blob_refs@[0].0;
                assert(first.offset + first.length <= self.blob_data@.len());
            }
        }
        let r = self.flush();
        self.blob_index.flush();
        r
    }

    /// Empties the index and the staged blob, drops the waiting callbacks and
    /// reserves a new current blob.
    pub fn reset(&mut self) -> (r: Result<(), MsgError>)
        requires
            old(self).wf(),
        ensures
            r is Ok,
            final(self).wf(),
            final(self).max_blob_size() == old(self).max_blob_size(),
            final(self).reliable() == old(self).reliable(),
            final(self).blobs() == old(self).blobs(),
            final(self).staged().len() == 0,
            final(self).pending().len() == 0,
            final(self).rows() == seq![reserved_row(*final(self))],
    {
        let _ = self.blob_index.reset();
        self.blob_refs = Vec::new();
        self.blob_data = Vec::new();
        assert(self.pending() =~= Seq::<ChunkRef>::empty());
        assert(!has_name(self.rows(), be_bytes(self.blob_index.next_id())));
        match self.reserve_new_blob() {
            Ok(_) => {
                assert(self.rows() =~= seq![reserved_row(*self)]);
                Ok(())
            },
            Err(e) => Err(e),
        }
    }

    /// Handles one request. For `Store` the reference is fixed before the
    /// blob is possibly written out, and where that write fails the reply
    /// stays `StoreOk` and the error comes back in `failure`. The callbacks
    /// of the chunks made durable come back in `ready`, as does the empty
    /// chunk's callback, at once.
    pub fn handle(&mut self, msg: Msg<C>) -> (h: Handled<C>)
        requires
            old(self).wf(),
        ensures
            final(self).wf(),
            final(self).max_blob_size() == old(self).max_blob_size(),
            final(self).reliable() == old(self).reliable(),
            final(self).current_id() >= old(self).current_id(),
            !(msg is Store) ==> h.failure is None,
            msg matches Msg::Store(chunk, kind, cb) ==> (chunk@.len() == 0 ==> (h.reply matches Ok(
                Reply::StoreOk(r),
            ) && is_empty_chunk_ref(r, kind) && h.ready@.len() == 1 && same_ref(h.ready@[0].0, r)
                && h.ready@[0].1 == cb && h.failure is None && *final(self) == *old(self))),
            msg matches Msg::Store(chunk, _, _) ==> final(self).staged().len() <= old(self).staged().len() + chunk@.len(),
            msg matches Msg::Store(chunk, kind, cb) ==> (chunk@.len() > 0 && old(self).staged().len()
                + chunk@.len() <= usize::MAX ==> store_outcome(
                *old(self),
                *final(self),
                chunk@,
                kind,
                cb,
                h,
            )),
            msg matches Msg::Retrieve(r) ==> (!names_no_bytes(r) && old(self).reliable() && old(
                self).blobs().contains_key(r.blob_id@) && r.offset + r.length <= old(self).blobs()[
                r.blob_id@].len() ==> h.reply matches Ok(Reply::RetrieveOk(_))),
            msg matches Msg::DeleteByTag(_) ==> (old(self).reliable() ==> h.reply is Ok),
            msg is StoreNamed ==> (old(self).reliable() ==> h.reply is Ok),
            msg matches Msg::Store(chunk, _, _) ==> (old(self).staged().len() + chunk@.len()
                > usize::MAX ==> h.reply == Err::<Reply, MsgError>(MsgError::OutOfRange)
                && *final(self) == *old(self)),
            msg is Retrieve ==> *final(self) == *old(self) && h.ready@.len() == 0,
            msg matches Msg::Retrieve(r) ==> (names_no_bytes(r) ==> (h.reply matches Ok(
                Reply::RetrieveOk(d),
            ) && d@.len() == 0)),
            msg matches Msg::Retrieve(r) ==> (h.reply matches Ok(Reply::RetrieveOk(d)) ==> resolves(
                old(self).blobs(),
                r,
                d@,
            )),
            msg matches Msg::Retrieve(r) ==> (h.reply matches Err(e) ==> e == MsgError::OutOfRange
                || e is Backend),
            msg matches Msg::Retrieve(r) ==> (h.reply == Err::<Reply, MsgError>(MsgError::OutOfRange)
                ==> old(self).blobs().contains_key(r.blob_id@) && r.offset + r.length > old(
                self).blobs()[r.blob_id@].len()),
            msg matches Msg::Retrieve(r) ==> (!names_no_bytes(r) && !old(self).blobs().contains_key(
                r.blob_id@,
            ) ==> h.reply is Err),
            msg matches Msg::Tag(r, t) ==> h.reply == Ok::<Reply, MsgError>(Reply::Acknowledged)
                && final(self).rows() == old(self).rows().map_values(
                |row: RowView|
                    if row.name == r.blob_id@ {
                        with_tag(row, t)
                    } else {
                        row
                    },
            ) && final(self).blobs() == old(self).blobs() && final(self).staged() == old(self).staged(),
            msg matches Msg::Recover(r) ==> (names_no_bytes(r) || has_name(
                old(self).rows(),
                r.blob_id@,
            ) ==> h.reply == Ok::<Reply, MsgError>(Reply::RecoverOk) && final(self).rows() == old(self).rows()),
            msg matches Msg::Recover(r) ==> (!names_no_bytes(r) && !has_name(
                old(self).rows(),
                r.blob_id@,
            ) && old(self).next_id() < u64::MAX ==> {
                &&& h.reply == Ok::<Reply, MsgError>(Reply::RecoverOk)
                &&& final(self).rows().drop_last() == old(self).rows()
                &&& final(self).rows().last().name == r.blob_id@
                &&& final(self).rows().last().state == BlobState::Committed
                &&& final(self).rows().last().id == old(self).next_id()
            }),
            msg matches Msg::Recover(r) ==> final(self).blobs() == old(self).blobs()
                && final(self).staged() == old(self).staged(),
            msg matches Msg::TagAll(t) ==> h.reply == Ok::<Reply, MsgError>(Reply::Acknowledged)
                && final(self).rows() == old(self).rows().map_values(
                |row: RowView| with_tag(row, t),
            ) && final(self).blobs() == old(self).blobs(),
            msg matches Msg::DeleteByTag(t) ==> (names_tagged(old(self).rows(), t).len() == 0
                ==> h.reply is Ok),
            msg matches Msg::DeleteByTag(t) ==> (h.reply is Ok ==> final(self).rows() == untagged(
                old(self).rows(),
                t,
            ) && deleted_first(
                old(self).blobs(),
                final(self).blobs(),
                names_tagged(old(self).rows(), t),
                names_tagged(old(self).rows(), t).len() as int,
            )),
            msg matches Msg::DeleteByTag(t) ==> (h.reply matches Err(e) ==> e is Backend && final(self).rows() == old(self).rows()),
            msg is DeleteByTag ==> final(self).staged() == old(self).staged() && final(self).pending() == old(self).pending(),
            msg is Flush && old(self).staged().len() == 0 ==> h.reply == Ok::<Reply, MsgError>(
                Reply::FlushOk,
            ) && h.ready@.len() == 0 && *final(self) == *old(self),
            msg is Flush && old(self).staged().len() > 0 ==> (h.reply is Ok ==> h.reply == Ok::<
                Reply,
                MsgError,
            >(Reply::FlushOk) && flush_outcome(
                *old(self),
                *final(self),
                Ok::<Vec<(ChunkRef, C)>, MsgError>(h.ready),
            )),
            msg is Flush && old(self).staged().len() > 0 ==> (h.reply matches Err(e)
                ==> flush_outcome(*old(self), *final(self), Err::<Vec<(ChunkRef, C)>, MsgError>(e))),
    {
        match msg {
            Msg::Store(chunk, kind, callback) => {
                if chunk.len() > usize::MAX - self.blob_data.len() {
                    return Handled { reply: Err(MsgError::OutOfRange), ready: Vec::new(), failure: None };
                }
                let (id, now) = self.store_chunk(chunk, kind, callback);
                match now {
                    Some(p) => {
                        let mut ready: Vec<(ChunkRef, C)> = Vec::new();
                        ready.push(p);
                        Handled { reply: Ok(Reply::StoreOk(id)), ready, failure: None }
                    },
                    None => {
                        match self.maybe_flush() {
                            Ok(ready) => Handled { reply: Ok(Reply::StoreOk(id)), ready, failure: None },
                            Err(e) => Handled {
                                reply: Ok(Reply::StoreOk(id)),
                                ready: Vec::new(),
                                failure: Some(e),
                            },
                        }
                    },
                }
            },
            Msg::Retrieve(id) => {
                let reply = match self.retrieve(&id) {
                    Ok(d) => Ok(Reply::RetrieveOk(d)),
                    Err(e) => Err(e),
                };
                Handled { reply, ready: Vec::new(), failure: None }
            },
            Msg::StoreNamed(name, data) => {
                let reply = match self.store_named(name.as_str(), data.as_slice()) {
                    Ok(()) => Ok(Reply::StoreNamedOk(name)),
                    Err(e) => Err(e),
                };
                Handled { reply, ready: Vec::new(), failure: None }
            },
            Msg::RetrieveNamed(name) => {
                let reply = match self.retrieve_named(name.as_str()) {
                    Ok(d) => Ok(Reply::RetrieveOk(d)),
                    Err(e) => Err(e),
                };
                Handled { reply, ready: Vec::new(), failure: None }
            },
            Msg::Recover(id) => {
                let reply = match self.recover(&id) {
                    Ok(()) => Ok(Reply::RecoverOk),
                    Err(e) => Err(e),
                };
                Handled { reply, ready: Vec::new(), failure: None }
            },
            Msg::Tag(id, t) => {
                self.tag(&id, t);
                Handled { reply: Ok(Reply::Acknowledged), ready: Vec::new(), failure: None }
            },
            Msg::TagAll(t) => {
                self.tag_all(t);
                Handled { reply: Ok(Reply::Acknowledged), ready: Vec::new(), failure: None }
            },
            Msg::DeleteByTag(t) => {
                let reply = match self.delete_by_tag(t) {
                    Ok(()) => Ok(Reply::Acknowledged),
                    Err(e) => Err(e),
                };
                Handled { reply, ready: Vec::new(), failure: None }
            },
            Msg::Flush => {
                match self.flush_all() {
                    Ok(ready) => Handled { reply: Ok(Reply::FlushOk), ready, failure: None },
                    Err(e) => Handled { reply: Err(e), ready: Vec::new(), failure: None },
                }
            },
        }
    }

    /// Makes a newly reserved blob the current one; gives back the one before.
    fn reserve_new_blob(&mut self) -> (r: Result<BlobDesc, MsgError>)
        requires
            old(self).blob_index.wf(),
        ensures
            final(self).blob_index.wf(),
            final(self).backend == old(self).backend,
            final(self).blob_data == old(self).blob_data,
            final(self).blob_refs == old(self).blob_refs,
            final(self).max_blob_size == old(self).max_blob_size,
            !has_name(old(self).rows(), be_bytes(old(self).blob_index.next_id()))
                && old(self).blob_index.next_id() < u64::MAX ==> r is Ok,
            match r {
                Ok(d) => {
                    &&& d == old(self).blob_desc
                    &&& final(self).blob_desc.name@ == be_bytes(final(self).blob_desc.id)
                    &&& final(self).blob_desc.id < final(self).blob_index.next_id()
                    &&& final(self).blob_index.next_id() == final(self).blob_desc.id + 1
                    &&& final(self).blob_desc.id >= old(self).blob_index.next_id()
                    &&& !has_name(old(self).rows(), final(self).current())
                    &&& final(self).rows() == old(self).rows().push(
                        RowView {
                            id: final(self).blob_desc.id,
                            name: final(self).current(),
                            state: BlobState::Reserved,
                            tag: None,
                        },
                    )
                },
                Err(e) => e == MsgError::Index(IndexError::Exhausted) && *final(self) == *old(self),
            },
    {
        match self.blob_index.reserve() {
            Ok(d) => {
                let mut d = d;
                std::mem::swap(&mut d, &mut self.blob_desc);
                Ok(d)
            },
            Err(e) => Err(MsgError::Index(e)),
        }
    }
}

/// The current blob of `s` holds `chunk` where `r` points.
pub open spec fn holds_chunk<B: StoreBackend, C>(s: Store<B, C>, r: ChunkRef, chunk: Seq<u8>) -> bool {
    &&& r.blob_id@ == s.current()
    &&& r.length == chunk.len()
    &&& r.offset + r.length <= s.staged().len()
    &&& s.staged().subrange(r.offset as int, r.offset + r.length) == chunk
}

/// A chunk staged by `store_chunk` (taking `s0` to `s1` and giving `r`) is held
/// by the current blob where its reference points.
pub proof fn lemma_stage_holds_chunk<B: StoreBackend, C>(
    s0: Store<B, C>,
    s1: Store<B, C>,
    chunk: Seq<u8>,
    r: ChunkRef,
)
    requires
        r.blob_id@ == s0.current(),
        r.offset == s0.staged().len(),
        r.length == chunk.len(),
        s1.current() == s0.current(),
        s1.staged() == s0.staged() + chunk,
    ensures
        holds_chunk(s1, r, chunk),
{
    assert(s1.staged().subrange(r.offset as int, r.offset + r.length) =~= chunk);
}

/// Staging more bytes in the same blob keeps every chunk staged before.
pub proof fn lemma_stage_keeps_chunk<B: StoreBackend, C>(
    s0: Store<B, C>,
    s1: Store<B, C>,
    more: Seq<u8>,
    r: ChunkRef,
    chunk: Seq<u8>,
)
    requires
        holds_chunk(s0, r, chunk),
        s1.current() == s0.current(),
        s1.staged() == s0.staged() + more,
    ensures
        holds_chunk(s1, r, chunk),
{
    assert(s1.staged().subrange(r.offset as int, r.offset + r.length) =~= s0.staged().subrange(
        r.offset as int,
        r.offset + r.length,
    ));
}

/// Once `flush` writes the current blob out (taking `s0` to `s1`), every
/// chunk it held resolves on the backend to its bytes.
pub proof fn lemma_flush_resolves_chunk<B: StoreBackend, C>(
    s0: Store<B, C>,
    s1: Store<B, C>,
    r: ChunkRef,
    chunk: Seq<u8>,
)
    requires
        holds_chunk(s0, r, chunk),
        chunk.len() > 0,
        s1.blobs() == s0.blobs().insert(s0.current(), s0.staged()),
    ensures
        resolves(s1.blobs(), r, chunk),
{
}

/// A later `flush` (taking `s0` to `s1`) of another blob keeps a chunk that
/// resolved before resolving to the same bytes.
pub proof fn lemma_flush_keeps_resolved<B: StoreBackend, C>(
    s0: Store<B, C>,
    s1: Store<B, C>,
    r: ChunkRef,
    chunk: Seq<u8>,
)
    requires
        resolves(s0.blobs(), r, chunk),
        r.blob_id@ != s0.current(),
        s1.blobs() == s0.blobs().insert(s0.current(), s0.staged()),
    ensures
        resolves(s1.blobs(), r, chunk),
{
}

/// Capacity bound: a `Store` request of a non-empty chunk (taking `s0` to
/// `s1`) into a blob staged under the blob size leaves at most the blob size
/// plus the chunk staged, and under the blob size unless no blob could be
/// reserved to write the full one out.
pub proof fn lemma_capacity_bound<B: StoreBackend, C>(
    s0: Store<B, C>,
    s1: Store<B, C>,
    chunk: Seq<u8>,
    kind: Kind,
    cb: C,
    h: Handled<C>,
)
    requires
        chunk.len() > 0,
        store_outcome(s0, s1, chunk, kind, cb, h),
        s0.staged().len() < s0.max_blob_size(),
    ensures
        s1.staged().len() < s0.max_blob_size() + chunk.len(),
        !(h.failure matches Some(MsgError::Index(_))) ==> s1.staged().len() < s0.max_blob_size(),
{
}

/// What a well-formed store keeps: the current blob's name is the eight bytes
/// of its id, that id is below the index's next id, no two rows share a
/// name, and every queued reference points into the staged bytes of the
/// current blob.
pub proof fn lemma_store_wf_facts<B: StoreBackend, C>(s: Store<B, C>)
    requires
        s.wf(),
    ensures
        s.current() == be_bytes(s.current_id()),
        s.current_id() < s.next_id(),
        forall|i: int, j: int|
            0 <= i < j < s.rows().len() ==> s.rows()[i].name != s.rows()[j].name,
        s.pending() == refs_of(s.queued()),
        forall|k: int|
            0 <= k < s.queued().len() ==> {
                let r = #[trigger] s.queued()[k].0;
                &&& r.blob_id@ == s.current()
                &&& r.length > 0
                &&& r.offset + r.length <= s.staged().len()
            },
{
}

/// Identity after flush: a chunk that `store_chunk` staged (taking `s0` to
/// `s1` and giving `r`), followed by more bytes staged in the same blob (`s1`
/// to `s2`) and a `flush` of it (`s2` to `s3`), is what `r` resolves to.
pub proof fn lemma_identity_after_flush<B: StoreBackend, C>(
    s0: Store<B, C>,
    s1: Store<B, C>,
    s2: Store<B, C>,
    s3: Store<B, C>,
    chunk: Seq<u8>,
    more: Seq<u8>,
    r: ChunkRef,
)
    requires
        chunk.len() > 0,
        r.blob_id@ == s0.current(),
        r.offset == s0.staged().len(),
        r.length == chunk.len(),
        s1.current() == s0.current(),
        s1.staged() == s0.staged() + chunk,
        s2.current() == s1.current(),
        s2.staged() == s1.staged() + more,
        s3.blobs() == s2.blobs().insert(s2.current(), s2.staged()),
    ensures
        resolves(s3.blobs(), r, chunk),
{
    lemma_stage_holds_chunk(s0, s1, chunk, r);
    lemma_stage_keeps_chunk(s1, s2, more, r, chunk);
    lemma_flush_resolves_chunk(s2, s3, r, chunk);
}

/// Identity under repeated flushing: a chunk that resolves in a blob older
/// than the current one still resolves after the current blob is written out.
pub proof fn lemma_flush_keeps_older_chunk<B: StoreBackend, C>(
    s0: Store<B, C>,
    s1: Store<B, C>,
    r: ChunkRef,
    chunk: Seq<u8>,
    id: u64,
)
    requires
        s0.wf(),
        resolves(s0.blobs(), r, chunk),
        r.blob_id@ == be_bytes(id),
        id < s0.current_id(),
        s1.blobs() == s0.blobs().insert(s0.current(), s0.staged()),
    ensures
        resolves(s1.blobs(), r, chunk),
{
    lemma_be_value_of_bytes(id);
    lemma_be_value_of_bytes(s0.current_id());
    lemma_flush_keeps_resolved(s0, s1, r, chunk);
}

/// Identity after a `Store` that filled its blob: where the `Store` request
/// (taking `s0` to `s1`) wrote the blob out without failure, the chunk's
/// reference already resolves on the backend to the chunk.
pub proof fn lemma_store_that_flushes_resolves<B: StoreBackend, C>(
    s0: Store<B, C>,
    s1: Store<B, C>,
    chunk: Seq<u8>,
    kind: Kind,
    cb: C,
    h: Handled<C>,
    r: ChunkRef,
)
    requires
        chunk.len() > 0,
        store_outcome(s0, s1, chunk, kind, cb, h),
        h.reply == Ok::<Reply, MsgError>(Reply::StoreOk(r)),
        (s0.staged() + chunk).len() >= s0.max_blob_size(),
        h.failure is None,
    ensures
        resolves(s1.blobs(), r, chunk),
{
    let total = s0.staged() + chunk;
    assert(total.subrange(r.offset as int, r.offset + r.length) =~= chunk);
}

/// Identity after a `Flush`: a chunk that a `Store` request (taking `s0` to
/// `s1`) left staged resolves to its bytes once a `Flush` (taking `s1` to
/// `s2`) succeeds, and the chunk's callback comes back with its reference.
pub proof fn lemma_store_then_flush_resolves<B: StoreBackend, C>(
    s0: Store<B, C>,
    s1: Store<B, C>,
    s2: Store<B, C>,
    chunk: Seq<u8>,
    kind: Kind,
    cb: C,
    h: Handled<C>,
    r: ChunkRef,
    ready: Vec<(ChunkRef, C)>,
)
    requires
        chunk.len() > 0,
        store_outcome(s0, s1, chunk, kind, cb, h),
        h.reply == Ok::<Reply, MsgError>(Reply::StoreOk(r)),
        (s0.staged() + chunk).len() < s0.max_blob_size(),
        flush_outcome(s1, s2, Ok::<Vec<(ChunkRef, C)>, MsgError>(ready)),
    ensures
        resolves(s2.blobs(), r, chunk),
        ready@.len() > 0 && ready@.last().1 == cb && same_ref(ready@.last().0, r),
{
    let total = s0.staged() + chunk;
    assert(total.subrange(r.offset as int, r.offset + r.length) =~= chunk);
}

/// After `TagAll(t)` (taking `s0` to `s1`) and a successful `DeleteByTag(t)`
/// (taking `s1` to `s2`), no blob that had a row in the index is left on the
/// backend, so retrieving a reference into one fails.
pub proof fn lemma_tag_all_then_delete<B: StoreBackend, C>(
    s0: Store<B, C>,
    s1: Store<B, C>,
    s2: Store<B, C>,
    t: Tag,
    name: Seq<u8>,
)
    requires
        s1.rows() == s0.rows().map_values(|row: RowView| with_tag(row, t)),
        deleted_first(
            s1.blobs(),
            s2.blobs(),
            names_tagged(s1.rows(), t),
            names_tagged(s1.rows(), t).len() as int,
        ),
        has_name(s0.rows(), name),
    ensures
        !s2.blobs().contains_key(name),
{
    lemma_tag_closure(s0.rows(), t);
    let i = choose|i: int| 0 <= i < s0.rows().len() && #[trigger] s0.rows()[i].name == name;
    assert(row_names(s0.rows())[i] == name);
}

/// After every row is tagged `t`, the names tagged `t` are the names of all
/// rows, so deleting by `t` removes every blob the index knows from the backend.
pub proof fn lemma_tag_closure(rows: Seq<RowView>, t: Tag)
    ensures
        names_tagged(rows.map_values(|r: RowView| with_tag(r, t)), t) == row_names(rows),
    decreases rows.len(),
{
    let tagged = rows.map_values(|r: RowView| with_tag(r, t));
    reveal_with_fuel(Seq::filter, 1);
    if rows.len() == 0 {
        assert(tagged.filter(tagged_with(t)) =~= Seq::<RowView>::empty());
        assert(row_names(rows) =~= Seq::<Seq<u8>>::empty());
    } else {
        lemma_tag_closure(rows.drop_last(), t);
        assert(tagged.drop_last() =~= rows.drop_last().map_values(|r: RowView| with_tag(r, t)));
        assert(tagged_with(t)(tagged.last()));
        assert(tagged.filter(tagged_with(t)) == tagged.drop_last().filter(tagged_with(t)).push(
            tagged.last(),
        ));
        assert(row_names(rows) =~= row_names(rows.drop_last()).push(rows.last().name));
        assert(row_names(tagged.filter(tagged_with(t))) =~= row_names(
            tagged.drop_last().filter(tagged_with(t)),
        ).push(tagged.last().name));
    }
}

} // verus!
