//! Chunk kinds, chunk references and their compact byte encoding.
//!
//! An encoded reference is, in order: the length of `blob_id` as a big-endian
//! 64-bit integer, the bytes of `blob_id`, `offset` and `length` as big-endian
//! signed 64-bit integers, and one byte for the kind. The format carries no
//! schema version, and it is not Cap'n Proto's packed message: references
//! written in that form do not decode here.

use vstd::prelude::*;

verus! {

/// What a chunk holds in the tree built over the store.
#[derive(Debug, Clone, Copy, PartialEq, Eq, Structural)]
pub enum Kind {
    TreeBranch,
    TreeLeaf,
}

/// Locates a stored chunk: the blob that holds it and the byte range in it.
#[derive(Debug, Clone)]
pub struct ChunkRef {
    pub blob_id: Vec<u8>,
    pub offset: usize,
    pub length: usize,
    pub kind: Kind,
}

/// Why bytes do not decode to a chunk reference.
#[derive(Debug, Clone, Copy, PartialEq, Eq, Structural)]
pub enum DecodeError {
    /// The input ends before the record does.
    Truncated,
    /// The kind byte names no kind.
    UnknownKind(u8),
    /// The offset or the length is negative as a signed 64-bit integer, or
    /// beyond what a `usize` holds.
    OutOfRange,
}

impl PartialEq for ChunkRef {
    fn eq(&self, o: &ChunkRef) -> (r: bool) {
        let mut same = self.blob_id.len() == o.blob_id.len();
        let mut i: usize = 0;
        while same && i < self.blob_id.len()
            invariant
                i <= self.blob_id.len(),
                same ==> self.blob_id.len() == o.blob_id.len(),
                same ==> forall|j: int| 0 <= j < i ==> self.blob_id@[j] == o.blob_id@[j],
                !same ==> self.blob_id@ != o.blob_id@,
            decreases self.blob_id.len() - i,
        {
            if self.blob_id[i] != o.blob_id[i] {
                same = false;
            }
            i = i + 1;
        }
        proof {
            if same {
                assert(self.blob_id@ =~= o.blob_id@);
            }
        }
        same && self.offset == o.offset && self.length == o.length && self.kind == o.kind
    }
}

impl vstd::std_specs::cmp::PartialEqSpecImpl for ChunkRef {
    open spec fn obeys_eq_spec() -> bool {
        true
    }

    open spec fn eq_spec(&self, o: &ChunkRef) -> bool {
        self.blob_id@ == o.blob_id@ && self.offset == o.offset && self.length == o.length
            && self.kind == o.kind
    }
}

impl Eq for ChunkRef {}

/// The eight bytes of `n`, most significant first.
#[verifier::opaque]
pub open spec fn be_bytes(n: u64) -> Seq<u8> {
    seq![
        (n >> 56u64) as u8,
        (n >> 48u64) as u8,
        (n >> 40u64) as u8,
        (n >> 32u64) as u8,
        (n >> 24u64) as u8,
        (n >> 16u64) as u8,
        (n >> 8u64) as u8,
        n as u8,
    ]
}

/// The integer that eight bytes, most significant first, spell.
#[verifier::opaque]
pub open spec fn be_value(b: Seq<u8>) -> u64
    recommends
        b.len() >= 8,
{
    ((b[0] as u64) << 56u64) | ((b[1] as u64) << 48u64) | ((b[2] as u64) << 40u64) | ((
    b[3] as u64) << 32u64) | ((b[4] as u64) << 24u64) | ((b[5] as u64) << 16u64) | ((
    b[6] as u64) << 8u64) | (b[7] as u64)
}

/// The byte that stands for a kind.
pub open spec fn kind_byte(k: Kind) -> u8 {
    match k {
        Kind::TreeBranch => 0,
        Kind::TreeLeaf => 1,
    }
}

/// The largest value of a signed 64-bit integer.
pub const I64_MAX: u64 = 0x7fff_ffff_ffff_ffff;

/// Offset and length fit the signed 64-bit fields of the encoding, and the
/// blob id is no longer than a `Vec` can be.
pub open spec fn is_legal(r: ChunkRef) -> bool {
    r.offset <= I64_MAX && r.length <= I64_MAX && r.blob_id@.len() <= usize::MAX
}

/// The bytes that encode a reference.
pub open spec fn encoding(r: ChunkRef) -> Seq<u8> {
    be_bytes(r.blob_id@.len() as u64) + r.blob_id@ + be_bytes(r.offset as u64) + be_bytes(
        r.length as u64,
    ) + seq![kind_byte(r.kind)]
}

/// What decoding yields from the front of `b`: the blob id, offset, length and
/// kind, and how many bytes the record took; or why it fails.
pub open spec fn decoded(b: Seq<u8>) -> Result<(Seq<u8>, u64, u64, Kind, int), DecodeError> {
    if b.len() < 8 {
        Err(DecodeError::Truncated)
    } else {
        let n = be_value(b.subrange(0, 8)) as int;
        if b.len() < 25 + n {
            Err(DecodeError::Truncated)
        } else {
            let off = be_value(b.subrange(8 + n, 16 + n));
            let len = be_value(b.subrange(16 + n, 24 + n));
            let tag = b[24 + n];
            if off > I64_MAX || len > I64_MAX || off > usize::MAX || len > usize::MAX {
                Err(DecodeError::OutOfRange)
            } else if tag == 0 {
                Ok((b.subrange(8, 8 + n), off, len, Kind::TreeBranch, 25 + n))
            } else if tag == 1 {
                Ok((b.subrange(8, 8 + n), off, len, Kind::TreeLeaf, 25 + n))
            } else {
                Err(DecodeError::UnknownKind(tag))
            }
        }
    }
}

/// A reference matches a successful decoding result.
pub open spec fn matches_decoded(r: ChunkRef, d: (Seq<u8>, u64, u64, Kind, int)) -> bool {
    r.blob_id@ == d.0 && r.offset == d.1 && r.length == d.2 && r.kind == d.3
}

/// Reading back the eight bytes of `n` gives `n`.
pub proof fn lemma_be_value_of_bytes(n: u64)
    ensures
        be_value(be_bytes(n)) == n,
{
    reveal(be_value);
    reveal(be_bytes);
    assert(((((n >> 56u64) as u8) as u64) << 56u64) | ((((n >> 48u64) as u8) as u64) << 48u64)
        | ((((n >> 40u64) as u8) as u64) << 40u64) | ((((n >> 32u64) as u8) as u64) << 32u64) | ((((
    n >> 24u64) as u8) as u64) << 24u64) | ((((n >> 16u64) as u8) as u64) << 16u64) | ((((n
        >> 8u64) as u8) as u64) << 8u64) | ((n as u8) as u64) == n) by (bit_vector);
}

/// Decoding the encoding of a legal reference, with any bytes after it, gives
/// the reference back and takes exactly the bytes of its encoding.
#[verifier::rlimit(50)]
pub proof fn lemma_round_trip(r: ChunkRef, rest: Seq<u8>)
    requires
        is_legal(r),
    ensures
        decoded(encoding(r) + rest) matches Ok(d) && matches_decoded(r, d) && d.4 == encoding(
            r,
        ).len(),
{
    let b = encoding(r) + rest;
    reveal(be_bytes);
    let n = r.blob_id@.len() as int;
    lemma_be_value_of_bytes(n as u64);
    lemma_be_value_of_bytes(r.offset as u64);
    lemma_be_value_of_bytes(r.length as u64);
    assert(b.subrange(0, 8) =~= be_bytes(n as u64));
    assert(b.subrange(8, 8 + n) =~= r.blob_id@);
    assert(b.subrange(8 + n, 16 + n) =~= be_bytes(r.offset as u64));
    assert(b.subrange(16 + n, 24 + n) =~= be_bytes(r.length as u64));
    assert(b[24 + n] == kind_byte(r.kind));
}

pub(crate) fn push_u64(out: &mut Vec<u8>, n: u64)
    ensures
        final(out)@ == old(out)@ + be_bytes(n),
{
    reveal(be_bytes);
    out.push((n >> 56u64) as u8);
    out.push((n >> 48u64) as u8);
    out.push((n >> 40u64) as u8);
    out.push((n >> 32u64) as u8);
    out.push((n >> 24u64) as u8);
    out.push((n >> 16u64) as u8);
    out.push((n >> 8u64) as u8);
    out.push(n as u8);
    assert(final(out)@ =~= old(out)@ + be_bytes(n));
}

fn read_u64(b: &[u8], at: usize) -> (r: u64)
    requires
        at + 8 <= b@.len(),
    ensures
        r == be_value(b@.subrange(at as int, at + 8)),
{
    reveal(be_value);
    ((b[at] as u64) << 56u64) | ((b[at + 1] as u64) << 48u64) | ((b[at + 2] as u64) << 40u64) | ((
    b[at + 3] as u64) << 32u64) | ((b[at + 4] as u64) << 24u64) | ((b[at + 5] as u64) << 16u64)
        | ((b[at + 6] as u64) << 8u64) | (b[at + 7] as u64)
}

/// A fresh vector with the same bytes.
pub fn copy_bytes(b: &[u8]) -> (r: Vec<u8>)
    ensures
        r@ == b@,
{
    let mut r: Vec<u8> = Vec::new();
    let mut i: usize = 0;
    while i < b.len()
        invariant
            i <= b@.len(),
            r@ == b@.subrange(0, i as int),
        decreases b.len() - i,
    {
        r.push(b[i]);
        i = i + 1;
        assert(r@ =~= b@.subrange(0, i as int));
    }
    assert(r@ =~= b@);
    r
}

/// Two references with the same blob id, offset, length and kind.
pub open spec fn same_ref(a: ChunkRef, b: ChunkRef) -> bool {
    a.blob_id@ == b.blob_id@ && a.offset == b.offset && a.length == b.length && a.kind == b.kind
}

impl ChunkRef {
    /// A copy of this reference.
    pub fn duplicate(&self) -> (r: ChunkRef)
        ensures
            same_ref(r, *self),
    {
        ChunkRef {
            blob_id: copy_bytes(self.blob_id.as_slice()),
            offset: self.offset,
            length: self.length,
            kind: self.kind,
        }
    }

    /// Appends the encoding of this reference to `out`.
    pub fn populate_msg(&self, out: &mut Vec<u8>)
        ensures
            final(out)@ == old(out)@ + encoding(*self),
    {
        push_u64(out, self.blob_id.len() as u64);
        let mut i: usize = 0;
        while i < self.blob_id.len()
            invariant
                i <= self.blob_id@.len(),
                out@ == old(out)@ + be_bytes(self.blob_id@.len() as u64) + self.blob_id@.subrange(
                    0,
                    i as int,
                ),
            decreases self.blob_id.len() - i,
        {
            out.push(self.blob_id[i]);
            i = i + 1;
            assert(out@ =~= old(out)@ + be_bytes(self.blob_id@.len() as u64)
                + self.blob_id@.subrange(0, i as int));
        }
        assert(self.blob_id@.subrange(0, i as int) =~= self.blob_id@);
        push_u64(out, self.offset as u64);
        push_u64(out, self.length as u64);
        match self.kind {
            Kind::TreeBranch => out.push(0),
            Kind::TreeLeaf => out.push(1),
        }
        assert(out@ =~= old(out)@ + encoding(*self));
    }

    /// The encoding of this reference.
    pub fn as_bytes(&self) -> (r: Vec<u8>)
        ensures
            r@ == encoding(*self),
    {
        let mut out: Vec<u8> = Vec::new();
        self.populate_msg(&mut out);
        assert(out@ =~= encoding(*self));
        out
    }

    /// Decodes the reference at the front of `msg`; bytes after it are ignored.
    pub fn read_msg(msg: &[u8]) -> (r: Result<ChunkRef, DecodeError>)
        ensures
            match decoded(msg@) {
                Ok(d) => r matches Ok(c) && matches_decoded(c, d),
                Err(e) => r == Err::<ChunkRef, DecodeError>(e),
            },
    {
        if msg.len() < 8 {
            return Err(DecodeError::Truncated);
        }
        let n = read_u64(msg, 0);
        if (msg.len() as u64) < 25 || n > msg.len() as u64 - 25 {
            return Err(DecodeError::Truncated);
        }
        let n = n as usize;
        let off = read_u64(msg, 8 + n);
        let len = read_u64(msg, 16 + n);
        let tag = msg[24 + n];
        if off > I64_MAX || len > I64_MAX || off > usize::MAX as u64 || len > usize::MAX as u64 {
            return Err(DecodeError::OutOfRange);
        }
        let kind = if tag == 0 {
            Kind::TreeBranch
        } else if tag == 1 {
            Kind::TreeLeaf
        } else {
            return Err(DecodeError::UnknownKind(tag));
        };
        let mut blob_id: Vec<u8> = Vec::new();
        let end: usize = 8 + n;
        let mut i: usize = 8;
        while i < end
            invariant
                end == 8 + n,
                8 <= i <= 8 + n,
                8 + n + 17 <= msg@.len(),
                blob_id@ == msg@.subrange(8, i as int),
            decreases 8 + n - i,
        {
            blob_id.push(msg[i]);
            i = i + 1;
            assert(blob_id@ =~= msg@.subrange(8, i as int));
        }
        Ok(ChunkRef { blob_id, offset: off as usize, length: len as usize, kind })
    }

    /// Decodes the reference at the front of `bytes` and moves `bytes` past it.
    /// On failure `bytes` is left as it was.
    pub fn from_bytes(bytes: &mut &[u8]) -> (r: Result<ChunkRef, DecodeError>)
        ensures
            match decoded(old(bytes)@) {
                Ok(d) => r matches Ok(c) && matches_decoded(c, d) && final(bytes)@ == old(
                    bytes,
                )@.skip(d.4),
                Err(e) => r == Err::<ChunkRef, DecodeError>(e) && final(bytes)@ == old(bytes)@,
            },
    {
        let b: &[u8] = *bytes;
        let blen = b.len();
        match ChunkRef::read_msg(b) {
            Ok(c) => {
                assert(c.blob_id@.len() + 25 <= b@.len());
                let used = 25 + c.blob_id.len();
                assert(b@.subrange(used as int, b@.len() as int) =~= b@.skip(used as int));
                *bytes = vstd::slice::slice_subrange(b, used, b.len());
                Ok(c)
            },
            Err(e) => Err(e),
        }
    }
}

} // verus!
