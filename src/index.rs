//! The blob index: one row per blob with its id, name, lifecycle state and tag.
//!
//! A blob is reserved with a fresh id and a name made of that id's eight
//! big-endian bytes, then goes in the air while it is written, then is
//! committed. Names are unique across rows.

use crate::chunk::{be_bytes, copy_bytes, push_u64};
use crate::tags::Tag;
use vstd::prelude::*;

verus! {

/// Where a blob is in its life.
#[derive(Debug, Clone, Copy, PartialEq, Eq, Structural)]
pub enum BlobState {
    /// Has an id and a name; no bytes promised to the backend.
    Reserved,
    /// Being written; durability is pending.
    InAir,
    /// The backend acknowledged the write.
    Committed,
}

/// A blob's id and name. Id 0 stands for "unknown", where only the name is known.
#[derive(Debug, Clone, PartialEq, Eq)]
pub struct BlobDesc {
    pub id: u64,
    pub name: Vec<u8>,
}

/// Why the index refused an operation.
#[derive(Debug, Clone, Copy, PartialEq, Eq, Structural)]
pub enum IndexError {
    /// No id is left to hand out.
    Exhausted,
}

/// A row of the index.
pub struct BlobRow {
    pub id: u64,
    pub name: Vec<u8>,
    pub state: BlobState,
    pub tag: Option<Tag>,
}

/// What a row holds, as mathematical values.
pub struct RowView {
    pub id: u64,
    pub name: Seq<u8>,
    pub state: BlobState,
    pub tag: Option<Tag>,
}

impl View for BlobRow {
    type V = RowView;

    open spec fn view(&self) -> RowView {
        RowView { id: self.id, name: self.name@, state: self.state, tag: self.tag }
    }
}

/// The same row in state `s`.
pub open spec fn with_state(r: RowView, s: BlobState) -> RowView {
    RowView { state: s, ..r }
}

/// The same row tagged `t`.
pub open spec fn with_tag(r: RowView, t: Tag) -> RowView {
    RowView { tag: Some(t), ..r }
}

/// The rows after moving the row named `name` from state `from` to `to`.
pub open spec fn advanced(rows: Seq<RowView>, name: Seq<u8>, from: BlobState, to: BlobState) -> Seq<
    RowView,
> {
    rows.map_values(
        |r: RowView|
            if r.name == name && r.state == from {
                with_state(r, to)
            } else {
                r
            },
    )
}

/// Whether a row carries tag `t`.
pub open spec fn tagged_with(t: Tag) -> spec_fn(RowView) -> bool {
    |r: RowView| r.tag == Some(t)
}

/// Whether a row does not carry tag `t`.
pub open spec fn not_tagged_with(t: Tag) -> spec_fn(RowView) -> bool {
    |r: RowView| r.tag != Some(t)
}

/// The rows that do not carry tag `t`, in order.
pub open spec fn untagged(rows: Seq<RowView>, t: Tag) -> Seq<RowView> {
    rows.filter(not_tagged_with(t))
}

/// The names of some rows.
pub open spec fn row_names(rows: Seq<RowView>) -> Seq<Seq<u8>> {
    rows.map_values(|r: RowView| r.name)
}

/// The names of the rows that carry tag `t`, in order.
pub open spec fn names_tagged(rows: Seq<RowView>, t: Tag) -> Seq<Seq<u8>> {
    row_names(rows.filter(tagged_with(t)))
}

/// The names of some descriptors.
pub open spec fn desc_names(ds: Seq<BlobDesc>) -> Seq<Seq<u8>> {
    ds.map_values(|d: BlobDesc| d.name@)
}

/// What some rows hold.
pub open spec fn row_views(rs: Seq<BlobRow>) -> Seq<RowView> {
    rs.map_values(|r: BlobRow| r@)
}

/// Whether a row's tag is `t`.
fn has_tag(tag: Option<Tag>, t: Tag) -> (r: bool)
    ensures
        r == (tag == Some(t)),
{
    match tag {
        Some(x) => x == t,
        None => false,
    }
}

/// Some row is named `name`.
pub open spec fn has_name(rows: Seq<RowView>, name: Seq<u8>) -> bool {
    exists|i: int| 0 <= i < rows.len() && #[trigger] rows[i].name == name
}

pub struct BlobIndex {
    rows: Vec<BlobRow>,
    next_id: u64,
}

impl BlobIndex {
    /// The rows, in the order they were added.
    pub closed spec fn rows(&self) -> Seq<RowView> {
        row_views(self.rows@)
    }

    /// The id the next reservation tries first.
    pub closed spec fn next_id(&self) -> u64 {
        self.next_id
    }

    /// Names are unique, every id is below the next one, and ids start at 1.
    pub open spec fn wf(&self) -> bool {
        &&& forall|i: int, j: int|
            0 <= i < j < self.rows().len() ==> self.rows()[i].name != self.rows()[j].name
        &&& forall|i: int| 0 <= i < self.rows().len() ==> self.rows()[i].id < self.next_id()
        &&& self.next_id() >= 1
    }

    /// An empty index.
    pub fn new() -> (r: BlobIndex)
        ensures
            r.wf(),
            r.rows().len() == 0,
            r.next_id() == 1,
    {
        let r = BlobIndex { rows: Vec::new(), next_id: 1 };
        assert(r.rows() =~= Seq::<RowView>::empty());
        r
    }

    /// An empty index, as tests start from.
    pub fn new_for_testing() -> (r: Result<BlobIndex, IndexError>)
        ensures
            r matches Ok(i) && i.wf() && i.rows().len() == 0 && i.next_id() == 1,
    {
        Ok(BlobIndex::new())
    }

    /// Removes every row and starts the ids again from 1.
    pub fn reset(&mut self) -> (r: Result<(), IndexError>)
        ensures
            r is Ok,
            final(self).wf(),
            final(self).rows().len() == 0,
            final(self).next_id() == 1,
    {
        self.rows = Vec::new();
        self.next_id = 1;
        assert(self.rows() =~= Seq::<RowView>::empty());
        Ok(())
    }

    /// Where the row named `name` stands, if there is one.
    fn find(&self, name: &[u8]) -> (r: Option<usize>)
        ensures
            r matches Some(i) ==> i < self.rows().len() && self.rows()[i as int].name == name@,
            r is None ==> !has_name(self.rows(), name@),
    {
        let mut i: usize = 0;
        while i < self.rows.len()
            invariant
                i <= self.rows@.len(),
                forall|j: int| 0 <= j < i ==> self.rows()[j].name != name@,
            decreases self.rows.len() - i,
        {
            if bytes_eq(self.rows[i].name.as_slice(), name) {
                return Some(i);
            }
            i = i + 1;
        }
        None
    }

    /// Moves the row named `name` from state `from` to `to`; other rows, and a
    /// row in another state, stay as they are.
    fn advance(&mut self, name: &[u8], from: BlobState, to: BlobState)
        requires
            old(self).wf(),
        ensures
            final(self).wf(),
            final(self).next_id() == old(self).next_id(),
            final(self).rows() == advanced(old(self).rows(), name@, from, to),
    {
        match self.find(name) {
            Some(i) => {
                if self.rows[i].state == from {
                    let row = BlobRow {
                        id: self.rows[i].id,
                        name: copy_bytes(self.rows[i].name.as_slice()),
                        state: to,
                        tag: self.rows[i].tag,
                    };
                    self.rows.set(i, row);
                }
                assert(self.rows() =~= advanced(old(self).rows(), name@, from, to));
            },
            None => {
                assert(self.rows() =~= advanced(old(self).rows(), name@, from, to));
            },
        }
    }

    /// Marks the blob `d` (found by name) as being written: `Reserved` becomes
    /// `InAir`.
    pub fn in_air(&mut self, d: &BlobDesc)
        requires
            old(self).wf(),
        ensures
            final(self).wf(),
            final(self).next_id() == old(self).next_id(),
            final(self).rows() == advanced(
                old(self).rows(),
                d.name@,
                BlobState::Reserved,
                BlobState::InAir,
            ),
    {
        self.advance(d.name.as_slice(), BlobState::Reserved, BlobState::InAir);
    }

    /// Marks the blob `d` (found by name) as durable: `InAir` becomes `Committed`.
    pub fn commit_done(&mut self, d: &BlobDesc)
        requires
            old(self).wf(),
        ensures
            final(self).wf(),
            final(self).next_id() == old(self).next_id(),
            final(self).rows() == advanced(
                old(self).rows(),
                d.name@,
                BlobState::InAir,
                BlobState::Committed,
            ),
    {
        self.advance(d.name.as_slice(), BlobState::InAir, BlobState::Committed);
    }

    /// Records a blob found on the backend: a committed row with the next id,
    /// unless a row of that name is there already.
    pub fn recover(&mut self, name: Vec<u8>) -> (r: Result<(), IndexError>)
        requires
            old(self).wf(),
        ensures
            final(self).wf(),
            has_name(old(self).rows(), name@) ==> r is Ok && *final(self) == *old(self),
            !has_name(old(self).rows(), name@) && old(self).next_id() < u64::MAX ==> {
                &&& r is Ok
                &&& final(self).rows() == old(self).rows().push(
                    RowView {
                        id: old(self).next_id(),
                        name: name@,
                        state: BlobState::Committed,
                        tag: None,
                    },
                )
                &&& final(self).next_id() == old(self).next_id() + 1
            },
            !has_name(old(self).rows(), name@) && old(self).next_id() == u64::MAX ==> r
                == Err::<(), IndexError>(IndexError::Exhausted) && *final(self) == *old(self),
    {
        if self.find(name.as_slice()).is_some() {
            return Ok(());
        }
        if self.next_id == u64::MAX {
            return Err(IndexError::Exhausted);
        }
        let ghost name_v = name@;
        let row = BlobRow { id: self.next_id, name, state: BlobState::Committed, tag: None };
        self.rows.push(row);
        self.next_id = self.next_id + 1;
        assert(self.rows() =~= old(self).rows().push(
            RowView {
                id: old(self).next_id(),
                name: name_v,
                state: BlobState::Committed,
                tag: None,
            },
        ));
        Ok(())
    }

    /// Tags the row named as `d` is; `d.id` is not consulted.
    pub fn tag(&mut self, d: &BlobDesc, t: Tag)
        requires
            old(self).wf(),
        ensures
            final(self).wf(),
            final(self).next_id() == old(self).next_id(),
            final(self).rows() == old(self).rows().map_values(
                |r: RowView|
                    if r.name == d.name@ {
                        with_tag(r, t)
                    } else {
                        r
                    },
            ),
    {
        let ghost f = |r: RowView|
            if r.name == d.name@ {
                with_tag(r, t)
            } else {
                r
            };
        match self.find(d.name.as_slice()) {
            Some(i) => {
                let row = BlobRow {
                    id: self.rows[i].id,
                    name: copy_bytes(self.rows[i].name.as_slice()),
                    state: self.rows[i].state,
                    tag: Some(t),
                };
                self.rows.set(i, row);
                assert(self.rows() =~= old(self).rows().map_values(f));
            },
            None => {
                assert(self.rows() =~= old(self).rows().map_values(f));
            },
        }
    }

    /// Tags every row.
    pub fn tag_all(&mut self, t: Tag)
        requires
            old(self).wf(),
        ensures
            final(self).wf(),
            final(self).next_id() == old(self).next_id(),
            final(self).rows() == old(self).rows().map_values(|r: RowView| with_tag(r, t)),
    {
        let mut i: usize = 0;
        while i < self.rows.len()
            invariant
                i <= self.rows@.len(),
                self.rows@.len() == old(self).rows@.len(),
                self.next_id == old(self).next_id,
                forall|j: int| 0 <= j < i ==> self.rows()[j] == with_tag(old(self).rows()[j], t),
                forall|j: int| i <= j < self.rows@.len() ==> self.rows()[j] == old(self).rows()[j],
            decreases self.rows.len() - i,
        {
            let row = BlobRow {
                id: self.rows[i].id,
                name: copy_bytes(self.rows[i].name.as_slice()),
                state: self.rows[i].state,
                tag: Some(t),
            };
            let ghost prev = self.rows();
            self.rows.set(i, row);
            proof {
                assert forall|j: int| 0 <= j < self.rows@.len() && j != i implies self.rows()[j]
                    == prev[j] by {
                    assert(self.rows()[j] == self.rows@[j]@);
                }
                assert(self.rows()[i as int] == self.rows@[i as int]@);
                assert forall|j: int| 0 <= j <= i implies self.rows()[j] == with_tag(
                    old(self).rows()[j],
                    t,
                ) by {
                    if j < i {
                        assert(prev[j] == with_tag(old(self).rows()[j], t));
                        assert(self.rows()[j] == self.rows@[j]@);
                    }
                }
            }
            i = i + 1;
        }
        assert(self.rows() =~= old(self).rows().map_values(|r: RowView| with_tag(r, t)));
    }

    /// The rows tagged `t`, as descriptors, in the order of the rows.
    pub fn list_by_tag(&self, t: Tag) -> (r: Vec<BlobDesc>)
        ensures
            desc_names(r@) == names_tagged(self.rows(), t),
    {
        let mut out: Vec<BlobDesc> = Vec::new();
        let mut i: usize = 0;
        while i < self.rows.len()
            invariant
                i <= self.rows@.len(),
                desc_names(out@) == names_tagged(self.rows().take(i as int), t),
            decreases self.rows.len() - i,
        {
            proof {
                lemma_filter_take_step(self.rows(), tagged_with(t), i as int);
            }
            let ghost before = out@;
            assert(self.rows()[i as int] == self.rows@[i as int]@);
            if has_tag(self.rows[i].tag, t) {
                let d = BlobDesc {
                    id: self.rows[i].id,
                    name: copy_bytes(self.rows[i].name.as_slice()),
                };
                out.push(d);
                assert(desc_names(out@) =~= desc_names(before).push(self.rows()[i as int].name));
                let ghost f0 = self.rows().take(i as int).filter(tagged_with(t));
                assert(tagged_with(t)(self.rows()[i as int]));
                assert(self.rows().take(i + 1).filter(tagged_with(t)) == f0.push(self.rows()[i as int]));
                assert(row_names(f0.push(self.rows()[i as int])) =~= row_names(f0).push(
                    self.rows()[i as int].name,
                ));
            } else {
                assert(!tagged_with(t)(self.rows()[i as int]));
            }
            i = i + 1;
        }
        assert(self.rows().take(self.rows().len() as int) =~= self.rows());
        out
    }

    /// Removes the rows tagged `t`, keeping the others in order.
    pub fn delete_by_tag(&mut self, t: Tag)
        requires
            old(self).wf(),
        ensures
            final(self).wf(),
            final(self).next_id() == old(self).next_id(),
            final(self).rows() == untagged(old(self).rows(), t),
    {
        let ghost rows = self.rows();
        let mut kept: Vec<BlobRow> = Vec::new();
        let ghost mut idx: Seq<int> = Seq::empty();
        let mut i: usize = 0;
        while i < self.rows.len()
            invariant
                *self == *old(self),
                rows == self.rows(),
                self.wf(),
                i <= self.rows@.len(),
                row_views(kept@) == rows.take(i as int).filter(not_tagged_with(t)),
                idx.len() == kept@.len(),
                forall|k: int| 0 <= k < idx.len() ==> 0 <= #[trigger] idx[k] < i,
                forall|k: int, l: int| 0 <= k < l < idx.len() ==> idx[k] < idx[l],
                forall|k: int| 0 <= k < idx.len() ==> #[trigger] kept@[k]@ == rows[idx[k]],
            decreases self.rows.len() - i,
        {
            proof {
                lemma_filter_take_step(rows, not_tagged_with(t), i as int);
            }
            let ghost before = kept@;
            assert(rows[i as int] == self.rows@[i as int]@);
            if !has_tag(self.rows[i].tag, t) {
                let row = BlobRow {
                    id: self.rows[i].id,
                    name: copy_bytes(self.rows[i].name.as_slice()),
                    state: self.rows[i].state,
                    tag: self.rows[i].tag,
                };
                kept.push(row);
                proof {
                    idx = idx.push(i as int);
                    assert(row_views(kept@) =~= row_views(before).push(rows[i as int]));
                    assert(not_tagged_with(t)(rows[i as int]));
                    assert forall|k: int| 0 <= k < idx.len() implies #[trigger] kept@[k]@
                        == rows[idx[k]] by {
                        if k < idx.len() - 1 {
                            assert(kept@[k] == before[k]);
                        }
                    }
                }
            } else {
                assert(!not_tagged_with(t)(rows[i as int]));
            }
            i = i + 1;
        }
        assert(rows.take(rows.len() as int) =~= rows);
        self.rows = kept;
        proof {
            assert forall|k: int| 0 <= k < self.rows().len() implies #[trigger] self.rows()[k]
                == rows[idx[k]] by {
                assert(self.rows()[k] == self.rows@[k]@);
            }
            assert forall|k: int, l: int|
                0 <= k < l < self.rows().len() implies self.rows()[k].name
                != self.rows()[l].name by {
                assert(self.rows()[k] == rows[idx[k]]);
                assert(self.rows()[l] == rows[idx[l]]);
            }
            assert forall|k: int| 0 <= k < self.rows().len() implies self.rows()[k].id
                < self.next_id() by {
                assert(self.rows()[k] == rows[idx[k]]);
            }
        }
    }

    /// Metadata writes take effect at once here, so nothing is left to write.
    pub fn flush(&mut self)
        ensures
            *final(self) == *old(self),
    {
    }

    /// Adds a row in state `Reserved` with a fresh id and the name made of that
    /// id. The id is the first from `next_id()` on whose name no row has.
    pub fn reserve(&mut self) -> (r: Result<BlobDesc, IndexError>)
        requires
            old(self).wf(),
        ensures
            final(self).wf(),
            match r {
                Ok(d) => {
                    &&& d.id >= old(self).next_id()
                    &&& d.name@ == be_bytes(d.id)
                    &&& !has_name(old(self).rows(), d.name@)
                    &&& forall|k: u64|
                        old(self).next_id() <= k < d.id ==> has_name(old(self).rows(), be_bytes(k))
                    &&& final(self).rows() == old(self).rows().push(
                        RowView { id: d.id, name: d.name@, state: BlobState::Reserved, tag: None },
                    )
                    &&& final(self).next_id() == d.id + 1
                },
                Err(e) => e == IndexError::Exhausted && *final(self) == *old(self),
            },
            !has_name(old(self).rows(), be_bytes(old(self).next_id())) && old(self).next_id()
                < u64::MAX ==> r is Ok,
    {
        let mut id = self.next_id;
        loop
            invariant
                old(self).next_id() <= id,
                *self == *old(self),
                self.wf(),
                forall|k: u64| old(self).next_id() <= k < id ==> has_name(self.rows(), be_bytes(k)),
            decreases u64::MAX - id,
        {
            if id == u64::MAX {
                return Err(IndexError::Exhausted);
            }
            let mut name: Vec<u8> = Vec::new();
            push_u64(&mut name, id);
            assert(name@ =~= be_bytes(id));
            match self.find(name.as_slice()) {
                Some(_) => {
                    id = id + 1;
                },
                None => {
                    let desc = BlobDesc { id, name: copy_bytes(name.as_slice()) };
                    let row = BlobRow { id, name, state: BlobState::Reserved, tag: None };
                    self.rows.push(row);
                    self.next_id = id + 1;
                    assert(self.rows() =~= old(self).rows().push(
                        RowView { id, name: desc.name@, state: BlobState::Reserved, tag: None },
                    ));
                    return Ok(desc);
                },
            }
        }
    }
}

proof fn lemma_filter_take_step(s: Seq<RowView>, p: spec_fn(RowView) -> bool, i: int)
    requires
        0 <= i < s.len(),
    ensures
        s.take(i + 1).filter(p) == if p(s[i]) {
            s.take(i).filter(p).push(s[i])
        } else {
            s.take(i).filter(p)
        },
{
    reveal_with_fuel(Seq::filter, 1);
    assert(s.take(i + 1).drop_last() =~= s.take(i));
    assert(s.take(i + 1).last() == s[i]);
}

/// Whether two byte strings are equal.
pub fn bytes_eq(a: &[u8], b: &[u8]) -> (r: bool)
    ensures
        r == (a@ == b@),
{
    if a.len() != b.len() {
        return false;
    }
    let mut i: usize = 0;
    while i < a.len()
        invariant
            i <= a@.len(),
            a@.len() == b@.len(),
            forall|j: int| 0 <= j < i ==> a@[j] == b@[j],
        decreases a.len() - i,
    {
        if a[i] != b[i] {
            return false;
        }
        i = i + 1;
    }
    assert(a@ =~= b@);
    true
}

} // verus!
