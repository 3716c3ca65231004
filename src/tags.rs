//! Tags that the garbage-collection protocol puts on blobs.

use vstd::prelude::*;

verus! {

/// A label on a blob in the index.
#[derive(Debug, Clone, Copy, PartialEq, Eq, Structural)]
pub enum Tag {
    Done,
    Reserved,
    InProgress,
    Complete,
    WillDelete,
    ReadyDelete,
}

} // verus!
