//! What a decoder reports when a record breaks off.

use vstd::prelude::*;

verus! {

/// A field of one of the two wire formats.
#[derive(Clone, Copy, Debug, PartialEq, Eq, Structural)]
pub enum Field {
    /// Revlog: the compressed length.
    CompressedLength,
    /// Revlog: the uncompressed length.
    UncompressedLength,
    /// Revlog: the base revision.
    BaseRevision,
    /// Revlog: the link revision.
    LinkRevision,
    /// Revlog: the first parent.
    Parent1,
    /// Revlog: the second parent.
    Parent2,
    /// Revlog: the node id.
    NodeId,
    /// Revlog: the payload.
    Payload,
    /// Dirstate: the hash of the first parent.
    Parent1Hash,
    /// Dirstate: the hash of the second parent.
    Parent2Hash,
    /// Dirstate: the mode.
    Mode,
    /// Dirstate: the size.
    Size,
    /// Dirstate: the modification time.
    Mtime,
    /// Dirstate: the length of the name.
    NameLength,
    /// Dirstate: the name.
    Name,
}

/// The stream ended inside a record: `field` could not be read in full, and
/// `position` is the offset in the stream at which that field starts.
#[derive(Clone, Copy, Debug, PartialEq, Eq, Structural)]
pub struct Truncated {
    pub field: Field,
    pub position: usize,
}

/// Where a stream breaks off, as the formats state it: the field that is not
/// whole, and the offset in the stream at which it starts.
pub struct Break {
    pub field: Field,
    pub position: int,
}

impl View for Truncated {
    type V = Break;

    open spec fn view(&self) -> Break {
        Break { field: self.field, position: self.position as int }
    }
}

} // verus!
