use vstd::prelude::*;

verus! {

/// Why an archive could not be decoded.
#[derive(Clone, Copy, Debug, PartialEq, Eq, Structural)]
pub enum GpkError {
    /// The archive is shorter than its 4-byte header.
    TruncatedHeader { buffer_len: usize },
    /// The archive is shorter than the header and `entry_count` full records.
    TruncatedEntryTable { entry_count: u32, buffer_len: usize },
    /// The content of entry `index` does not lie within the archive.
    EntryOutOfBounds { index: usize, offset: u32, size: u32, buffer_len: usize },
}

} // verus!
