//! Decoding of GPK packed archives: the header, the fixed-size entry table,
//! the null-padded entry names and the content of each entry, taken as a
//! view into the archive bytes.

pub mod entries;
pub mod error;
pub mod extract;
pub mod header;
pub mod name;
pub mod output;

pub use entries::{parse_entries, EntryDescriptor, ENTRY_SIZE};
pub use error::GpkError;
pub use extract::{extract_archive, extract_entry, ExtractedFile};
pub use header::{parse_header, read_le_u32, Header, HEADER_SIZE};
pub use name::{decode_name, name_end, NAME_FIELD_SIZE};
