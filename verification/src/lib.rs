//! A verified model of the Unix filesystem-table file (`fstab`).
//!
//! The crate parses the whitespace-delimited six-column wire format into an
//! ordered list of [`FsEntry`] records, serializes such a list back to text,
//! and offers the upsert / remove operations that administration tooling
//! performs on the table.  All I/O is left to the caller: every operation
//! here maps the current file content, given as a string, to the new file
//! content.

pub mod chars;
pub mod entry;
pub mod laws;
pub mod reader;
pub mod table;
pub mod text;
pub mod writer;

pub use entry::FsEntry;
pub use reader::ParseError;
pub use table::FsTab;
