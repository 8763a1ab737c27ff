//! A verified converter for e-reader annotation exports.
//!
//! The library turns the single plain-text log that an e-reader keeps of its
//! highlights, bookmarks and notes into one Markdown file's worth of content
//! per book: it splits the log into annotation blocks, extracts a structured
//! record from each block that matches the export grammar, groups the records
//! by book, and derives a safe filename and joined file content for each book.
//! Reading the log and writing the files are left to the caller.

pub mod extract;
pub mod group;
pub mod output;
pub mod record;
pub mod split;
pub mod text;
