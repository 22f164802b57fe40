//! Lazy, caching access to the glyphs of a directory-based font source package.
//!
//! The package's glyph index (`glyphs/contents.plist`) is read once when a
//! [`font::Font`] or a [`gleaner::Gleaner`] is opened. A [`font::Font`] parses
//! each glyph file only on first use and keeps the record afterwards; a
//! [`gleaner::Gleaner`] parses every indexed glyph at once, best effort.

pub mod contents;
pub mod error;
pub mod font;
pub mod gleaner;
pub mod glif;
pub mod plist_types;
pub mod provider;
