//! A store of string properties, read from and written to `key = value` text.
//!
//! Values may hold lists, joined by `,`. Text is read line by line: blank lines
//! and comments (`#`, `//`, `/*`) are skipped, and a line with content but no
//! `=` is skipped and reported by its number.
use vstd::prelude::*;

pub mod laws;
pub mod properties;
pub mod text;

pub use properties::{builder, Properties, Settings, SettingsBuilder};
pub use text::{format_line, is_comment_line, parse_line, ParsedLine};

verus! {

} // verus!
