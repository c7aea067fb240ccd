//! A tiny text-markup interpreter for terminal output.
//!
//! The input may contain markup blocks of the shape `{spec: text}`, where
//! `spec` is a whitespace-separated list of style keywords (colors such as
//! `red`, styles such as `bold`).  Each recognized block is rewritten into a
//! run of terminal escape sequences around its text; everything else is
//! copied verbatim.  Malformed markup never fails: it degrades to literal
//! preservation of the input characters.

pub mod args;
pub mod laws;
pub mod scanner;
pub mod styles;
pub mod text;

pub use crate::args::parse_args;
pub use crate::scanner::format_text;
pub use crate::styles::apply_formatting;
