//! Generates Rust constant declarations from `#define` lines of C headers.
//!
//! A block of declarations `<vis> const NAME: TYPE in "header";` is parsed,
//! the declarations are grouped by the canonical path of their header, each
//! header text is scanned for `#define NAME value`, and the value is checked
//! to be an expression before a constant declaration is produced for it.
pub mod text;
pub mod syntax;
pub mod error;
pub mod declaration;
pub mod define;
pub mod grouping;
pub mod expand;
pub mod laws;
