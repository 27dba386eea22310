//! Rewrites the body of an item so that every `?` operator becomes an explicit
//! `.unwrap()` call, working on a plain model of lexical tokens.
pub mod item;
pub mod laws;
pub mod rewrite;
pub mod token;

pub use item::auto_unwrap;
pub use rewrite::{is_skip, unwrap_inner, Mode, TransformError, SKIP_DIRECTIVE};
pub use token::{duplicate_all, Delimiter, Spacing, Token};
