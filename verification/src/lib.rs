//! A source-code canonicalizer for the SATySFi markup language.
//!
//! Given a parsed concrete syntax tree of a source file together with the
//! raw text and the list of comment intervals found in it, the crate
//! rebuilds a canonical textual rendering of the file, keeping every
//! comment the author wrote and attaching each one to the construct it
//! stands before.

pub mod ast;
pub mod comments;
pub mod cst;
pub mod cst2str;
pub mod message;
pub mod pattern;
pub mod statement;

pub use comments::make_comment_lst;
pub use comments::make_comments;
pub use cst::Cst;
pub use cst::Rule;
pub use cst::Span;
