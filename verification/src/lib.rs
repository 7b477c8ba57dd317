//! turnip_text: lexing and parsing of turnip-text documents.
//!
//! - [`line_col`] tracks line, column and character offsets while walking a document.
//! - [`span`] holds the positions and spans that every token carries.
//! - [`lexer`] splits a document into [`lexer::TTToken`]s.
//! - [`parser`] turns a stream of simple tokens into a tree of [`parser::Token`]s.
//! - [`doc_segment`] keeps a list of document segments ordered by header weight.
//! - [`interpreter`] turns tokens into the blocks and inline elements of a document.
//! - [`interp_error`] holds contexts for error messages.

pub mod line_col;
pub mod span;
pub mod text;
pub mod lexer;
pub mod parser;
pub mod doc_segment;
pub mod interp_error;
pub mod interpreter;

pub use parser::parse_simple_tokens;
pub use parser::ParseError;
pub use parser::Token;
