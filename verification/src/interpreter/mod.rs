//! The interpreter: turns the tokens of a document into blocks, inline elements and segments.
//!
//! - [`syntax`] holds the errors it reports, and [`diagnostic`] the messages for them.
//! - [`doc`] holds the elements it builds.
//! - [`text`] merges text and whitespace tokens into runs of text.
//! - [`state_machines`] holds the processors that take the tokens, and their stacks.
//! - [`driver`] reads the files of a document, token by token, and hands out Python's work.
//! - [`document`] sorts the top level's blocks and headers into segments.
//! - [`plain_text`] and [`without_code`] state what some documents read as.
pub mod syntax;
pub mod doc;
pub mod text;
pub mod state_machines;
pub mod document;
pub mod driver;
pub mod diagnostic;
pub mod plain_text;
pub mod without_code;
