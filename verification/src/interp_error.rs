//! Contexts for errors of an interpreter that tracks where paragraphs and their lines start.
use vstd::prelude::*;

use crate::span::{ParseContext, ParseSpan};

verus! {

/// Why the interpreter was in inline mode: inside a paragraph (from its start, and the start of the
/// current line), or inside an inline scope.
#[derive(Debug, Clone, Copy, PartialEq, Eq, Structural)]
pub enum InlineModeContext {
    Paragraph { para_start: ParseSpan, line_start: ParseSpan },
    InlineScope { scope_start: ParseSpan },
}

/// Enough of a block-level element to point at it in an error message.
///
/// Small things are given as spans; big things (paragraphs and block scopes) as contexts.
#[derive(Debug, Clone, Copy, PartialEq, Eq, Structural)]
pub enum BlockModeElem {
    HeaderFromCode(ParseSpan),
    Para(ParseContext),
    /// A complete block scope
    BlockScope(ParseContext),
    BlockFromCode(ParseSpan),
    SourceFromCode(ParseSpan),
    AnyToken(ParseSpan),
}

} // verus!
