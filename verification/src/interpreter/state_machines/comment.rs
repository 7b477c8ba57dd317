//! Comments: from `#` to the end of the line.
use vstd::prelude::*;

use crate::lexer::{Escapable, TTToken};

use super::ProcStatus;

verus! {

/// Skips the tokens of a comment.
pub struct CommentProcessor {}

impl CommentProcessor {
    /// A processor for a comment.
    pub fn new() -> (r: Self) {
        CommentProcessor {}
    }

    /// A newline, an escaped newline or EOF ends the comment and is handed on, since the syntax
    /// around it depends on newlines; anything else is skipped.
    pub fn process_token(&self, tok: TTToken) -> (r: ProcStatus)
        ensures
            tok.is_any_newline() || tok is EOF ==> r matches ProcStatus::PopAndReprocessToken(None),
            !(tok.is_any_newline() || tok is EOF) ==> r is Continue,
    {
        match tok {
            TTToken::Escaped(_, Escapable::Newline) | TTToken::Newline(_) | TTToken::EOF(_) => {
                ProcStatus::PopAndReprocessToken(None)
            },
            _ => ProcStatus::Continue,
        }
    }
}

} // verus!
