//! What the interpreter reports when a document breaks the rules of turnip-text.
use vstd::prelude::*;

use crate::span::{ParseContext, ParseSpan};
use crate::doc_segment::Header;

verus! {

/// Why the interpreter was in inline mode when an error took place: it was inside a paragraph, or
/// inside an inline scope.
#[derive(Debug, Clone, Copy, PartialEq, Eq, Structural)]
pub enum InlineModeContext {
    Paragraph(ParseContext),
    Inlines { scope_start: ParseSpan },
}

/// Enough of a block-level element to point at it in an error message.
///
/// Small things (code and the blocks that code emits) are given as spans; big things (paragraphs and
/// block scopes) as contexts, whose first and last tokens can be shown separately.
#[derive(Debug, Clone, Copy, PartialEq, Eq, Structural)]
pub enum BlockModeElem {
    /// A header emitted by code
    HeaderFromCode(ParseSpan),
    Para(ParseContext),
    /// A complete block scope
    Blocks(ParseContext),
    BlockFromCode(ParseSpan),
    SourceFromCode(ParseSpan),
    AnyToken(ParseSpan),
}

/// The ways in which a document can break the syntax of turnip-text.
#[derive(Debug, Clone, Copy, PartialEq, Eq, Structural)]
pub enum TTSyntaxError {
    /// A code close outside code
    CodeCloseOutsideCode(ParseSpan),
    /// A scope close in block mode when this file had no open block scopes
    BlockScopeCloseOutsideScope(ParseSpan),
    /// A scope close in inline mode when there were no open inline scopes
    InlineScopeCloseOutsideScope(ParseSpan),
    /// A raw scope close outside a raw scope
    RawScopeCloseOutsideRawScope(ParseSpan),
    /// The file ended inside code
    EndedInsideCode { code_start: ParseSpan, eof_span: ParseSpan },
    /// The file ended inside a raw scope
    EndedInsideRawScope { raw_scope_start: ParseSpan, eof_span: ParseSpan },
    /// The file ended inside a scope
    EndedInsideScope { scope_start: ParseSpan, eof_span: ParseSpan },
    /// A block scope opened in inline mode
    BlockScopeOpenedInInlineMode { inl_mode: InlineModeContext, block_scope_open: ParseSpan },
    /// Code emitted a header in inline mode
    CodeEmittedHeaderInInlineMode { inl_mode: InlineModeContext, header: Header, code_span: ParseSpan },
    /// Code emitted a block (the Python object `block`) in inline mode
    CodeEmittedBlockInInlineMode { inl_mode: InlineModeContext, block: u64, code_span: ParseSpan },
    /// Code emitted a source file in inline mode
    CodeEmittedSourceInInlineMode { inl_mode: InlineModeContext, code_span: ParseSpan },
    /// A sentence break inside an inline scope
    SentenceBreakInInlineScope { scope_start: ParseSpan, sentence_break: ParseSpan },
    /// An escaped newline, which continues a sentence, in block mode
    EscapedNewlineInBlockMode { newline: ParseSpan },
    /// Content on the same line as a block that must be followed by a newline first
    InsufficientBlockSeparation { last_block: BlockModeElem, next_block_start: BlockModeElem },
}

/// The kind of scope that code was given, and so the kind of builder it had to evaluate to.
#[derive(Debug, Clone, Copy, PartialEq, Eq, Structural)]
pub enum UserPythonBuildMode {
    FromBlock,
    FromInline,
    FromRaw,
}

/// What the interpreter reports when the Python objects that code evaluated to do not fit where
/// they stand.
#[derive(Debug, Clone, Copy, PartialEq, Eq, Structural)]
pub enum TTUserPythonError {
    /// Code with no scope after it evaluated to `obj`, which is not None, a source, a header, a block
    /// or something that can be made inline.
    CoercingEvalBracketToElement { code_ctx: ParseContext, obj: u64 },
    /// Code followed by a scope evaluated to `obj`, which is not a builder for that kind of scope.
    CoercingEvalBracketToBuilder {
        code_ctx: ParseContext,
        scope_open: ParseSpan,
        obj: u64,
        build_mode: UserPythonBuildMode,
    },
}

/// An error of the interpreter.
#[derive(Debug, Clone, Copy, PartialEq, Eq, Structural)]
pub enum TTError {
    Syntax(TTSyntaxError),
    UserPython(TTUserPythonError),
}

} // verus!
