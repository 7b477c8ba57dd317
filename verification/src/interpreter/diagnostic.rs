//! What an error message says: a title, labels on spans of the sources, and notes.
//!
//! The messages are built here from the errors; showing them (with the lines of the sources that the
//! labels point at) is left to whoever prints them.
use vstd::prelude::*;

use crate::interpreter::syntax::{
    BlockModeElem, InlineModeContext, TTSyntaxError, TTUserPythonError, UserPythonBuildMode,
};
use crate::interpreter::driver::ParsingFile;
use crate::span::ParseSpan;

verus! {

/// Whether a label marks the cause of an error or the context around it.
#[derive(Debug, Clone, Copy, PartialEq, Eq, Structural)]
pub enum LabelStyle {
    Primary,
    Secondary,
}

/// A message attached to the bytes `start..end` of source file `file_id`.
#[derive(Debug)]
pub struct Label {
    pub style: LabelStyle,
    pub file_id: usize,
    pub start: usize,
    pub end: usize,
    pub message: String,
}

/// How serious a message is.
#[derive(Debug, Clone, Copy, PartialEq, Eq, Structural)]
pub enum Severity {
    Bug,
    Error,
    Warning,
    Note,
    Help,
}

/// A message: how serious it is, its code if it has one, its title, its labels, and its notes.
#[derive(Debug)]
pub struct Diagnostic {
    pub severity: Severity,
    pub code: Option<String>,
    pub message: String,
    pub labels: Vec<Label>,
    pub notes: Vec<String>,
}

/// The value of a [Label].
pub struct LabelView {
    pub style: LabelStyle,
    pub file_id: usize,
    pub start: usize,
    pub end: usize,
    pub message: Seq<char>,
}

/// The value of a [Diagnostic].
pub struct DiagnosticView {
    pub severity: Severity,
    pub code: Option<Seq<char>>,
    pub message: Seq<char>,
    pub labels: Seq<LabelView>,
    pub notes: Seq<Seq<char>>,
}

impl Label {
    pub open spec fn view(self) -> LabelView {
        LabelView { style: self.style, file_id: self.file_id, start: self.start, end: self.end, message: self.message@ }
    }
}

/// The values of some labels.
pub open spec fn labels_view(s: Seq<Label>) -> Seq<LabelView> {
    s.map_values(|l: Label| l.view())
}

/// The values of some notes.
pub open spec fn notes_view(s: Seq<String>) -> Seq<Seq<char>> {
    s.map_values(|n: String| n@)
}

impl Diagnostic {
    pub open spec fn view(self) -> DiagnosticView {
        DiagnosticView {
            severity: self.severity,
            code: match self.code {
                Some(c) => Some(c@),
                None => None,
            },
            message: self.message@,
            labels: labels_view(self.labels@),
            notes: notes_view(self.notes@),
        }
    }
}

/// A label of the given style with `message` on `span`.
pub open spec fn label_on(style: LabelStyle, span: ParseSpan, message: Seq<char>) -> LabelView {
    LabelView { style, file_id: span.file_idx, start: span.start.byte_ofs, end: span.end.byte_ofs, message }
}

/// A label on the cause of the error.
pub open spec fn prim(span: ParseSpan, message: Seq<char>) -> LabelView {
    label_on(LabelStyle::Primary, span, message)
}

/// A label on the context of the error.
pub open spec fn sec(span: ParseSpan, message: Seq<char>) -> LabelView {
    label_on(LabelStyle::Secondary, span, message)
}

/// One note when `b` holds, else none.
pub open spec fn note_if(b: bool, text: Seq<char>) -> Seq<Seq<char>> {
    if b {
        seq![text]
    } else {
        seq![]
    }
}

/// Labels on why the interpreter was in inline mode.
pub open spec fn inline_mode_labels(m: InlineModeContext) -> Seq<LabelView> {
    match m {
        InlineModeContext::Paragraph(c) => seq![
            sec(c.first_tok, "Paragraph started here..."@),
            sec(c.last_tok, "...still in inline mode here"@),
        ],
        InlineModeContext::Inlines { scope_start } => seq![sec(scope_start, "Inline scope started here"@)],
    }
}

/// `paragraph` inside a paragraph, `scope` inside an inline scope.
pub open spec fn by_inline_mode(m: InlineModeContext, paragraph: Seq<char>, scope: Seq<char>) -> Seq<char> {
    match m {
        InlineModeContext::Paragraph(_) => paragraph,
        InlineModeContext::Inlines { .. } => scope,
    }
}

/// Labels on the block that needed a newline after it.
pub open spec fn last_block_labels(b: BlockModeElem) -> Seq<LabelView> {
    match b {
        BlockModeElem::HeaderFromCode(s) => seq![sec(s, "A Header was emitted here..."@)],
        BlockModeElem::Para(c) => seq![
            sec(c.first_tok, "A Paragraph started here..."@),
            sec(c.last_tok, "...and was still in progress here..."@),
        ],
        BlockModeElem::Blocks(c) => seq![
            sec(c.first_tok, "A block scope started here..."@),
            sec(c.last_tok, "...and ended here..."@),
        ],
        BlockModeElem::BlockFromCode(s) => seq![sec(s, "A Block was emitted here..."@)],
        BlockModeElem::SourceFromCode(s) => seq![sec(s, "A new source file was emitted here..."@)],
        BlockModeElem::AnyToken(s) => seq![sec(s, "Some Block was generated by this..."@)],
    }
}

/// The label on what came too soon after a block.
pub open spec fn next_block_label(b: BlockModeElem) -> LabelView {
    match b {
        BlockModeElem::HeaderFromCode(s) => prim(s, "...need a new line before emitting a Header here."@),
        BlockModeElem::Para(c) => prim(c.first_tok, "...need a new line before starting a Paragraph here."@),
        BlockModeElem::Blocks(c) => prim(c.first_tok, "...need a new line before starting a block scope here."@),
        BlockModeElem::BlockFromCode(s) => prim(s, "...need a new line before emitting a block here."@),
        BlockModeElem::SourceFromCode(s) => prim(s, "...need a new line before emitting a source file here."@),
        BlockModeElem::AnyToken(s) => prim(s, "...need a new line before any other content."@),
    }
}

/// The message for a syntax error; `emitted` is how the object that code emitted reads, where the
/// error has one.
pub open spec fn syntax_diagnostic(err: TTSyntaxError, emitted: Seq<char>) -> DiagnosticView {
    match err {
        TTSyntaxError::CodeCloseOutsideCode(span) => DiagnosticView {
            severity: Severity::Error,
            code: None,
message: "Code close token in text mode"@,
            labels: seq![prim(span, "Code-close here"@)],
            notes: seq!["If you want to use ']' in text, try escaping it with a backslash '\\]'"@],
        },
        TTSyntaxError::BlockScopeCloseOutsideScope(span) => DiagnosticView {
            severity: Severity::Error,
            code: None,
message: "Scope-close token found in block-mode when no block scopes are open"@,
            labels: seq![prim(span, "Scope-close here"@)],
            notes: seq!["If you want to use '}' in text, try escaping it with a backslash '\\}'"@],
        },
        TTSyntaxError::InlineScopeCloseOutsideScope(span) => DiagnosticView {
            severity: Severity::Error,
            code: None,
message: "Scope-close token found in inline-mode when no inline scopes are open"@,
            labels: seq![prim(span, "Scope-close here"@)],
            notes: seq![
                "If you want to use '}' in text, try escaping it with a backslash '\\}'"@,
                "If you meant to end an enclosing block-scope, put the '}' on a separate line."@,
            ],
        },
        TTSyntaxError::RawScopeCloseOutsideRawScope(span) => DiagnosticView {
            severity: Severity::Error,
            code: None,
message: "Raw-scope-close token found when no raw scope is open"@,
            labels: seq![prim(span, "Raw-scope-close here"@)],
            notes: seq![
                "If you want to use this in text, try escaping each character with a backslash."@,
                "e.g. '}###' = '\\}\\#\\#\\#'"@,
            ],
        },
        TTSyntaxError::EndedInsideCode { code_start, eof_span } => DiagnosticView {
            severity: Severity::Error,
            code: None,
message: "File ended while parsing code"@,
            labels: seq![prim(code_start, "Started parsing code here"@), sec(eof_span, "File ends here"@)],
            notes: seq![
                "Make sure to close code mode!"@,
                "If you meant to use '[' as text instead of starting code, try escaping it with a backslash '\\['"@,
            ],
        },
        TTSyntaxError::EndedInsideRawScope { raw_scope_start, eof_span } => DiagnosticView {
            severity: Severity::Error,
            code: None,
message: "File ended while parsing raw scope"@,
            labels: seq![prim(raw_scope_start, "Started parsing raw scope here"@), sec(eof_span, "File ends here"@)],
            notes: seq![
                "Make sure to close the raw scope!"@,
                "If you meant to use this as text instead of opening a raw scope,\ntry escaping each character with a backslash"@,
                "e.g. '###{' = '\\#\\#\\#\\{'"@,
            ],
        },
        TTSyntaxError::EndedInsideScope { scope_start, eof_span } => DiagnosticView {
            severity: Severity::Error,
            code: None,
message: "File ended inside scope"@,
            labels: seq![prim(scope_start, "Scope opened here"@), sec(eof_span, "File ends here"@)],
            notes: seq![
                "Make sure to close the scope!"@,
                "If you meant to use '{' in text instead of opening a scope, try escaping it with a backslash '\\{'"@,
            ],
        },
        TTSyntaxError::BlockScopeOpenedInInlineMode { inl_mode, block_scope_open } => DiagnosticView {
            severity: Severity::Error,
            code: None,
message: "Block scope opened in inline mode"@,
            labels: inline_mode_labels(inl_mode).push(prim(block_scope_open, "Block scope opened here"@)),
            notes: seq!["A scope-open followed by whitespace and a newline is a block-scope-open."@] + match inl_mode {
                InlineModeContext::Paragraph(_) => seq![
                    "Block scopes can't be opened inside paragraphs."@,
                    "Try opening this scope on a new line, separated from the paragraph."@,
                ],
                InlineModeContext::Inlines { .. } => seq!["Block scopes can't be opened inside inline scopes."@],
            },
        },
        TTSyntaxError::CodeEmittedBlockInInlineMode { inl_mode, code_span, .. } => DiagnosticView {
            severity: Severity::Error,
            code: None,
message: "A `Block` was emitted by code in inline mode."@,
            labels: inline_mode_labels(inl_mode).push(prim(code_span, "Block emitted by code here"@)),
            notes: seq![
                "Emitted an object '"@ + emitted + "', which implements `Block`"@,
                by_inline_mode(inl_mode, "Blocks can't be emitted inside paragraphs."@, "Blocks can't be emitted inside inline scopes."@),
            ],
        },
        TTSyntaxError::CodeEmittedHeaderInInlineMode { inl_mode, code_span, .. } => DiagnosticView {
            severity: Severity::Error,
            code: None,
message: "A `Header` was emitted by code in inline mode."@,
            labels: inline_mode_labels(inl_mode).push(prim(code_span, "Header emitted by code here"@)),
            notes: seq![
                "Emitted an object '"@ + emitted + "', which implements `Header`"@,
                by_inline_mode(inl_mode, "Headers can't be emitted inside paragraphs."@, "Headers can't be emitted inside inline scopes."@),
            ],
        },
        TTSyntaxError::CodeEmittedSourceInInlineMode { inl_mode, code_span } => DiagnosticView {
            severity: Severity::Error,
            code: None,
message: "A `TurnipTextSource` file was emitted by code in inline mode."@,
            labels: inline_mode_labels(inl_mode).push(prim(code_span, "TurnipTextSource emitted by code here"@)),
            notes: seq![
                by_inline_mode(
                    inl_mode,
                    "New source files can't be emitted inside paragraphs."@,
                    "New source files can't be emitted inside inline scopes."@,
                ),
            ],
        },
        TTSyntaxError::SentenceBreakInInlineScope { scope_start, sentence_break } => DiagnosticView {
            severity: Severity::Error,
            code: None,
message: "Paragraph break found inside an inline scope"@,
            labels: seq![prim(scope_start, "Inline scope opened here"@), sec(sentence_break, "Sentence break here"@)],
            notes: seq![
                "Inline scopes can only contain one line."@,
                "Try closing the inline scope with '}', escaping the sentence-break with a backslash '\\',\nor make it a block scope by putting a newline directly after the scope-open."@,
            ],
        },
        TTSyntaxError::EscapedNewlineInBlockMode { newline } => DiagnosticView {
            severity: Severity::Error,
            code: None,
message: "Escaped newline found in block-mode"@,
            labels: seq![prim(newline, "Backslash-escaped newline here"@)],
            notes: seq![
                "Escaping a newline with a backslash means 'continue the line'."@,
                "It is valid inside Paragraphs and inline scopes, but it doesn't have any meaning in block mode."@,
                "Delete the backslash to remove this error."@,
            ],
        },
        TTSyntaxError::InsufficientBlockSeparation { last_block, next_block_start } => DiagnosticView {
            severity: Severity::Error,
            code: None,
message: "Insufficient separation between block-level elements"@,
            labels: last_block_labels(last_block).push(next_block_label(next_block_start)),
            notes: seq![
                "Blocks must be visually separated in turnip_text code."@,
                "Start the new block on a new line."@,
                "Headers and TurnipTextSource files are also block-level elements, and must also be separated."@,
            ],
        },
    }
}

/// The number of primary labels among `ls`.
pub open spec fn primary_count(ls: Seq<LabelView>) -> nat
    decreases ls.len(),
{
    if ls.len() == 0 {
        0
    } else {
        primary_count(ls.drop_last()) + if ls.last().style == LabelStyle::Primary { 1nat } else { 0nat }
    }
}

/// Where a span lies: its file and its byte range.
pub open spec fn span_place(sp: ParseSpan) -> (usize, usize, usize) {
    (sp.file_idx, sp.start.byte_ofs, sp.end.byte_ofs)
}

/// Where a label lies: its file and its byte range.
pub open spec fn label_place(l: LabelView) -> (usize, usize, usize) {
    (l.file_id, l.start, l.end)
}

/// Where the spans of an inline-mode context lie.
pub open spec fn inline_mode_places(m: InlineModeContext) -> Set<(usize, usize, usize)> {
    match m {
        InlineModeContext::Paragraph(c) => set![span_place(c.first_tok), span_place(c.last_tok)],
        InlineModeContext::Inlines { scope_start } => set![span_place(scope_start)],
    }
}

/// Where the spans of a block-level element lie.
pub open spec fn block_elem_places(b: BlockModeElem) -> Set<(usize, usize, usize)> {
    match b {
        BlockModeElem::Para(c) => set![span_place(c.first_tok), span_place(c.last_tok)],
        BlockModeElem::Blocks(c) => set![span_place(c.first_tok), span_place(c.last_tok)],
        BlockModeElem::HeaderFromCode(s) => set![span_place(s)],
        BlockModeElem::BlockFromCode(s) => set![span_place(s)],
        BlockModeElem::SourceFromCode(s) => set![span_place(s)],
        BlockModeElem::AnyToken(s) => set![span_place(s)],
    }
}

/// Where the spans that a syntax error carries lie.
pub open spec fn syntax_error_places(err: TTSyntaxError) -> Set<(usize, usize, usize)> {
    match err {
        TTSyntaxError::CodeCloseOutsideCode(s) => set![span_place(s)],
        TTSyntaxError::BlockScopeCloseOutsideScope(s) => set![span_place(s)],
        TTSyntaxError::InlineScopeCloseOutsideScope(s) => set![span_place(s)],
        TTSyntaxError::RawScopeCloseOutsideRawScope(s) => set![span_place(s)],
        TTSyntaxError::EndedInsideCode { code_start, eof_span } => set![span_place(code_start), span_place(eof_span)],
        TTSyntaxError::EndedInsideRawScope { raw_scope_start, eof_span } => set![
            span_place(raw_scope_start),
            span_place(eof_span),
        ],
        TTSyntaxError::EndedInsideScope { scope_start, eof_span } => set![span_place(scope_start), span_place(eof_span)],
        TTSyntaxError::BlockScopeOpenedInInlineMode { inl_mode, block_scope_open } => inline_mode_places(
            inl_mode,
        ).insert(span_place(block_scope_open)),
        TTSyntaxError::CodeEmittedHeaderInInlineMode { inl_mode, code_span, .. } => inline_mode_places(inl_mode).insert(
            span_place(code_span),
        ),
        TTSyntaxError::CodeEmittedBlockInInlineMode { inl_mode, code_span, .. } => inline_mode_places(inl_mode).insert(
            span_place(code_span),
        ),
        TTSyntaxError::CodeEmittedSourceInInlineMode { inl_mode, code_span } => inline_mode_places(inl_mode).insert(
            span_place(code_span),
        ),
        TTSyntaxError::SentenceBreakInInlineScope { scope_start, sentence_break } => set![
            span_place(scope_start),
            span_place(sentence_break),
        ],
        TTSyntaxError::EscapedNewlineInBlockMode { newline } => set![span_place(newline)],
        TTSyntaxError::InsufficientBlockSeparation { last_block, next_block_start } => block_elem_places(last_block).union(
            block_elem_places(next_block_start),
        ),
    }
}

proof fn lemma_primary_count_push_one(ls: Seq<LabelView>, l: LabelView)
    ensures
        primary_count(ls.push(l)) == primary_count(ls) + if l.style == LabelStyle::Primary { 1nat } else { 0nat },
{
    assert(ls.push(l).drop_last() =~= ls);
}

proof fn lemma_inline_mode_labels(m: InlineModeContext)
    ensures
        primary_count(inline_mode_labels(m)) == 0,
        forall|i: int|
            0 <= i < inline_mode_labels(m).len() ==> inline_mode_places(m).contains(
                label_place(#[trigger] inline_mode_labels(m)[i]),
            ),
{
    lemma_count_secondary(inline_mode_labels(m));
}

proof fn lemma_last_block_labels(b: BlockModeElem)
    ensures
        primary_count(last_block_labels(b)) == 0,
        forall|i: int|
            0 <= i < last_block_labels(b).len() ==> block_elem_places(b).contains(
                label_place(#[trigger] last_block_labels(b)[i]),
            ),
        next_block_label(b).style == LabelStyle::Primary,
        block_elem_places(b).contains(label_place(next_block_label(b))),
{
    lemma_count_secondary(last_block_labels(b));
}

/// Labels that are all secondary count no primary one.
proof fn lemma_count_secondary(ls: Seq<LabelView>)
    requires
        forall|i: int| 0 <= i < ls.len() ==> (#[trigger] ls[i]).style == LabelStyle::Secondary,
    ensures
        primary_count(ls) == 0,
    decreases ls.len(),
{
    if ls.len() > 0 {
        lemma_count_secondary(ls.drop_last());
    }
}

/// The labels `ls` followed by `l`: where each of `ls` lies in `places` and `l` lies in `places`,
/// all do.
proof fn lemma_places_push(ls: Seq<LabelView>, l: LabelView, places: Set<(usize, usize, usize)>)
    requires
        forall|i: int| 0 <= i < ls.len() ==> places.contains(label_place(#[trigger] ls[i])),
        places.contains(label_place(l)),
    ensures
        forall|i: int| 0 <= i < ls.push(l).len() ==> places.contains(label_place(#[trigger] ls.push(l)[i])),
{
    assert forall|i: int| 0 <= i < ls.push(l).len() implies places.contains(label_place(#[trigger] ls.push(l)[i])) by {
        if i < ls.len() {
            assert(ls.push(l)[i] == ls[i]);
        }
    }
}

/// The message of every syntax error has exactly one primary label, on the cause of the error, and
/// every label lies on the file and the byte range of a span that the error carries.
#[verifier::spinoff_prover]
pub proof fn lemma_syntax_diagnostic_labels(err: TTSyntaxError, emitted: Seq<char>)
    ensures
        primary_count(syntax_diagnostic(err, emitted).labels) == 1,
        forall|i: int|
            0 <= i < syntax_diagnostic(err, emitted).labels.len() ==> syntax_error_places(err).contains(
                label_place(#[trigger] syntax_diagnostic(err, emitted).labels[i]),
            ),
{
    let places = syntax_error_places(err);
    match err {
        TTSyntaxError::BlockScopeOpenedInInlineMode { inl_mode, block_scope_open } => {
            lemma_inline_mode_labels(inl_mode);
            lemma_places_push(inline_mode_labels(inl_mode), prim(block_scope_open, "Block scope opened here"@), places);
            lemma_primary_count_push_one(inline_mode_labels(inl_mode), prim(block_scope_open, "Block scope opened here"@));
        },
        TTSyntaxError::CodeEmittedHeaderInInlineMode { inl_mode, code_span, .. } => {
            lemma_inline_mode_labels(inl_mode);
            lemma_places_push(inline_mode_labels(inl_mode), prim(code_span, "Header emitted by code here"@), places);
            lemma_primary_count_push_one(inline_mode_labels(inl_mode), prim(code_span, "Header emitted by code here"@));
        },
        TTSyntaxError::CodeEmittedBlockInInlineMode { inl_mode, code_span, .. } => {
            lemma_inline_mode_labels(inl_mode);
            lemma_places_push(inline_mode_labels(inl_mode), prim(code_span, "Block emitted by code here"@), places);
            lemma_primary_count_push_one(inline_mode_labels(inl_mode), prim(code_span, "Block emitted by code here"@));
        },
        TTSyntaxError::CodeEmittedSourceInInlineMode { inl_mode, code_span } => {
            lemma_inline_mode_labels(inl_mode);
            lemma_places_push(
                inline_mode_labels(inl_mode),
                prim(code_span, "TurnipTextSource emitted by code here"@),
                places,
            );
            lemma_primary_count_push_one(inline_mode_labels(inl_mode), prim(code_span, "TurnipTextSource emitted by code here"@));
        },
        TTSyntaxError::InsufficientBlockSeparation { last_block, next_block_start } => {
            lemma_last_block_labels(last_block);
            lemma_last_block_labels(next_block_start);
            lemma_places_push(last_block_labels(last_block), next_block_label(next_block_start), places);
            lemma_primary_count_push_one(last_block_labels(last_block), next_block_label(next_block_start));
        },
        _ => {
            let ls = syntax_diagnostic(err, emitted).labels;
            assert(ls.len() == 1 || ls.len() == 2);
            assert(ls[0].style == LabelStyle::Primary);
            reveal_with_fuel(primary_count, 3);
            if ls.len() == 2 {
                assert(ls[1].style == LabelStyle::Secondary);
                assert(ls.drop_last() =~= seq![ls[0]]);
                assert(ls.drop_last().drop_last() =~= Seq::<LabelView>::empty());
            } else {
                assert(ls.drop_last() =~= Seq::<LabelView>::empty());
            }
        },
    }
}

fn push_label(labels: &mut Vec<Label>, style: LabelStyle, span: ParseSpan, message: &str)
    ensures
        labels_view(final(labels)@) == labels_view(old(labels)@).push(label_on(style, span, message@)),
{
    let l = Label { style, file_id: span.file_idx, start: span.start.byte_ofs, end: span.end.byte_ofs, message: message.to_owned() };
    labels.push(l);
    proof {
        assert(labels_view(labels@) =~= labels_view(old(labels)@).push(label_on(style, span, message@)));
    }
}

fn push_note(notes: &mut Vec<String>, text: String)
    ensures
        notes_view(final(notes)@) == notes_view(old(notes)@).push(text@),
{
    let ghost t = text@;
    notes.push(text);
    proof {
        assert(notes_view(notes@) =~= notes_view(old(notes)@).push(t));
    }
}

fn push_inline_mode_ctx_labels(labels: &mut Vec<Label>, inl_mode: &InlineModeContext)
    ensures
        labels_view(final(labels)@) == labels_view(old(labels)@) + inline_mode_labels(*inl_mode),
{
    match inl_mode {
        InlineModeContext::Paragraph(c) => {
            push_label(labels, LabelStyle::Secondary, c.first_tok, "Paragraph started here...");
            push_label(labels, LabelStyle::Secondary, c.last_tok, "...still in inline mode here");
        },
        InlineModeContext::Inlines { scope_start } => {
            push_label(labels, LabelStyle::Secondary, *scope_start, "Inline scope started here");
        },
    }
    proof {
        assert(labels_view(labels@) =~= labels_view(old(labels)@) + inline_mode_labels(*inl_mode));
    }
}

/// `a`, then `b`, then `c`.
fn concat3(a: &str, b: &str, c: &str) -> (r: String)
    ensures
        r@ == a@ + b@ + c@,
{
    let mut s = a.to_owned();
    s.append(b);
    s.append(c);
    s
}

/// The message for a syntax error; `emitted` is how the object that code emitted reads (used for
/// blocks and headers emitted in inline mode).
#[verifier::spinoff_prover]
#[verifier::rlimit(40)]
pub fn detailed_syntax_message(err: &TTSyntaxError, emitted: &str) -> (r: Diagnostic)
    ensures
        r.view() == syntax_diagnostic(*err, emitted@),
{
    let mut labels: Vec<Label> = Vec::new();
    let mut notes: Vec<String> = Vec::new();
    let message: &str = match err {
        TTSyntaxError::CodeCloseOutsideCode(span) => {
            push_label(&mut labels, LabelStyle::Primary, *span, "Code-close here");
            push_note(&mut notes, "If you want to use ']' in text, try escaping it with a backslash '\\]'".to_owned());
            "Code close token in text mode"
        },
        TTSyntaxError::BlockScopeCloseOutsideScope(span) => {
            push_label(&mut labels, LabelStyle::Primary, *span, "Scope-close here");
            push_note(&mut notes, "If you want to use '}' in text, try escaping it with a backslash '\\}'".to_owned());
            "Scope-close token found in block-mode when no block scopes are open"
        },
        TTSyntaxError::InlineScopeCloseOutsideScope(span) => {
            push_label(&mut labels, LabelStyle::Primary, *span, "Scope-close here");
            push_note(&mut notes, "If you want to use '}' in text, try escaping it with a backslash '\\}'".to_owned());
            push_note(&mut notes, "If you meant to end an enclosing block-scope, put the '}' on a separate line.".to_owned());
            "Scope-close token found in inline-mode when no inline scopes are open"
        },
        TTSyntaxError::RawScopeCloseOutsideRawScope(span) => {
            push_label(&mut labels, LabelStyle::Primary, *span, "Raw-scope-close here");
            push_note(&mut notes, "If you want to use this in text, try escaping each character with a backslash.".to_owned());
            push_note(&mut notes, "e.g. '}###' = '\\}\\#\\#\\#'".to_owned());
            "Raw-scope-close token found when no raw scope is open"
        },
        TTSyntaxError::EndedInsideCode { code_start, eof_span } => {
            push_label(&mut labels, LabelStyle::Primary, *code_start, "Started parsing code here");
            push_label(&mut labels, LabelStyle::Secondary, *eof_span, "File ends here");
            push_note(&mut notes, "Make sure to close code mode!".to_owned());
            push_note(
                &mut notes,
                "If you meant to use '[' as text instead of starting code, try escaping it with a backslash '\\['".to_owned(),
            );
            "File ended while parsing code"
        },
        TTSyntaxError::EndedInsideRawScope { raw_scope_start, eof_span } => {
            push_label(&mut labels, LabelStyle::Primary, *raw_scope_start, "Started parsing raw scope here");
            push_label(&mut labels, LabelStyle::Secondary, *eof_span, "File ends here");
            push_note(&mut notes, "Make sure to close the raw scope!".to_owned());
            push_note(
                &mut notes,
                "If you meant to use this as text instead of opening a raw scope,\ntry escaping each character with a backslash".to_owned(),
            );
            push_note(&mut notes, "e.g. '###{' = '\\#\\#\\#\\{'".to_owned());
            "File ended while parsing raw scope"
        },
        TTSyntaxError::EndedInsideScope { scope_start, eof_span } => {
            push_label(&mut labels, LabelStyle::Primary, *scope_start, "Scope opened here");
            push_label(&mut labels, LabelStyle::Secondary, *eof_span, "File ends here");
            push_note(&mut notes, "Make sure to close the scope!".to_owned());
            push_note(
                &mut notes,
                "If you meant to use '{' in text instead of opening a scope, try escaping it with a backslash '\\{'".to_owned(),
            );
            "File ended inside scope"
        },
        TTSyntaxError::BlockScopeOpenedInInlineMode { inl_mode, block_scope_open } => {
            push_inline_mode_ctx_labels(&mut labels, inl_mode);
            push_label(&mut labels, LabelStyle::Primary, *block_scope_open, "Block scope opened here");
            push_note(&mut notes, "A scope-open followed by whitespace and a newline is a block-scope-open.".to_owned());
            match inl_mode {
                InlineModeContext::Paragraph(_) => {
                    push_note(&mut notes, "Block scopes can't be opened inside paragraphs.".to_owned());
                    push_note(&mut notes, "Try opening this scope on a new line, separated from the paragraph.".to_owned());
                },
                InlineModeContext::Inlines { .. } => {
                    push_note(&mut notes, "Block scopes can't be opened inside inline scopes.".to_owned());
                },
            }
            "Block scope opened in inline mode"
        },
        TTSyntaxError::CodeEmittedBlockInInlineMode { inl_mode, code_span, .. } => {
            push_inline_mode_ctx_labels(&mut labels, inl_mode);
            push_label(&mut labels, LabelStyle::Primary, *code_span, "Block emitted by code here");
            push_note(&mut notes, concat3("Emitted an object '", emitted, "', which implements `Block`"));
            match inl_mode {
                InlineModeContext::Paragraph(_) => push_note(&mut notes, "Blocks can't be emitted inside paragraphs.".to_owned()),
                InlineModeContext::Inlines { .. } => push_note(&mut notes, "Blocks can't be emitted inside inline scopes.".to_owned()),
            }
            "A `Block` was emitted by code in inline mode."
        },
        TTSyntaxError::CodeEmittedHeaderInInlineMode { inl_mode, code_span, .. } => {
            push_inline_mode_ctx_labels(&mut labels, inl_mode);
            push_label(&mut labels, LabelStyle::Primary, *code_span, "Header emitted by code here");
            push_note(&mut notes, concat3("Emitted an object '", emitted, "', which implements `Header`"));
            match inl_mode {
                InlineModeContext::Paragraph(_) => push_note(&mut notes, "Headers can't be emitted inside paragraphs.".to_owned()),
                InlineModeContext::Inlines { .. } => push_note(&mut notes, "Headers can't be emitted inside inline scopes.".to_owned()),
            }
            "A `Header` was emitted by code in inline mode."
        },
        TTSyntaxError::CodeEmittedSourceInInlineMode { inl_mode, code_span } => {
            push_inline_mode_ctx_labels(&mut labels, inl_mode);
            push_label(&mut labels, LabelStyle::Primary, *code_span, "TurnipTextSource emitted by code here");
            match inl_mode {
                InlineModeContext::Paragraph(_) => push_note(&mut notes, "New source files can't be emitted inside paragraphs.".to_owned()),
                InlineModeContext::Inlines { .. } => push_note(
                    &mut notes,
                    "New source files can't be emitted inside inline scopes.".to_owned(),
                ),
            }
            "A `TurnipTextSource` file was emitted by code in inline mode."
        },
        TTSyntaxError::SentenceBreakInInlineScope { scope_start, sentence_break } => {
            push_label(&mut labels, LabelStyle::Primary, *scope_start, "Inline scope opened here");
            push_label(&mut labels, LabelStyle::Secondary, *sentence_break, "Sentence break here");
            push_note(&mut notes, "Inline scopes can only contain one line.".to_owned());
            push_note(
                &mut notes,
                "Try closing the inline scope with '}', escaping the sentence-break with a backslash '\\',\nor make it a block scope by putting a newline directly after the scope-open.".to_owned(),
            );
            "Paragraph break found inside an inline scope"
        },
        TTSyntaxError::EscapedNewlineInBlockMode { newline } => {
            push_label(&mut labels, LabelStyle::Primary, *newline, "Backslash-escaped newline here");
            push_note(&mut notes, "Escaping a newline with a backslash means 'continue the line'.".to_owned());
            push_note(
                &mut notes,
                "It is valid inside Paragraphs and inline scopes, but it doesn't have any meaning in block mode.".to_owned(),
            );
            push_note(&mut notes, "Delete the backslash to remove this error.".to_owned());
            "Escaped newline found in block-mode"
        },
        TTSyntaxError::InsufficientBlockSeparation { last_block, next_block_start } => {
            match last_block {
                BlockModeElem::HeaderFromCode(s) => push_label(&mut labels, LabelStyle::Secondary, *s, "A Header was emitted here..."),
                BlockModeElem::Para(c) => {
                    push_label(&mut labels, LabelStyle::Secondary, c.first_tok, "A Paragraph started here...");
                    push_label(&mut labels, LabelStyle::Secondary, c.last_tok, "...and was still in progress here...");
                },
                BlockModeElem::Blocks(c) => {
                    push_label(&mut labels, LabelStyle::Secondary, c.first_tok, "A block scope started here...");
                    push_label(&mut labels, LabelStyle::Secondary, c.last_tok, "...and ended here...");
                },
                BlockModeElem::BlockFromCode(s) => push_label(&mut labels, LabelStyle::Secondary, *s, "A Block was emitted here..."),
                BlockModeElem::SourceFromCode(s) => push_label(
                    &mut labels,
                    LabelStyle::Secondary,
                    *s,
                    "A new source file was emitted here...",
                ),
                BlockModeElem::AnyToken(s) => push_label(&mut labels, LabelStyle::Secondary, *s, "Some Block was generated by this..."),
            }
            match next_block_start {
                BlockModeElem::HeaderFromCode(s) => push_label(
                    &mut labels,
                    LabelStyle::Primary,
                    *s,
                    "...need a new line before emitting a Header here.",
                ),
                BlockModeElem::Para(c) => push_label(
                    &mut labels,
                    LabelStyle::Primary,
                    c.first_tok,
                    "...need a new line before starting a Paragraph here.",
                ),
                BlockModeElem::Blocks(c) => push_label(
                    &mut labels,
                    LabelStyle::Primary,
                    c.first_tok,
                    "...need a new line before starting a block scope here.",
                ),
                BlockModeElem::BlockFromCode(s) => push_label(
                    &mut labels,
                    LabelStyle::Primary,
                    *s,
                    "...need a new line before emitting a block here.",
                ),
                BlockModeElem::SourceFromCode(s) => push_label(
                    &mut labels,
                    LabelStyle::Primary,
                    *s,
                    "...need a new line before emitting a source file here.",
                ),
                BlockModeElem::AnyToken(s) => push_label(
                    &mut labels,
                    LabelStyle::Primary,
                    *s,
                    "...need a new line before any other content.",
                ),
            }
            push_note(&mut notes, "Blocks must be visually separated in turnip_text code.".to_owned());
            push_note(&mut notes, "Start the new block on a new line.".to_owned());
            push_note(
                &mut notes,
                "Headers and TurnipTextSource files are also block-level elements, and must also be separated.".to_owned(),
            );
            "Insufficient separation between block-level elements"
        },
    };
    let r = Diagnostic { severity: Severity::Error, code: None, message: message.to_owned(), labels, notes };
    proof {
        let want = syntax_diagnostic(*err, emitted@);
        assert(r.view().code == want.code);
        assert(r.view().labels =~= want.labels);
        assert(r.view().notes =~= want.notes);
    }
    r
}


/// What Python can tell of an object that code produced: how it reads, its name and docstring if it
/// has them, whether it can be called, and which of the roles of turnip-text it fits.
#[derive(Debug)]
pub struct ObjectInfo {
    pub stringified: String,
    pub name: Option<String>,
    pub docstring: Option<String>,
    pub callable: bool,
    pub fits_header: bool,
    pub fits_block: bool,
    pub fits_inline: bool,
    /// A string, integer or float, which can be made inline
    pub coercible_to_inline: bool,
    pub is_source: bool,
    pub fits_block_builder: bool,
    pub fits_inline_builder: bool,
    pub fits_raw_builder: bool,
}

/// Notes on what the object is: its name if it has one, and how it reads.
pub open spec fn name_notes(o: ObjectInfo) -> Seq<Seq<char>> {
    match o.name {
        Some(n) => seq!["Instead, Python emitted '"@ + n@ + "'"@, "which is '"@ + o.stringified@ + "'"@],
        None => seq!["Instead, Python emitted '"@ + o.stringified@ + "'"@],
    }
}

/// A note with the object's docstring, if it has one.
pub open spec fn doc_notes(o: ObjectInfo) -> Seq<Seq<char>> {
    match o.docstring {
        Some(d) => seq!["which had a docstring:\n"@ + d@],
        None => seq![],
    }
}

/// The scope a builder was attached to, and the builder it needed.
pub open spec fn build_mode_words(m: UserPythonBuildMode) -> (Seq<char>, Seq<char>) {
    match m {
        UserPythonBuildMode::FromBlock => ("a block scope"@, "a BlockScopeBuilder"@),
        UserPythonBuildMode::FromInline => ("an inline scope"@, "an InlineScopeBuilder"@),
        UserPythonBuildMode::FromRaw => ("a raw scope"@, "a RawScopeBuilder"@),
    }
}

/// The message for an object that code produced and that did not fit; `o` is what Python can tell
/// of the object.
pub open spec fn user_python_diagnostic(err: TTUserPythonError, o: ObjectInfo) -> DiagnosticView {
    match err {
        TTUserPythonError::CoercingEvalBracketToElement { code_ctx, .. } => DiagnosticView {
            severity: Severity::Error,
            code: None,
message: "Python code produced an unsupported object"@,
            labels: seq![prim(code_ctx.full_span_spec(), "Object produced from this code"@)],
            notes: seq![
                "To emit an object into the document it must be None, a TurnipTextSource, a Header, a Block, or an Inline."@,
            ] + name_notes(o) + doc_notes(o) + note_if(o.callable, "This object is callable - try calling it?"@)
                + note_if(o.fits_block_builder, "This object fits BlockScopeBuilder - try attaching a block scope?"@)
                + note_if(o.fits_inline_builder, "This object fits InlineScopeBuilder - try attaching an inline scope?"@)
                + note_if(o.fits_raw_builder, "This object fits RawScopeBuilder - try attaching a raw scope?"@),
        },
        TTUserPythonError::CoercingEvalBracketToBuilder { code_ctx, scope_open, build_mode, .. } => {
            let (arg, builder) = build_mode_words(build_mode);
            DiagnosticView {
                severity: Severity::Error,
                code: None,
message: "Python code attached to "@ + arg + " didn't produce "@ + builder,
                labels: seq![
                    prim(code_ctx.full_span_spec(), "Object produced here wasn't "@ + builder),
                    sec(scope_open, "Scope attached here"@),
                ],
                notes: seq!["If eval-brackets are attached to "@ + arg + ", the produced object must be a "@ + builder] + name_notes(o)
                    + doc_notes(o)
                    + note_if(o.fits_header, "The builder does fit Header, try removing the argument"@)
                    + note_if(o.fits_block, "The builder does fit Block, try removing the argument"@)
                    + note_if(o.fits_inline, "The builder does fit Inline, try removing the argument"@)
                    + note_if(o.coercible_to_inline, "The builder is coercible to Inline, try removing the argument"@)
                    + note_if(o.is_source, "The builder is a TurnipTextSource, try removing the argument"@)
                    + note_if(o.callable, "This object is callable - try calling it to get a builder?"@)
                    + note_if(o.fits_block_builder, "The builder does fit BlockScopeBuilder, try attaching a block scope instead"@)
                    + note_if(o.fits_inline_builder, "The builder does fit InlineScopeBuilder, try attaching an inline scope instead"@)
                    + note_if(o.fits_raw_builder, "The builder does fit RawScopeBuilder, try attaching a raw scope instead"@),
            }
        },
    }
}

fn push_note_if(notes: &mut Vec<String>, b: bool, text: &str)
    ensures
        notes_view(final(notes)@) == notes_view(old(notes)@) + note_if(b, text@),
{
    if b {
        push_note(notes, text.to_owned());
    }
    proof {
        assert(notes_view(notes@) =~= notes_view(old(notes)@) + note_if(b, text@));
    }
}

fn push_object_notes(notes: &mut Vec<String>, obj: &ObjectInfo)
    ensures
        notes_view(final(notes)@) == notes_view(old(notes)@) + name_notes(*obj) + doc_notes(*obj),
{
    match &obj.name {
        Some(n) => {
            push_note(notes, concat3("Instead, Python emitted '", n.as_str(), "'"));
            push_note(notes, concat3("which is '", obj.stringified.as_str(), "'"));
        },
        None => push_note(notes, concat3("Instead, Python emitted '", obj.stringified.as_str(), "'")),
    }
    match &obj.docstring {
        Some(d) => {
            let mut s = "which had a docstring:\n".to_owned();
            s.append(d.as_str());
            push_note(notes, s);
        },
        None => {},
    }
    proof {
        assert(notes_view(notes@) =~= notes_view(old(notes)@) + name_notes(*obj) + doc_notes(*obj));
    }
}

fn element_message(err: &TTUserPythonError, obj: &ObjectInfo) -> (r: Diagnostic)
    requires
        err is CoercingEvalBracketToElement,
    ensures
        r.view() == user_python_diagnostic(*err, *obj),
{
    let mut labels: Vec<Label> = Vec::new();
    let mut notes: Vec<String> = Vec::new();
    push_note(
        &mut notes,
        "To emit an object into the document it must be None, a TurnipTextSource, a Header, a Block, or an Inline.".to_owned(),
    );
    push_object_notes(&mut notes, obj);
    push_note_if(&mut notes, obj.callable, "This object is callable - try calling it?");
    push_note_if(&mut notes, obj.fits_block_builder, "This object fits BlockScopeBuilder - try attaching a block scope?");
    push_note_if(&mut notes, obj.fits_inline_builder, "This object fits InlineScopeBuilder - try attaching an inline scope?");
    push_note_if(&mut notes, obj.fits_raw_builder, "This object fits RawScopeBuilder - try attaching a raw scope?");
    let code_ctx = match err {
        TTUserPythonError::CoercingEvalBracketToElement { code_ctx, .. } => *code_ctx,
        TTUserPythonError::CoercingEvalBracketToBuilder { code_ctx, .. } => *code_ctx,
    };
    push_label(&mut labels, LabelStyle::Primary, code_ctx.full_span(), "Object produced from this code");
    let r = Diagnostic { severity: Severity::Error, code: None, message: "Python code produced an unsupported object".to_owned(), labels, notes };
    proof {
        let want = user_python_diagnostic(*err, *obj);
        assert(r.view().labels =~= want.labels);
        assert(r.view().notes =~= want.notes);
    }
    r
}

fn builder_notes(notes: &mut Vec<String>, obj: &ObjectInfo)
    ensures
        notes_view(final(notes)@) == notes_view(old(notes)@)
            + note_if(obj.fits_header, "The builder does fit Header, try removing the argument"@)
            + note_if(obj.fits_block, "The builder does fit Block, try removing the argument"@)
            + note_if(obj.fits_inline, "The builder does fit Inline, try removing the argument"@)
            + note_if(obj.coercible_to_inline, "The builder is coercible to Inline, try removing the argument"@)
            + note_if(obj.is_source, "The builder is a TurnipTextSource, try removing the argument"@)
            + note_if(obj.callable, "This object is callable - try calling it to get a builder?"@)
            + note_if(obj.fits_block_builder, "The builder does fit BlockScopeBuilder, try attaching a block scope instead"@)
            + note_if(obj.fits_inline_builder, "The builder does fit InlineScopeBuilder, try attaching an inline scope instead"@)
            + note_if(obj.fits_raw_builder, "The builder does fit RawScopeBuilder, try attaching a raw scope instead"@),
{
    push_note_if(notes, obj.fits_header, "The builder does fit Header, try removing the argument");
    push_note_if(notes, obj.fits_block, "The builder does fit Block, try removing the argument");
    push_note_if(notes, obj.fits_inline, "The builder does fit Inline, try removing the argument");
    push_note_if(notes, obj.coercible_to_inline, "The builder is coercible to Inline, try removing the argument");
    push_note_if(notes, obj.is_source, "The builder is a TurnipTextSource, try removing the argument");
    push_note_if(notes, obj.callable, "This object is callable - try calling it to get a builder?");
    push_note_if(notes, obj.fits_block_builder, "The builder does fit BlockScopeBuilder, try attaching a block scope instead");
    push_note_if(notes, obj.fits_inline_builder, "The builder does fit InlineScopeBuilder, try attaching an inline scope instead");
    push_note_if(notes, obj.fits_raw_builder, "The builder does fit RawScopeBuilder, try attaching a raw scope instead");
}

fn builder_message(err: &TTUserPythonError, obj: &ObjectInfo) -> (r: Diagnostic)
    requires
        err is CoercingEvalBracketToBuilder,
    ensures
        r.view() == user_python_diagnostic(*err, *obj),
{
    let (code_ctx, scope_open, build_mode) = match err {
        TTUserPythonError::CoercingEvalBracketToBuilder { code_ctx, scope_open, build_mode, .. } => (*code_ctx, *scope_open, *build_mode),
        TTUserPythonError::CoercingEvalBracketToElement { code_ctx, .. } => (*code_ctx, code_ctx.first_tok, UserPythonBuildMode::FromBlock),
    };
    let (arg, builder): (&str, &str) = match build_mode {
        UserPythonBuildMode::FromBlock => ("a block scope", "a BlockScopeBuilder"),
        UserPythonBuildMode::FromInline => ("an inline scope", "an InlineScopeBuilder"),
        UserPythonBuildMode::FromRaw => ("a raw scope", "a RawScopeBuilder"),
    };
    let mut labels: Vec<Label> = Vec::new();
    let mut notes: Vec<String> = Vec::new();
    proof {
        assert(notes_view(notes@) =~= Seq::<Seq<char>>::empty());
        assert(labels_view(labels@) =~= Seq::<LabelView>::empty());
    }
    let mut first = concat3("If eval-brackets are attached to ", arg, ", the produced object must be a ");
    first.append(builder);
    let ghost first_v = first@;
    push_note(&mut notes, first);
    proof {
        assert(Seq::<Seq<char>>::empty().push(first_v) =~= seq![first_v]);
    }
    push_object_notes(&mut notes, obj);
    builder_notes(&mut notes, obj);
    let mut produced = "Object produced here wasn't ".to_owned();
    produced.append(builder);
    push_label(&mut labels, LabelStyle::Primary, code_ctx.full_span(), produced.as_str());
    push_label(&mut labels, LabelStyle::Secondary, scope_open, "Scope attached here");
    let mut message = concat3("Python code attached to ", arg, " didn't produce ");
    message.append(builder);
    let r = Diagnostic { severity: Severity::Error, code: None, message, labels, notes };
    proof {
        let want = user_python_diagnostic(*err, *obj);
        assert(r.view().labels =~= want.labels);
    }
    r
}

/// The message for an object that code produced and that did not fit; `obj` is what Python can tell
/// of the object.
pub fn detailed_user_python_message(err: &TTUserPythonError, obj: &ObjectInfo) -> (r: Diagnostic)
    ensures
        r.view() == user_python_diagnostic(*err, *obj),
{
    match err {
        TTUserPythonError::CoercingEvalBracketToElement { .. } => element_message(err, obj),
        TTUserPythonError::CoercingEvalBracketToBuilder { .. } => builder_message(err, obj),
    }
}

/// The text of a digit.
pub open spec fn digit_text(d: nat) -> Seq<char> {
    if d == 0 {
        "0"@
    } else if d == 1 {
        "1"@
    } else if d == 2 {
        "2"@
    } else if d == 3 {
        "3"@
    } else if d == 4 {
        "4"@
    } else if d == 5 {
        "5"@
    } else if d == 6 {
        "6"@
    } else if d == 7 {
        "7"@
    } else if d == 8 {
        "8"@
    } else {
        "9"@
    }
}

/// `n` written in decimal.
pub open spec fn decimal(n: nat) -> Seq<char>
    decreases n,
{
    if n < 10 {
        digit_text(n)
    } else {
        decimal(n / 10) + digit_text(n % 10)
    }
}

fn digit_str(d: usize) -> (r: &'static str)
    requires
        d < 10,
    ensures
        r@ == digit_text(d as nat),
{
    match d {
        0 => "0",
        1 => "1",
        2 => "2",
        3 => "3",
        4 => "4",
        5 => "5",
        6 => "6",
        7 => "7",
        8 => "8",
        _ => "9",
    }
}

/// Appends `n` in decimal to `s`.
fn push_decimal(s: &mut String, n: usize)
    ensures
        final(s)@ == old(s)@ + decimal(n as nat),
    decreases n,
{
    if n >= 10 {
        push_decimal(s, n / 10);
    }
    s.append(digit_str(n % 10));
    proof {
        assert(final(s)@ =~= old(s)@ + decimal(n as nat)) by {
            if n >= 10 {
                assert(decimal(n as nat) == decimal((n / 10) as nat) + digit_text((n % 10) as nat));
            }
        }
    }
}

/// How many times `x` occurs in `names`.
pub open spec fn count_of(names: Seq<Seq<char>>, x: Seq<char>) -> nat
    decreases names.len(),
{
    if names.len() == 0 {
        0
    } else {
        count_of(names.drop_last(), x) + if names.last() == x {
            1nat
        } else {
            0nat
        }
    }
}

/// The names, each once, in the order in which they first occur.
pub open spec fn distinct_names(names: Seq<Seq<char>>) -> Seq<Seq<char>>
    decreases names.len(),
{
    if names.len() == 0 {
        seq![]
    } else {
        let d = distinct_names(names.drop_last());
        if d.contains(names.last()) {
            d
        } else {
            d.push(names.last())
        }
    }
}

/// Those of `d` that occur more than once in `names`, in order.
pub open spec fn repeated_among(names: Seq<Seq<char>>, d: Seq<Seq<char>>) -> Seq<Seq<char>>
    decreases d.len(),
{
    if d.len() == 0 {
        seq![]
    } else {
        let r = repeated_among(names, d.drop_last());
        if count_of(names, d.last()) > 1 {
            r.push(d.last())
        } else {
            r
        }
    }
}

/// A line for each of `d` that occurs more than once in `names`: the name, and how many times.
pub open spec fn repeat_lines(names: Seq<Seq<char>>, d: Seq<Seq<char>>) -> Seq<char>
    decreases d.len(),
{
    if d.len() == 0 {
        seq![]
    } else {
        let r = repeat_lines(names, d.drop_last());
        let x = d.last();
        if count_of(names, x) > 1 {
            r + "'"@ + x + "':\t"@ + decimal(count_of(names, x)) + " times\n"@
        } else {
            r
        }
    }
}

/// The names of some files.
pub open spec fn file_names(files: Seq<ParsingFile>) -> Seq<Seq<char>> {
    files.map_values(|f: ParsingFile| f.name@)
}

/// The message for too many open files: the limit, and the names that occur more than once among
/// the files read, which are likely to be emitting themselves.
pub open spec fn file_stack_text(names: Seq<Seq<char>>, limit: nat) -> Seq<char> {
    let head = "Exceeded the TurnipTextSource stack limit of "@ + decimal(limit) + " files.\n"@;
    let d = distinct_names(names);
    if repeated_among(names, d).len() == 0 {
        head + "No repeated names were detected.\nIt may be OK to increase the `max_file_depth` argument, but it is more likely something has gone wrong."@
    } else {
        head + "Found the following repeated TurnipTextSource names in the stack:\n"@ + repeat_lines(names, d)
            + "One of these files is likely guilty of recursion."@
    }
}

proof fn lemma_count_push(names: Seq<Seq<char>>, x: Seq<char>, y: Seq<char>)
    ensures
        count_of(names.push(x), y) == count_of(names, y) + if x == y {
            1nat
        } else {
            0nat
        },
{
    assert(names.push(x).drop_last() =~= names);
}

proof fn lemma_count_le_len(names: Seq<Seq<char>>, y: Seq<char>)
    ensures
        count_of(names, y) <= names.len(),
    decreases names.len(),
{
    if names.len() > 0 {
        lemma_count_le_len(names.drop_last(), y);
    }
}

/// The message for too many open files, given all the files read so far; see [file_stack_text].
pub fn file_stack_message(files: &Vec<ParsingFile>, limit: usize) -> (r: String)
    ensures
        r@ == file_stack_text(file_names(files@), limit as nat),
{
    let ghost names = file_names(files@);
    let mut distinct: Vec<String> = Vec::new();
    let mut counts: Vec<usize> = Vec::new();
    let mut i: usize = 0;
    while i < files.len()
        invariant
            names == file_names(files@),
            0 <= i <= files@.len(),
            distinct@.len() == counts@.len(),
            notes_view(distinct@) == distinct_names(names.subrange(0, i as int)),
            forall|k: int| 0 <= k < counts@.len() ==> counts@[k] == count_of(names.subrange(0, i as int), #[trigger] distinct@[k]@),
            forall|y: Seq<char>| !notes_view(distinct@).contains(y) ==> count_of(names.subrange(0, i as int), y) == 0,
            forall|k: int, l: int| 0 <= k < l < distinct@.len() ==> (#[trigger] distinct@[k])@ != (#[trigger] distinct@[l])@,
        decreases files@.len() - i,
    {
        let ghost pre = names.subrange(0, i as int);
        let ghost x = names[i as int];
        let name = &files[i].name;
        proof {
            assert(name@ == x);
            assert(names.subrange(0, i + 1) =~= pre.push(x));
            lemma_count_le_len(pre, x);
            assert forall|y: Seq<char>| #[trigger] count_of(pre.push(x), y) == count_of(pre, y) + if x == y { 1nat } else { 0nat } by {
                lemma_count_push(pre, x, y);
            }
            assert(pre.push(x).drop_last() =~= pre);
        }
        let mut j: usize = 0;
        let mut found = false;
        while j < distinct.len()
            invariant_except_break
                0 <= j <= distinct@.len(),
                forall|k: int| 0 <= k < j ==> (#[trigger] distinct@[k])@ != name@,
                !found,
            ensures
                found ==> j < distinct@.len() && distinct@[j as int]@ == name@,
                !found ==> forall|k: int| 0 <= k < distinct@.len() ==> (#[trigger] distinct@[k])@ != name@,
            decreases distinct@.len() - j,
        {
            if distinct[j] == *name {
                found = true;
                break;
            }
            j = j + 1;
        }
        let ghost dv = notes_view(distinct@);
        if found {
            proof {
                assert(dv[j as int] == x);
                assert(dv.contains(x));
                lemma_count_le_len(pre, x);
                assert(count_of(pre, x) < i + 1);
            }
            let c = counts[j];
            counts.set(j, c + 1);
            proof {
                assert forall|k: int| 0 <= k < counts@.len() implies counts@[k] == count_of(names.subrange(0, i + 1), #[trigger] distinct@[k]@) by {
                    if k != j {
                        assert(distinct@[k]@ != distinct@[j as int]@);
                    }
                }
            }
        } else {
            proof {
                assert(!dv.contains(x)) by {
                    if dv.contains(x) {
                        let k = choose|k: int| 0 <= k < dv.len() && dv[k] == x;
                        assert(distinct@[k]@ == x);
                    }
                }
            }
            distinct.push(name.clone());
            counts.push(1);
            proof {
                assert(notes_view(distinct@) =~= dv.push(x));
                assert forall|k: int| 0 <= k < counts@.len() implies counts@[k] == count_of(names.subrange(0, i + 1), #[trigger] distinct@[k]@) by {
                    if k < dv.len() {
                        assert(distinct@[k]@ == dv[k]);
                        assert(dv[k] != x) by {
                            assert(dv.contains(dv[k]));
                        }
                    }
                }
                assert forall|y: Seq<char>| !notes_view(distinct@).contains(y) implies count_of(names.subrange(0, i + 1), y) == 0 by {
                    if dv.contains(y) {
                        let k = choose|k: int| 0 <= k < dv.len() && dv[k] == y;
                        assert(notes_view(distinct@)[k] == y);
                    }
                    if y == x {
                        assert(notes_view(distinct@)[dv.len() as int] == y);
                    }
                }
                assert forall|k: int, l: int| 0 <= k < l < distinct@.len() implies (#[trigger] distinct@[k])@ != (#[trigger] distinct@[l])@ by {
                    if l == dv.len() {
                        assert(distinct@[k]@ == dv[k]);
                    }
                }
            }
        }
        i = i + 1;
    }
    proof {
        assert(names.subrange(0, files@.len() as int) =~= names);
    }
    let ghost d = notes_view(distinct@);
    let mut lines = String::new();
    let mut any = false;
    let mut k: usize = 0;
    while k < distinct.len()
        invariant
            d == notes_view(distinct@),
            d == distinct_names(names),
            distinct@.len() == counts@.len(),
            forall|m: int| 0 <= m < counts@.len() ==> counts@[m] == count_of(names, #[trigger] distinct@[m]@),
            0 <= k <= distinct@.len(),
            lines@ == repeat_lines(names, d.subrange(0, k as int)),
            any == (repeated_among(names, d.subrange(0, k as int)).len() > 0),
        decreases distinct@.len() - k,
    {
        let ghost before = lines@;
        proof {
            assert(d.subrange(0, k + 1).drop_last() =~= d.subrange(0, k as int));
            assert(d.subrange(0, k + 1).last() == distinct@[k as int]@);
        }
        if counts[k] > 1 {
            lines.append("'");
            lines.append(distinct[k].as_str());
            lines.append("':\t");
            push_decimal(&mut lines, counts[k]);
            lines.append(" times\n");
            any = true;
        }
        proof {
            assert(lines@ =~= repeat_lines(names, d.subrange(0, k + 1)));
        }
        k = k + 1;
    }
    proof {
        assert(d.subrange(0, distinct@.len() as int) =~= d);
    }
    let mut message = "Exceeded the TurnipTextSource stack limit of ".to_owned();
    push_decimal(&mut message, limit);
    message.append(" files.\n");
    if !any {
        message.append(
            "No repeated names were detected.\nIt may be OK to increase the `max_file_depth` argument, but it is more likely something has gone wrong.",
        );
    } else {
        message.append("Found the following repeated TurnipTextSource names in the stack:\n");
        message.append(lines.as_str());
        message.append("One of these files is likely guilty of recursion.");
    }
    proof {
        assert(message@ =~= file_stack_text(names, limit as nat));
    }
    message
}

} // verus!
