//! Reading a document and the source files that its code emits, file by file, token by token.
//!
//! Python's work is not done here: when code must be evaluated, or an object must build from a scope,
//! [TurnipTextParser::run] stops and says so, and the result is handed back with
//! [TurnipTextParser::resume_evaluation] or [TurnipTextParser::resume_build].
use vstd::prelude::*;

use crate::doc_segment::Document;
use crate::interpreter::doc::Block;
use crate::interpreter::document::{build_document, doc_view, replay};
use crate::interpreter::state_machines::block::mode_items;
use crate::interpreter::state_machines::code::{BuildArgument, BuilderOutcome, EvalResult, TurnipTextSource};
use crate::interpreter::state_machines::inline::token_fits;
use crate::interpreter::state_machines::stacks::{After, Pending, ProcessorStacks, StackEvent};
use crate::interpreter::syntax::{TTError, TTSyntaxError, TTUserPythonError};
use crate::lexer::{LexedStrIterator, TTToken, lex, lemma_lex_covers_input, lex_spec, lexed, lexed_as, lemma_lexed, TokenKind};
use crate::interpreter::state_machines::BuildArgumentView;
use crate::interpreter::state_machines::code::{BuilderOutcomeView, EvalResultView};
use crate::interpreter::state_machines::stack_machine::{
    EventView, StacksView, event_result, feed_spec, pop_subfile_spec, push_subfile_spec, resume_build_spec, resume_evaluation_spec,
};
use crate::span::{ParseContext, ParseSpan, check_positions_fit, positions_fit};
use crate::text::str_to_chars;

verus! {

/// How the parser guards against source files that emit themselves, directly or not.
#[derive(Debug, Clone, Copy)]
pub struct RecursionConfig {
    /// Warn when a file is emitted while a file of the same name is open
    pub recursion_warning: bool,
    /// The most files that may be open at once, if there is a limit; a limit is never zero, which
    /// [TurnipTextParser::new] requires
    pub max_file_depth: Option<usize>,
}

/// What stops the parser.
#[derive(Debug)]
pub enum TTErrorWithContext {
    /// A source held a null character
    NullByteFoundInSource { source_name: String },
    /// A source was too long for the positions of its characters to be counted
    SourceTooLarge { source_name: String },
    /// More files were open at once than the limit allows
    FileStackExceededLimit { limit: usize },
    /// The document broke the syntax of turnip-text
    Syntax(TTSyntaxError),
    /// What code evaluated to or built did not fit where it stood
    UserPython(TTUserPythonError),
}

impl TTErrorWithContext {
    /// The error of the interpreter, as an error of the parser.
    pub fn from_interpreter(e: TTError) -> (r: Self)
        ensures
            e matches TTError::Syntax(s) ==> r == TTErrorWithContext::Syntax(s),
            e matches TTError::UserPython(u) ==> r == TTErrorWithContext::UserPython(u),
    {
        match e {
            TTError::Syntax(s) => TTErrorWithContext::Syntax(s),
            TTError::UserPython(u) => TTErrorWithContext::UserPython(u),
        }
    }
}

/// `s` holds a null character.
pub open spec fn has_null(s: Seq<char>) -> bool {
    exists|i: int| 0 <= i < s.len() && s[i] == '\0'
}

/// A source file being read: its name, its contents, and its tokens.
pub struct ParsingFile {
    pub name: String,
    pub contents: String,
    pub token_stream: LexedStrIterator,
}

impl ParsingFile {
    /// The tokens are those of the contents, in file `file_idx`, and how far they have been read.
    pub open spec fn wf(self, file_idx: usize) -> bool {
        self.token_stream matches LexedStrIterator::Tokenizing(v, i) && i <= v@.len() && lexed_as(v@, file_idx, self.contents@)
    }

    /// How many tokens are left to read.
    pub open spec fn remaining(self) -> int {
        match self.token_stream {
            LexedStrIterator::Tokenizing(v, i) => v@.len() - i,
            _ => 0,
        }
    }

    /// Reads file `file_idx`, named `name`.
    ///
    /// Fails with [TTErrorWithContext::NullByteFoundInSource] when the contents hold a null character,
    /// and with [TTErrorWithContext::SourceTooLarge] when they are too long for their positions to be
    /// counted.
    pub fn new(file_idx: usize, name: String, contents: String) -> (r: Result<Self, TTErrorWithContext>)
        ensures
            has_null(contents@) ==> (r matches Err(TTErrorWithContext::NullByteFoundInSource { source_name }) && source_name@ == name@),
            !has_null(contents@) && !positions_fit(contents@) ==> (r matches Err(TTErrorWithContext::SourceTooLarge { source_name })
                && source_name@ == name@),
            !has_null(contents@) && positions_fit(contents@) ==> (r matches Ok(f) && f.wf(file_idx) && f.name@ == name@
                && f.contents@ == contents@ && (f.token_stream matches LexedStrIterator::Tokenizing(_, i) && i == 0)),
    {
        let chars = str_to_chars(contents.as_str());
        let mut i: usize = 0;
        while i < chars.len()
            invariant
                chars@ == contents@,
                0 <= i <= chars@.len(),
                forall|j: int| 0 <= j < i ==> chars@[j] != '\0',
            decreases chars@.len() - i,
        {
            if chars[i] == '\0' {
                return Err(TTErrorWithContext::NullByteFoundInSource { source_name: name });
            }
            i = i + 1;
        }
        if !check_positions_fit(&chars) {
            return Err(TTErrorWithContext::SourceTooLarge { source_name: name });
        }
        let token_stream = lex(file_idx, contents.as_str());
        Ok(ParsingFile { name, contents, token_stream })
    }

    /// The name of the file.
    pub fn name(&self) -> (r: &str)
        ensures
            r@ == self.name@,
    {
        self.name.as_str()
    }

    /// The contents of the file.
    pub fn contents(&self) -> (r: &str)
        ensures
            r@ == self.contents@,
    {
        self.contents.as_str()
    }
}

/// Every token of a lexed file has its text within the file.
pub proof fn lemma_lexed_tokens_fit(r: Seq<TTToken>, file_idx: usize, s: Seq<char>)
    requires
        lexed_as(r, file_idx, s),
    ensures
        forall|j: int| 0 <= j < r.len() ==> token_fits(#[trigger] r[j], s),
{
    lemma_lex_covers_input(s);
    let t = lex_spec(s);
    assert forall|j: int| 0 <= j < r.len() implies token_fits(#[trigger] r[j], s) by {
        if j < t.len() {
            assert(r[j].kind() == t[j].0);
            assert(r[j].span().covers(file_idx, s, t[j].1, t[j].2));
            assert(0 <= t[j].1 < t[j].2 <= s.len());
            crate::lexer::lemma_covers_bytes(s, r[j].span(), file_idx, t[j].1, t[j].2);
        } else {
            assert(r[j] == r.last());
            assert(r[j].kind() == TokenKind::EOF);
        }
    }
}

/// What the parser needs before it can go on.
#[derive(Debug)]
pub enum ParseStep {
    /// All files were read: the document can be built
    Finished,
    /// This code (with its context) must be evaluated, and the result handed back
    Evaluate(String, ParseContext),
    /// This object (by handle) must build from this scope, and the result handed back
    Build(u64, BuildArgument),
}


/// The value of a file being read: its name and contents, its tokens, and how many have been read.
pub struct FileView {
    pub name: Seq<char>,
    pub contents: Seq<char>,
    pub tokens: Seq<TTToken>,
    pub pos: int,
}

impl ParsingFile {
    /// The value of the file.
    pub open spec fn view(self) -> FileView {
        match self.token_stream {
            LexedStrIterator::Tokenizing(v, i) => FileView { name: self.name@, contents: self.contents@, tokens: v@, pos: i as int },
            _ => FileView { name: self.name@, contents: self.contents@, tokens: seq![], pos: 0 },
        }
    }
}

/// The values of some files.
pub open spec fn files_view(s: Seq<ParsingFile>) -> Seq<FileView> {
    s.map_values(|f: ParsingFile| f.view())
}

/// The values of some strings.
pub open spec fn strings_view(s: Seq<String>) -> Seq<Seq<char>> {
    s.map_values(|x: String| x@)
}

/// The value of the parser: its configuration, the files being read (who emitted each, and its
/// index), every file read so far, the stacks of processors, and the recursion warnings so far.
pub struct ParserView {
    pub config: RecursionConfig,
    pub file_stack: Seq<(Option<ParseSpan>, usize)>,
    pub files: Seq<FileView>,
    pub stacks: StacksView,
    pub warnings: Seq<Seq<char>>,
}

/// The value of a [ParseStep].
pub enum StepView {
    Finished,
    Evaluate(Seq<char>, ParseContext),
    Build(u64, BuildArgumentView),
}

impl ParseStep {
    /// The value of the step.
    pub open spec fn view(self) -> StepView {
        match self {
            ParseStep::Finished => StepView::Finished,
            ParseStep::Evaluate(code, ctx) => StepView::Evaluate(code@, ctx),
            ParseStep::Build(h, arg) => StepView::Build(h, arg.view()),
        }
    }
}

/// The value of a [TTErrorWithContext].
pub enum ErrorView {
    NullByteFoundInSource(Seq<char>),
    SourceTooLarge(Seq<char>),
    FileStackExceededLimit(usize),
    Syntax(TTSyntaxError),
    UserPython(TTUserPythonError),
}

impl TTErrorWithContext {
    /// The value of the error.
    pub open spec fn view(self) -> ErrorView {
        match self {
            TTErrorWithContext::NullByteFoundInSource { source_name } => ErrorView::NullByteFoundInSource(source_name@),
            TTErrorWithContext::SourceTooLarge { source_name } => ErrorView::SourceTooLarge(source_name@),
            TTErrorWithContext::FileStackExceededLimit { limit } => ErrorView::FileStackExceededLimit(limit),
            TTErrorWithContext::Syntax(e) => ErrorView::Syntax(e),
            TTErrorWithContext::UserPython(e) => ErrorView::UserPython(e),
        }
    }
}

/// An error of the interpreter, as an error of the parser.
pub open spec fn interp_error(e: TTError) -> ErrorView {
    match e {
        TTError::Syntax(s) => ErrorView::Syntax(s),
        TTError::UserPython(u) => ErrorView::UserPython(u),
    }
}

/// The value of what a step of the parser gives.
pub open spec fn step_result(r: Result<ParseStep, TTErrorWithContext>) -> Result<StepView, ErrorView> {
    match r {
        Ok(s) => Ok(s.view()),
        Err(e) => Err(e.view()),
    }
}

/// The value of what opening a file gives.
pub open spec fn unit_result(r: Result<(), TTErrorWithContext>) -> Result<(), ErrorView> {
    match r {
        Ok(()) => Ok(()),
        Err(e) => Err(e.view()),
    }
}

/// How many tokens are left in the files being read.
pub open spec fn remaining_of(files: Seq<FileView>, stack: Seq<(Option<ParseSpan>, usize)>) -> int
    decreases stack.len(),
{
    if stack.len() == 0 {
        0
    } else {
        let f = files[stack.last().1 as int];
        remaining_of(files, stack.drop_last()) + (f.tokens.len() - f.pos)
    }
}

/// Enough steps to read every token left, and close every file.
pub open spec fn run_fuel(d: ParserView) -> nat {
    (remaining_of(d.files, d.file_stack) + d.file_stack.len() + 1) as nat
}

/// The current file has been read: it is closed, and the processor that held the code that emitted
/// it is told.
pub open spec fn end_file_spec(d: ParserView) -> ParserView {
    let rest = d.file_stack.drop_last();
    ParserView {
        file_stack: rest,
        stacks: if rest.len() > 0 {
            pop_subfile_spec(d.stacks, d.file_stack.last().0)
        } else {
            d.stacks
        },
        ..d
    }
}

/// Reading one token of the current file: it goes to the stacks; when it is the end of the file
/// and the stacks are done with it, the file is closed. Gives what stops reading, if anything does.
pub open spec fn step_spec(d: ParserView) -> (ParserView, Option<Result<StepView, ErrorView>>) {
    let idx = d.file_stack.last().1 as int;
    let f = d.files[idx];
    let tok = f.tokens[f.pos];
    let (s2, r) = feed_spec(d.stacks, tok, f.contents);
    let d2 = ParserView { files: d.files.update(idx, FileView { pos: f.pos + 1, ..f }), stacks: s2, ..d };
    match r {
        Err(e) => (d2, Some(Err(interp_error(e)))),
        Ok(EventView::Done) => if tok is EOF {
            (end_file_spec(d2), None)
        } else {
            (d2, None)
        },
        Ok(EventView::Evaluate(code, ctx)) => (d2, Some(Ok(StepView::Evaluate(code, ctx)))),
        Ok(EventView::Build(h, arg)) => (d2, Some(Ok(StepView::Build(h, arg)))),
        Ok(EventView::NewSource(..)) => (d2, Some(Ok(StepView::Finished))),
    }
}

/// Reading tokens (at most `fuel` of them) until the files are all read, an error comes, or
/// Python's work is needed.
#[verifier::opaque]
pub open spec fn run_spec(d: ParserView, fuel: nat) -> (ParserView, Result<StepView, ErrorView>)
    decreases fuel,
{
    if fuel == 0 || d.file_stack.len() == 0 {
        (d, Ok(StepView::Finished))
    } else {
        let (d2, o) = step_spec(d);
        match o {
            None => run_spec(d2, (fuel - 1) as nat),
            Some(r) => (d2, r),
        }
    }
}

/// Reading with no file left, or no fuel, stops at once.
pub proof fn lemma_run_stops(d: ParserView, fuel: nat)
    requires
        fuel == 0 || d.file_stack.len() == 0,
    ensures
        run_spec(d, fuel) == (d, Ok::<StepView, ErrorView>(StepView::Finished)),
{
    reveal(run_spec);
}

/// Reading is a step, then (if the step did not stop it) reading on.
pub proof fn lemma_run_unfold(d: ParserView, fuel: nat)
    requires
        fuel > 0,
        d.file_stack.len() > 0,
    ensures
        step_spec(d).1 is None ==> run_spec(d, fuel) == run_spec(step_spec(d).0, (fuel - 1) as nat),
        step_spec(d).1 matches Some(r) ==> run_spec(d, fuel) == (step_spec(d).0, r),
{
    reveal(run_spec);
}

/// The value of what a step of reading gives, if anything.
pub open spec fn opt_step_result(r: Option<Result<ParseStep, TTErrorWithContext>>) -> Option<Result<StepView, ErrorView>> {
    match r {
        Some(x) => Some(step_result(x)),
        None => None,
    }
}

/// A warning for each file being read whose name is `name`.
pub open spec fn warnings_for(files: Seq<FileView>, stack: Seq<(Option<ParseSpan>, usize)>, name: Seq<char>) -> Seq<Seq<char>>
    decreases stack.len(),
{
    if stack.len() == 0 {
        seq![]
    } else {
        warnings_for(files, stack.drop_last(), name) + if files[stack.last().1 as int].name == name {
            seq![name]
        } else {
            seq![]
        }
    }
}

/// Code at `emitted_by` emitted the source `name` with `contents`: warnings for open files of the
/// same name (when asked for); the contents are refused when they hold a null character or are too
/// long; else the file is read next, above the stacks so far, unless too many files would be open.
pub open spec fn insert_file_spec(d: ParserView, emitted_by: ParseSpan, name: Seq<char>, contents: Seq<char>) -> (
    ParserView,
    Result<(), ErrorView>,
) {
    let d1 = ParserView {
        warnings: if d.config.recursion_warning {
            d.warnings + warnings_for(d.files, d.file_stack, name)
        } else {
            d.warnings
        },
        ..d
    };
    if has_null(contents) {
        (d1, Err(ErrorView::NullByteFoundInSource(name)))
    } else if !positions_fit(contents) {
        (d1, Err(ErrorView::SourceTooLarge(name)))
    } else {
        let idx = d.files.len() as usize;
        let d2 = ParserView {
            files: d.files.push(FileView { name, contents, tokens: lexed(idx, contents), pos: 0 }),
            file_stack: d.file_stack.push((Some(emitted_by), idx)),
            stacks: push_subfile_spec(d.stacks),
            ..d1
        };
        match d.config.max_file_depth {
            Some(limit) => if d2.file_stack.len() > limit {
                (d2, Err(ErrorView::FileStackExceededLimit(limit)))
            } else {
                (d2, Ok(()))
            },
            None => (d2, Ok(())),
        }
    }
}

/// Handing back what the awaited code evaluated to: a source file is opened (see
/// [insert_file_spec]); then reading goes on.
pub open spec fn resume_evaluation_parse(d: ParserView, res: EvalResultView) -> (ParserView, Result<StepView, ErrorView>) {
    let (s2, r) = resume_evaluation_spec(d.stacks, res);
    let d1 = ParserView { stacks: s2, ..d };
    match r {
        Err(e) => (d1, Err(interp_error(e))),
        Ok(EventView::NewSource(span, name, contents)) => {
            let (d2, r2) = insert_file_spec(d1, span, name, contents);
            match r2 {
                Ok(()) => run_spec(d2, run_fuel(d2)),
                Err(x) => (d2, Err(x)),
            }
        },
        Ok(_) => run_spec(d1, run_fuel(d1)),
    }
}

/// Handing back what the awaited object built: when that ends the current file's processors at
/// its end, the file is closed; then reading goes on.
pub open spec fn resume_build_parse(d: ParserView, out: BuilderOutcomeView) -> (ParserView, Result<StepView, ErrorView>) {
    let idx = d.file_stack.last().1 as int;
    let (s2, r) = resume_build_spec(d.stacks, out, d.files[idx].contents);
    let d1 = ParserView { stacks: s2, ..d };
    match r {
        Err(e) => (d1, Err(interp_error(e))),
        Ok(EventView::Done) => {
            let d2 = if d.stacks.pending matches Pending::Building(After::Eof(_)) {
                end_file_spec(d1)
            } else {
                d1
            };
            run_spec(d2, run_fuel(d2))
        },
        Ok(EventView::Evaluate(code, ctx)) => (d1, Ok(StepView::Evaluate(code, ctx))),
        Ok(EventView::Build(h, arg)) => (d1, Ok(StepView::Build(h, arg))),
        Ok(EventView::NewSource(..)) => (d1, Ok(StepView::Finished)),
    }
}

/// A parser that has read nothing yet of the document `contents`, named `name`.
pub open spec fn parser_start(name: Seq<char>, contents: Seq<char>, config: RecursionConfig) -> ParserView {
    ParserView {
        config,
        file_stack: seq![(None, 0usize)],
        files: seq![FileView { name, contents, tokens: lexed(0, contents), pos: 0 }],
        stacks: StacksView {
            top: crate::interpreter::state_machines::block::BlockLevelView {
                mode: crate::interpreter::state_machines::block::BlockModeView::TopLevel(Seq::empty()),
                expects: None,
            },
            procs: Seq::empty(),
            file_starts: seq![0usize],
            pending: Pending::Nothing,
        },
        warnings: Seq::empty(),
    }
}

/// Reads a document and the files that its code emits.
pub struct TurnipTextParser {
    pub recursion_config: RecursionConfig,
    /// The files being read, innermost last: who emitted each (none for the first), and its index
    pub file_stack: Vec<(Option<ParseSpan>, usize)>,
    /// Every file read so far, by index
    pub files: Vec<ParsingFile>,
    pub processors: ProcessorStacks,
    /// Names of files emitted while a file of the same name was open
    pub recursion_warnings: Vec<String>,
}

/// How many tokens are left in the files being read.
pub open spec fn remaining_tokens(files: Seq<ParsingFile>, stack: Seq<(Option<ParseSpan>, usize)>) -> int
    decreases stack.len(),
{
    if stack.len() == 0 {
        0
    } else {
        remaining_tokens(files, stack.drop_last()) + files[stack.last().1 as int].remaining()
    }
}

impl TurnipTextParser {
    /// The value of the parser.
    pub open spec fn view(self) -> ParserView {
        ParserView {
            config: self.recursion_config,
            file_stack: self.file_stack@,
            files: files_view(self.files@),
            stacks: self.processors.view(),
            warnings: strings_view(self.recursion_warnings@),
        }
    }

    /// The parser's invariant but for the current file's tokens: every file is lexed; the files being
    /// read are in the order they were emitted, each has a stack of processors, and all but the
    /// current one have tokens left; what the processors wait for has its token in the current file.
    pub open spec fn wf_but_current(self) -> bool {
        let fs = self.file_stack@;
        let files = self.files@;
        &&& self.processors.wf()
        &&& forall|i: int| 0 <= i < files.len() ==> (#[trigger] files[i]).wf(i as usize)
        &&& forall|k: int| 0 <= k < fs.len() ==> (#[trigger] fs[k]).1 < files.len()
        &&& forall|k: int, l: int| 0 <= k < l < fs.len() ==> (#[trigger] fs[k]).1 < (#[trigger] fs[l]).1
        &&& forall|k: int| 0 <= k < fs.len() - 1 ==> files[(#[trigger] fs[k]).1 as int].remaining() > 0
        &&& (fs.len() > 0 ==> fs.len() == self.processors.file_starts@.len())
        &&& (fs.len() == 0 ==> self.processors.file_starts@.len() == 1 && self.processors.pending is Nothing)
        &&& (self.processors.pending matches Pending::Building(After::Reprocess(t)) ==> fs.len() > 0 && !(t is EOF)
            && token_fits(t, files[fs.last().1 as int].contents@))
        &&& (self.processors.pending matches Pending::Building(After::Eof(t)) ==> fs.len() > 0 && t is EOF
            && token_fits(t, files[fs.last().1 as int].contents@))
        &&& (self.processors.pending is Evaluation ==> fs.len() > 0)
    }

    /// The parser's invariant: [TurnipTextParser::wf_but_current], and the current file has tokens
    /// left unless its end is being handled.
    pub open spec fn wf(self) -> bool {
        &&& self.wf_but_current()
        &&& (self.file_stack@.len() > 0 && !(self.processors.pending matches Pending::Building(After::Eof(_)))
            ==> self.files@[self.file_stack@.last().1 as int].remaining() > 0)
    }

    /// Python's evaluation is awaited.
    pub open spec fn awaits_evaluation(self) -> bool {
        self.processors.pending is Evaluation
    }

    /// Python's build is awaited.
    pub open spec fn awaits_build(self) -> bool {
        self.processors.pending is Building
    }

    /// Whether Python's evaluation is awaited.
    pub fn is_awaiting_evaluation(&self) -> (r: bool)
        ensures
            r == self.awaits_evaluation(),
    {
        match self.processors.pending {
            Pending::Evaluation => true,
            _ => false,
        }
    }

    /// Whether Python's build is awaited.
    pub fn is_awaiting_build(&self) -> (r: bool)
        ensures
            r == self.awaits_build(),
    {
        match self.processors.pending {
            Pending::Building(_) => true,
            _ => false,
        }
    }

    /// A parser for the document `contents`, named `file_name`.
    ///
    /// Fails as [ParsingFile::new] does.
    pub fn new(file_name: String, contents: String, recursion_config: RecursionConfig) -> (r: Result<Self, TTErrorWithContext>)
        requires
            recursion_config.max_file_depth != Some(0usize),
        ensures
            has_null(contents@) ==> (r matches Err(TTErrorWithContext::NullByteFoundInSource { source_name }) && source_name@ == file_name@),
            !has_null(contents@) && !positions_fit(contents@) ==> r matches Err(TTErrorWithContext::SourceTooLarge { .. }),
            !has_null(contents@) && positions_fit(contents@) ==> (r matches Ok(p) && p.wf() && !p.awaits_evaluation()
                && !p.awaits_build() && p.file_stack@.len() == 1 && p.files@.len() == 1 && p.files@[0].contents@ == contents@
                && p.files@[0].name@ == file_name@),
            r matches Ok(p) ==> p.view() == parser_start(file_name@, contents@, recursion_config),
    {
        let file = match ParsingFile::new(0, file_name, contents) {
            Ok(f) => f,
            Err(e) => return Err(e),
        };
        let mut files = Vec::new();
        files.push(file);
        let mut file_stack = Vec::new();
        file_stack.push((None, 0));
        let r = TurnipTextParser {
            recursion_config,
            file_stack,
            files,
            processors: ProcessorStacks::new(),
            recursion_warnings: Vec::new(),
        };
        proof {
            assert(r.files@[0] == file);
            lemma_lexed(file.view().tokens, 0, file.contents@);
            assert(files_view(r.files@) =~= seq![file.view()]);
            assert(strings_view(r.recursion_warnings@) =~= Seq::<Seq<char>>::empty());
            assert(r.file_stack@ =~= seq![(None, 0usize)]);
        }
        Ok(r)
    }

    /// The next token of the current file.
    fn next_token(&mut self) -> (tok: TTToken)
        requires
            old(self).wf(),
            old(self).file_stack@.len() > 0,
            old(self).processors.pending is Nothing,
        ensures
            final(self).wf_but_current(),
            final(self).file_stack == old(self).file_stack,
            final(self).processors == old(self).processors,
            final(self).recursion_config == old(self).recursion_config,
            final(self).recursion_warnings == old(self).recursion_warnings,
            final(self).files@.len() == old(self).files@.len(),
            ({
                let idx = old(self).file_stack@.last().1 as int;
                &&& token_fits(tok, old(self).files@[idx].contents@)
                &&& final(self).files@[idx].contents@ == old(self).files@[idx].contents@
                &&& final(self).files@[idx].remaining() == old(self).files@[idx].remaining() - 1
                &&& (final(self).files@[idx].remaining() == 0 ==> tok is EOF)
                &&& forall|i: int| 0 <= i < old(self).files@.len() && i != idx ==> final(self).files@[i] == old(self).files@[i]
            }),
            ({
                let idx = old(self).file_stack@.last().1 as int;
                let f = old(self).view().files[idx];
                &&& tok == f.tokens[f.pos]
                &&& final(self).view() == ParserView { files: old(self).view().files.update(idx, FileView { pos: f.pos + 1, ..f }), ..old(self).view() }
            }),
    {
        let n = self.file_stack.len();
        let file_idx = self.file_stack[n - 1].1;
        proof {
            assert(self.file_stack@[n - 1].1 < self.files@.len());
            assert(self.files@[file_idx as int].wf(file_idx));
        }
        let ghost old_files = self.files@;
        let ghost f = self.files@[file_idx as int];
        proof {
            if let LexedStrIterator::Tokenizing(v, i) = f.token_stream {
                lemma_lexed_tokens_fit(v@, file_idx, f.contents@);
                assert(v@.last().kind() == TokenKind::EOF);
            }
        }
        let tok = self.files[file_idx].token_stream.next().unwrap().unwrap();
        proof {
            assert forall|i: int| 0 <= i < self.files@.len() implies (#[trigger] self.files@[i]).wf(i as usize) by {
                if i != file_idx {
                    assert(self.files@[i] == old_files[i]);
                }
            }
            let fs = self.file_stack@;
            assert forall|k: int| 0 <= k < fs.len() - 1 implies self.files@[(#[trigger] fs[k]).1 as int].remaining() > 0 by {
                assert(fs[k].1 < fs[n - 1].1);
                assert(self.files@[fs[k].1 as int] == old_files[fs[k].1 as int]);
            }
            let fv = files_view(old_files)[file_idx as int];
            assert(fv == f.view());
            assert(files_view(self.files@) =~= files_view(old_files).update(file_idx as int, FileView { pos: fv.pos + 1, ..fv }));
        }
        tok
    }

    /// The current file has been read to its end: it is closed, and the processor below the code that
    /// emitted it (if any) is told.
    fn end_file(&mut self)
        requires
            old(self).wf_but_current(),
            old(self).file_stack@.len() > 0,
            old(self).processors.pending is Nothing,
            old(self).processors.procs@.len() == old(self).processors.own_start(),
        ensures
            final(self).wf(),
            final(self).file_stack@ == old(self).file_stack@.drop_last(),
            final(self).files == old(self).files,
            final(self).processors.pending is Nothing,
            final(self).recursion_config == old(self).recursion_config,
            final(self).view() == end_file_spec(old(self).view()),
    {
        let (emitted_by, _) = self.file_stack.pop().unwrap();
        if self.file_stack.len() > 0 {
            self.processors.pop_subfile(emitted_by);
        }
        proof {
            let fs = self.file_stack@;
            assert forall|k: int| 0 <= k < fs.len() implies (#[trigger] fs[k]).1 < self.files@.len() by {
                assert(fs[k] == old(self).file_stack@[k]);
            }
            assert forall|k: int, l: int| 0 <= k < l < fs.len() implies (#[trigger] fs[k]).1 < (#[trigger] fs[l]).1 by {
                assert(fs[k] == old(self).file_stack@[k] && fs[l] == old(self).file_stack@[l]);
            }
            assert forall|k: int| 0 <= k < fs.len() implies self.files@[(#[trigger] fs[k]).1 as int].remaining() > 0 by {
                assert(fs[k] == old(self).file_stack@[k]);
            }
        }
    }

    /// Code at `emitted_by_code` evaluated to the source file `src`: it is read next.
    ///
    /// Warns (see [TurnipTextParser::recursion_warnings]) when a file of the same name is open; fails as
    /// [ParsingFile::new] does, and with [TTErrorWithContext::FileStackExceededLimit] when more files
    /// would be open than the limit allows.
    fn insert_file(&mut self, emitted_by_code: ParseSpan, src: TurnipTextSource) -> (r: Result<(), TTErrorWithContext>)
        requires
            old(self).wf(),
            old(self).processors.pending is Nothing,
            old(self).file_stack@.len() > 0,
            old(self).processors.procs@.len() == 0 || crate::interpreter::state_machines::block_of(old(self).processors.procs@.last().view()) is Some,
        ensures
            r is Ok ==> final(self).wf() && final(self).processors.pending is Nothing && final(self).file_stack@.len() > 0,
            unit_result(r) == insert_file_spec(old(self).view(), emitted_by_code, src.name@, src.contents@).1,
            final(self).view() == insert_file_spec(old(self).view(), emitted_by_code, src.name@, src.contents@).0,
    {
        let ghost d = self.view();
        let TurnipTextSource { name, contents } = src;
        if self.recursion_config.recursion_warning {
            let mut k: usize = 0;
            while k < self.file_stack.len()
                invariant
                    self.wf(),
                    old(self).file_stack == self.file_stack,
                    old(self).files == self.files,
                    old(self).processors == self.processors,
                    old(self).recursion_config == self.recursion_config,
                    d == old(self).view(),
                    0 <= k <= self.file_stack@.len(),
                    strings_view(self.recursion_warnings@) == d.warnings + warnings_for(
                        d.files,
                        d.file_stack.subrange(0, k as int),
                        name@,
                    ),
                decreases self.file_stack@.len() - k,
            {
                let idx = self.file_stack[k].1;
                proof {
                    assert(self.file_stack@[k as int].1 < self.files@.len());
                    let sub = d.file_stack.subrange(0, k + 1);
                    assert(sub.drop_last() =~= d.file_stack.subrange(0, k as int));
                    assert(sub.last() == self.file_stack@[k as int]);
                    assert(d.files[idx as int] == self.files@[idx as int].view());
                }
                let ghost before = self.recursion_warnings@;
                if self.files[idx].name == name {
                    self.recursion_warnings.push(name.clone());
                    proof {
                        assert(strings_view(self.recursion_warnings@) =~= strings_view(before).push(name@));
                    }
                }
                proof {
                    assert(strings_view(self.recursion_warnings@) =~= d.warnings + warnings_for(
                        d.files,
                        d.file_stack.subrange(0, k + 1),
                        name@,
                    ));
                }
                k = k + 1;
            }
            proof {
                assert(d.file_stack.subrange(0, self.file_stack@.len() as int) =~= d.file_stack);
            }
        }
        let file_idx = self.files.len();
        let file = match ParsingFile::new(file_idx, name, contents) {
            Ok(f) => f,
            Err(e) => return Err(e),
        };
        let ghost old_files = self.files@;
        let ghost old_fs = self.file_stack@;
        proof {
            lemma_lexed(file.view().tokens, file_idx, file.contents@);
        }
        self.files.push(file);
        self.file_stack.push((Some(emitted_by_code), file_idx));
        proof {
            assert(self.processors.procs@.len() >= self.processors.own_start()) by {
                let fsp = self.processors.file_starts@;
                assert(fsp[fsp.len() - 1] <= self.processors.procs@.len());
            }
        }
        self.processors.push_subfile();
        proof {
            let files = self.files@;
            let fs = self.file_stack@;
            assert forall|i: int| 0 <= i < files.len() implies (#[trigger] files[i]).wf(i as usize) by {
                if i < old_files.len() {
                    assert(files[i] == old_files[i]);
                }
            }
            assert forall|k: int| 0 <= k < fs.len() implies (#[trigger] fs[k]).1 < files.len() by {
                if k < old_fs.len() {
                    assert(fs[k] == old_fs[k]);
                }
            }
            assert forall|k: int, l: int| 0 <= k < l < fs.len() implies (#[trigger] fs[k]).1 < (#[trigger] fs[l]).1 by {
                assert(fs[k] == old_fs[k]);
                if l < old_fs.len() {
                    assert(fs[l] == old_fs[l]);
                }
            }
            assert forall|k: int| 0 <= k < fs.len() - 1 implies files[(#[trigger] fs[k]).1 as int].remaining() > 0 by {
                assert(fs[k] == old_fs[k]);
                assert(files[fs[k].1 as int] == old_files[fs[k].1 as int]);
            }
            assert(files[file_idx as int] == file);
            assert(files_view(files) =~= d.files.push(file.view()));
        }
        match self.recursion_config.max_file_depth {
            Some(limit) => {
                if self.file_stack.len() > limit {
                    return Err(TTErrorWithContext::FileStackExceededLimit { limit });
                }
            },
            None => {},
        }
        Ok(())
    }

    /// Reads one token of the current file; see [step_spec].
    fn step(&mut self) -> (r: Option<Result<ParseStep, TTErrorWithContext>>)
        requires
            old(self).wf(),
            old(self).processors.pending is Nothing,
            old(self).file_stack@.len() > 0,
        ensures
            opt_step_result(r) == step_spec(old(self).view()).1,
            final(self).view() == step_spec(old(self).view()).0,
            !(r matches Some(Err(_))) ==> final(self).wf(),
            r is None ==> final(self).processors.pending is Nothing,
            r is None ==> remaining_tokens(final(self).files@, final(self).file_stack@) + final(self).file_stack@.len()
                < remaining_tokens(old(self).files@, old(self).file_stack@) + old(self).file_stack@.len(),
            r matches Some(Ok(step)) ==> (step is Evaluate <==> final(self).awaits_evaluation()),
            r matches Some(Ok(step)) ==> (step is Build <==> final(self).awaits_build()),
            r matches Some(Ok(step)) ==> !(step is Finished),
    {
        let n = self.file_stack.len();
        let ghost before = *self;
        proof {
            Self::lemma_remaining_nonneg(self.files@, self.file_stack@);
        }
        let tok = self.next_token();
        proof {
            let idx = before.file_stack@.last().1 as int;
            Self::lemma_remaining_update(before.files@, self.files@, before.file_stack@, idx);
        }
        let file_idx = self.file_stack[n - 1].1;
        proof {
            let fsp = self.processors.file_starts@;
            assert(fsp[fsp.len() - 1] <= self.processors.procs@.len());
        }
        let r = self.processors.feed_token(tok, self.files[file_idx].contents.as_str());
        match r {
            Err(e) => Some(Err(TTErrorWithContext::from_interpreter(e))),
            Ok(StackEvent::Done) => {
                match tok {
                    TTToken::EOF(_) => {
                        let ghost mid = *self;
                        self.end_file();
                        proof {
                            Self::lemma_remaining_nonneg(mid.files@, mid.file_stack@.drop_last());
                            assert(mid.file_stack@.drop_last().len() == mid.file_stack@.len() - 1);
                        }
                    },
                    _ => {},
                }
                None
            },
            Ok(StackEvent::Evaluate(code, ctx)) => Some(Ok(ParseStep::Evaluate(code, ctx))),
            Ok(StackEvent::Build(h, arg)) => Some(Ok(ParseStep::Build(h, arg))),
            Ok(StackEvent::NewSource(..)) => {
                proof {
                    assert(false);
                }
                None
            },
        }
    }

    /// Reads tokens until all files are read, or Python's work is needed; see [run_spec].
    pub fn run(&mut self) -> (r: Result<ParseStep, TTErrorWithContext>)
        requires
            old(self).wf(),
            !old(self).awaits_evaluation(),
            !old(self).awaits_build(),
        ensures
            r is Ok ==> final(self).wf(),
            r matches Ok(ParseStep::Finished) ==> final(self).file_stack@.len() == 0,
            r matches Ok(step) ==> (step is Evaluate <==> final(self).awaits_evaluation()),
            r matches Ok(step) ==> (step is Build <==> final(self).awaits_build()),
            step_result(r) == run_spec(old(self).view(), run_fuel(old(self).view())).1,
            final(self).view() == run_spec(old(self).view(), run_fuel(old(self).view())).0,
    {
        let ghost start = self.view();
        let ghost mut fuel: nat = run_fuel(start);
        proof {
            Self::lemma_remaining_view(self.files@, self.file_stack@);
        }
        loop
            invariant
                self.wf(),
                self.processors.pending is Nothing,
                start == old(self).view(),
                fuel >= remaining_tokens(self.files@, self.file_stack@) + self.file_stack@.len() + 1,
                run_spec(start, run_fuel(start)) == run_spec(self.view(), fuel),
            decreases remaining_tokens(self.files@, self.file_stack@) + self.file_stack@.len(),
        {
            if self.file_stack.len() == 0 {
                proof {
                    lemma_run_stops(self.view(), fuel);
                }
                return Ok(ParseStep::Finished);
            }
            proof {
                Self::lemma_remaining_nonneg(self.files@, self.file_stack@);
                lemma_run_unfold(self.view(), fuel);
            }
            match self.step() {
                None => {
                    proof {
                        Self::lemma_remaining_nonneg(self.files@, self.file_stack@);
                        fuel = (fuel - 1) as nat;
                    }
                },
                Some(r) => return r,
            }
        }
    }

    /// Hands back what the awaited code evaluated to, and reads on: a source file is read next (see
    /// [TurnipTextParser::run] for what can stop it).
    pub fn resume_evaluation(&mut self, res: EvalResult) -> (r: Result<ParseStep, TTErrorWithContext>)
        requires
            old(self).wf(),
            old(self).awaits_evaluation(),
        ensures
            r is Ok ==> final(self).wf(),
            r matches Ok(ParseStep::Finished) ==> final(self).file_stack@.len() == 0,
            r matches Ok(step) ==> (step is Evaluate <==> final(self).awaits_evaluation()),
            r matches Ok(step) ==> (step is Build <==> final(self).awaits_build()),
            step_result(r) == resume_evaluation_parse(old(self).view(), res.view()).1,
            final(self).view() == resume_evaluation_parse(old(self).view(), res.view()).0,
    {
        proof {
            Self::lemma_remaining_view(self.files@, self.file_stack@);
        }
        let r = self.processors.resume_evaluation(res);
        match r {
            Err(e) => Err(TTErrorWithContext::from_interpreter(e)),
            Ok(StackEvent::NewSource(span, src)) => {
                match self.insert_file(span, src) {
                    Ok(()) => {},
                    Err(e) => return Err(e),
                }
                self.run()
            },
            Ok(_) => self.run(),
        }
    }

    /// Hands back what the awaited object built, and reads on (see [TurnipTextParser::run] for what
    /// can stop it).
    pub fn resume_build(&mut self, outcome: BuilderOutcome) -> (r: Result<ParseStep, TTErrorWithContext>)
        requires
            old(self).wf(),
            old(self).awaits_build(),
        ensures
            r is Ok ==> final(self).wf(),
            r matches Ok(ParseStep::Finished) ==> final(self).file_stack@.len() == 0,
            r matches Ok(step) ==> (step is Evaluate <==> final(self).awaits_evaluation()),
            r matches Ok(step) ==> (step is Build <==> final(self).awaits_build()),
            step_result(r) == resume_build_parse(old(self).view(), outcome.view()).1,
            final(self).view() == resume_build_parse(old(self).view(), outcome.view()).0,
    {
        proof {
            Self::lemma_remaining_view(self.files@, self.file_stack@);
        }
        let was_eof = match self.processors.pending {
            Pending::Building(After::Eof(_)) => true,
            _ => false,
        };
        let n = self.file_stack.len();
        let file_idx = self.file_stack[n - 1].1;
        proof {
            assert(self.file_stack@[n - 1].1 < self.files@.len());
        }
        let r = self.processors.resume_build(outcome, self.files[file_idx].contents.as_str());
        match r {
            Err(e) => Err(TTErrorWithContext::from_interpreter(e)),
            Ok(StackEvent::Done) => {
                if was_eof {
                    self.end_file();
                }
                self.run()
            },
            Ok(StackEvent::Evaluate(code, ctx)) => Ok(ParseStep::Evaluate(code, ctx)),
            Ok(StackEvent::Build(h, arg)) => Ok(ParseStep::Build(h, arg)),
            Ok(StackEvent::NewSource(..)) => {
                proof {
                    assert(false);
                }
                Ok(ParseStep::Finished)
            },
        }
    }

    /// The document: the blocks and headers of the top level, sorted into segments (see [replay]).
    pub fn finalize(self) -> (r: Document<Vec<Block>>)
        requires
            self.wf(),
        ensures
            doc_view(r) == replay(mode_items(self.processors.top.view().mode)),
    {
        build_document(self.processors.into_items())
    }

    proof fn lemma_remaining_view(files: Seq<ParsingFile>, stack: Seq<(Option<ParseSpan>, usize)>)
        requires
            forall|k: int| 0 <= k < stack.len() ==> (#[trigger] stack[k]).1 < files.len(),
        ensures
            remaining_of(files_view(files), stack) == remaining_tokens(files, stack),
        decreases stack.len(),
    {
        if stack.len() > 0 {
            let rest = stack.drop_last();
            assert forall|k: int| 0 <= k < rest.len() implies (#[trigger] rest[k]).1 < files.len() by {
                assert(rest[k] == stack[k]);
            }
            Self::lemma_remaining_view(files, rest);
            assert(stack[stack.len() - 1].1 < files.len());
            assert(files_view(files)[stack.last().1 as int] == files[stack.last().1 as int].view());
        }
    }

    proof fn lemma_remaining_update(files: Seq<ParsingFile>, files2: Seq<ParsingFile>, stack: Seq<(Option<ParseSpan>, usize)>, idx: int)
        requires
            stack.len() > 0,
            stack.last().1 == idx,
            0 <= idx < files.len(),
            files2.len() == files.len(),
            forall|i: int| 0 <= i < files.len() && i != idx ==> files2[i] == files[i],
            forall|k: int, l: int| 0 <= k < l < stack.len() ==> (#[trigger] stack[k]).1 < (#[trigger] stack[l]).1,
        ensures
            remaining_tokens(files2, stack) == remaining_tokens(files, stack) - files[idx].remaining() + files2[idx].remaining(),
    {
        let rest = stack.drop_last();
        assert forall|k: int| 0 <= k < rest.len() implies (#[trigger] rest[k]).1 < idx by {
            assert(rest[k] == stack[k]);
            assert(stack[k].1 < stack[stack.len() - 1].1);
        }
        Self::lemma_remaining_same(files, files2, rest, idx);
    }

    proof fn lemma_remaining_same(files: Seq<ParsingFile>, files2: Seq<ParsingFile>, stack: Seq<(Option<ParseSpan>, usize)>, idx: int)
        requires
            forall|i: int| 0 <= i < files.len() && i != idx ==> files2[i] == files[i],
            files2.len() == files.len(),
            forall|k: int| 0 <= k < stack.len() ==> (#[trigger] stack[k]).1 < idx,
            forall|k: int| 0 <= k < stack.len() ==> (#[trigger] stack[k]).1 < files.len(),
        ensures
            remaining_tokens(files2, stack) == remaining_tokens(files, stack),
        decreases stack.len(),
    {
        if stack.len() > 0 {
            let rest = stack.drop_last();
            assert forall|k: int| 0 <= k < rest.len() implies (#[trigger] rest[k]).1 < idx by {
                assert(rest[k] == stack[k]);
            }
            assert forall|k: int| 0 <= k < rest.len() implies (#[trigger] rest[k]).1 < files.len() by {
                assert(rest[k] == stack[k]);
            }
            Self::lemma_remaining_same(files, files2, rest, idx);
            assert(stack.last() == stack[stack.len() - 1]);
        }
    }

    proof fn lemma_remaining_nonneg(files: Seq<ParsingFile>, stack: Seq<(Option<ParseSpan>, usize)>)
        requires
            forall|i: int| 0 <= i < files.len() ==> (#[trigger] files[i]).wf(i as usize),
            forall|k: int| 0 <= k < stack.len() ==> (#[trigger] stack[k]).1 < files.len(),
        ensures
            remaining_tokens(files, stack) >= 0,
        decreases stack.len(),
    {
        if stack.len() > 0 {
            let rest = stack.drop_last();
            assert forall|k: int| 0 <= k < rest.len() implies (#[trigger] rest[k]).1 < files.len() by {
                assert(rest[k] == stack[k]);
            }
            Self::lemma_remaining_nonneg(files, rest);
            assert(stack[stack.len() - 1].1 < files.len());
            assert(files[stack.last().1 as int].wf(stack.last().1));
        }
    }
}

} // verus!
