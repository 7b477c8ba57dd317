//! Turns a stream of [lexer::SimpleTok]s into a tree of [Token]s.
use vstd::prelude::*;

use self::lexer::{lemma_simple_tokens_from_tile, simple_lexed_as, simple_token_at, simple_tokens_from, SimpleTok, SimpleTokKind, lemma_text_unit_has_no_special, starts_special, text_run_len};
use crate::lexer::span_within;
use crate::span::ParseSpan;

pub mod lexer;

verus! {

/// A turnip-text token, made of groups of [lexer::SimpleTok]s.
#[derive(Debug, PartialEq, Eq)]
pub enum Token {
    /// Python code to evaluate, without any newlines, contained in the String
    Code(String),
    /// A scope containing tokens
    Scope(Vec<Token>),
    /// A raw scope containing a string that may have newlines
    RawScope(String),
    /// Inline text, without any newlines
    Text(String),
    /// A newline that is not contained in a [Token::RawScope]
    Newline,
}

/// The value of a [Token]: its text as characters and its inner tokens as values.
pub enum TokenView {
    Code(Seq<char>),
    Scope(Seq<TokenView>),
    RawScope(Seq<char>),
    Text(Seq<char>),
    Newline,
}

impl Token {
    /// The value of the token.
    pub open spec fn value(self) -> TokenView
        decreases self,
    {
        match self {
            Token::Code(s) => TokenView::Code(s@),
            Token::Scope(v) => TokenView::Scope(tokens_value(v@)),
            Token::RawScope(s) => TokenView::RawScope(s@),
            Token::Text(s) => TokenView::Text(s@),
            Token::Newline => TokenView::Newline,
        }
    }
}

/// The values of a sequence of tokens.
pub open spec fn tokens_value(s: Seq<Token>) -> Seq<TokenView>
    decreases s,
{
    if s.len() == 0 {
        Seq::empty()
    } else {
        tokens_value(s.drop_last()).push(s.last().value())
    }
}


impl TokenView {
    /// A token with the given text (or none when the text is empty).
    pub open spec fn text_token(text: Seq<char>) -> Option<TokenView> {
        if text.len() == 0 {
            None
        } else {
            Some(TokenView::Text(text))
        }
    }
}

/// What can go wrong when parsing.
#[derive(Debug, Clone, Copy, PartialEq, Eq, Structural)]
pub enum ParseError {
    /// A newline inside inline code
    NewlineInCode,
    /// A code close outside code
    CodeCloseInText,
    /// A scope close with no scope open
    ScopeCloseOutsideScope,
    /// A scope close whose number of `#` (given) is not that of the open scope
    MismatchingScopeClose(usize),
    /// The file ended inside inline code
    EndedInsideCode,
    /// The file ended inside a raw scope
    EndedInsideRawScope,
    /// The file ended inside a scope
    EndedInsideScope,
}

/// A scope being parsed: the number of `#` that close it, and its tokens so far.
pub struct ParserScope {
    pub closing_hashes: usize,
    pub tokens: Vec<Token>,
}

/// The value of a [ParserScope].
pub struct ScopeView {
    pub closing_hashes: usize,
    pub tokens: Seq<TokenView>,
}

impl ParserScope {
    /// The value of the scope.
    pub open spec fn value(self) -> ScopeView {
        ScopeView { closing_hashes: self.closing_hashes, tokens: tokens_value(self.tokens@) }
    }
}

/// What the parser is in the middle of reading.
pub enum ParserInlineMode {
    Comment,
    InlineText(String),
    InlineCode { closing_hashes: usize, content: String },
    RawScope { closing_hashes: usize, content: String },
}

/// The value of a [ParserInlineMode].
pub enum ModeView {
    Comment,
    InlineText(Seq<char>),
    InlineCode(usize, Seq<char>),
    RawScope(usize, Seq<char>),
}

impl ModeView {
    /// The token that the mode has read so far, if any.
    pub open spec fn token(self) -> Option<TokenView> {
        match self {
            ModeView::Comment => None,
            ModeView::InlineText(t) => TokenView::text_token(t),
            ModeView::InlineCode(_, c) => Some(TokenView::Code(c)),
            ModeView::RawScope(_, c) => Some(TokenView::RawScope(c)),
        }
    }
}

impl ParserInlineMode {
    /// The value of the mode.
    pub open spec fn value(self) -> ModeView {
        match self {
            ParserInlineMode::Comment => ModeView::Comment,
            ParserInlineMode::InlineText(t) => ModeView::InlineText(t@),
            ParserInlineMode::InlineCode { closing_hashes, content } => ModeView::InlineCode(
                closing_hashes,
                content@,
            ),
            ParserInlineMode::RawScope { closing_hashes, content } => ModeView::RawScope(
                closing_hashes,
                content@,
            ),
        }
    }

    /// The token that the mode has read so far: the text if it is not empty, the code, or the raw scope.
    /// A comment gives none.
    pub fn into_token(self) -> (r: Option<Token>)
        ensures
            match r {
                Some(t) => self.value().token() == Some(t.value()),
                None => self.value().token() is None,
            },
    {
        match self {
            ParserInlineMode::Comment => None,
            ParserInlineMode::InlineText(text) => {
                if text.as_str().is_empty() {
                    None
                } else {
                    Some(Token::Text(text))
                }
            },
            ParserInlineMode::InlineCode { content, .. } => Some(Token::Code(content)),
            ParserInlineMode::RawScope { content, .. } => Some(Token::RawScope(content)),
        }
    }
}

impl Default for ParserInlineMode {
    /// Reading text, with none read yet.
    fn default() -> (r: Self)
        ensures
            r.value() == ModeView::InlineText(Seq::empty()),
    {
        ParserInlineMode::InlineText(String::new())
    }
}

/// What the parser does after reading a token.
#[derive(Debug, Clone, Copy, PartialEq, Eq, Structural)]
pub enum ParserAction {
    EndTokenAndNewlineAndStartText,
    EndTokenAndStartText,
    EndTokenAndStartComment,
    EndTokenAndStartCode(usize),
    EndTokenAndStartRawScope(usize),
    EndTokenAndPushNewScope(usize),
    EndTokenAndPopScope,
    NoAction,
}

impl ParserAction {
    /// The mode that the action starts, if it ends the current token.
    pub open spec fn new_mode(self) -> Option<ModeView> {
        match self {
            ParserAction::EndTokenAndNewlineAndStartText
            | ParserAction::EndTokenAndStartText
            | ParserAction::EndTokenAndPushNewScope(_)
            | ParserAction::EndTokenAndPopScope => Some(ModeView::InlineText(Seq::empty())),
            ParserAction::EndTokenAndStartComment => Some(ModeView::Comment),
            ParserAction::EndTokenAndStartCode(h) => Some(ModeView::InlineCode(h, Seq::empty())),
            ParserAction::EndTokenAndStartRawScope(h) => Some(ModeView::RawScope(h, Seq::empty())),
            ParserAction::NoAction => None,
        }
    }

    /// Whether the action adds a newline token.
    pub fn should_add_newline_token(&self) -> (r: bool)
        ensures
            r == (*self == ParserAction::EndTokenAndNewlineAndStartText),
    {
        match self {
            ParserAction::EndTokenAndNewlineAndStartText => true,
            _ => false,
        }
    }

    /// The number of closing `#` of the scope that the action opens, if it opens one.
    pub fn should_push_scope(&self) -> (r: Option<usize>)
        ensures
            r == (match *self {
                ParserAction::EndTokenAndPushNewScope(h) => Some(h),
                _ => None,
            }),
    {
        match self {
            ParserAction::EndTokenAndPushNewScope(hashes) => Some(*hashes),
            _ => None,
        }
    }

    /// Whether the action closes the innermost scope.
    pub fn should_pop_scope(&self) -> (r: bool)
        ensures
            r == (*self == ParserAction::EndTokenAndPopScope),
    {
        match self {
            ParserAction::EndTokenAndPopScope => true,
            _ => false,
        }
    }

    /// The mode that the action starts, if it ends the current token.
    pub fn should_transition_to_new_mode(&self) -> (r: Option<ParserInlineMode>)
        ensures
            match r {
                Some(m) => self.new_mode() == Some(m.value()),
                None => self.new_mode() is None,
            },
    {
        match *self {
            ParserAction::EndTokenAndNewlineAndStartText
            | ParserAction::EndTokenAndStartText
            | ParserAction::EndTokenAndPushNewScope(_)
            | ParserAction::EndTokenAndPopScope => Some(ParserInlineMode::InlineText(String::new())),
            ParserAction::EndTokenAndStartComment => Some(ParserInlineMode::Comment),
            ParserAction::EndTokenAndStartCode(closing_hashes) => Some(
                ParserInlineMode::InlineCode { closing_hashes, content: String::new() },
            ),
            ParserAction::EndTokenAndStartRawScope(closing_hashes) => Some(
                ParserInlineMode::RawScope { closing_hashes, content: String::new() },
            ),
            ParserAction::NoAction => None,
        }
    }
}

/// The value of a [ParserState].
pub struct StateView {
    pub scopes: Seq<ScopeView>,
    pub mode: ModeView,
    pub tokens: Seq<TokenView>,
}

impl StateView {
    /// The state at the start of a document: no scopes, reading text, no tokens.
    pub open spec fn initial() -> StateView {
        StateView { scopes: Seq::empty(), mode: ModeView::InlineText(Seq::empty()), tokens: Seq::empty() }
    }

    /// The state with `tok` added to the innermost scope, or to the top level when no scope is open.
    pub open spec fn push_token(self, tok: TokenView) -> StateView {
        if self.scopes.len() > 0 {
            let last = self.scopes.last();
            StateView {
                scopes: self.scopes.update(
                    self.scopes.len() - 1,
                    ScopeView { closing_hashes: last.closing_hashes, tokens: last.tokens.push(tok) },
                ),
                ..self
            }
        } else {
            StateView { tokens: self.tokens.push(tok), ..self }
        }
    }

    /// The state with `tok` added, if there is one.
    pub open spec fn push_opt(self, tok: Option<TokenView>) -> StateView {
        match tok {
            Some(t) => self.push_token(t),
            None => self,
        }
    }

    /// The state after an action: the current token ends and the new mode starts, then a newline is
    /// added, then the innermost scope closes (becoming a token of the scope around it), then a new
    /// scope opens.
    pub open spec fn after_action(self, action: ParserAction) -> StateView {
        let s1 = match action.new_mode() {
            Some(m) => StateView { mode: m, ..self.push_opt(self.mode.token()) },
            None => self,
        };
        let s2 = if action == ParserAction::EndTokenAndNewlineAndStartText {
            s1.push_token(TokenView::Newline)
        } else {
            s1
        };
        let s3 = if action == ParserAction::EndTokenAndPopScope && s2.scopes.len() > 0 {
            StateView { scopes: s2.scopes.drop_last(), ..s2 }.push_token(
                TokenView::Scope(s2.scopes.last().tokens),
            )
        } else {
            s2
        };
        match action {
            ParserAction::EndTokenAndPushNewScope(h) => StateView {
                scopes: s3.scopes.push(ScopeView { closing_hashes: h, tokens: Seq::empty() }),
                ..s3
            },
            _ => s3,
        }
    }

    /// The state after reading `tok` of document `data`, or the error it causes.
    pub open spec fn step(self, data: Seq<char>, tok: SimpleTok) -> Result<StateView, ParseError> {
        match self.mode {
            ModeView::InlineText(text) => match tok {
                SimpleTok::Newline(_) => Ok(
                    self.after_action(ParserAction::EndTokenAndNewlineAndStartText),
                ),
                SimpleTok::Hashes(_, _) => Ok(self.after_action(ParserAction::EndTokenAndStartComment)),
                SimpleTok::CodeOpen(_, n) => Ok(self.after_action(ParserAction::EndTokenAndStartCode(n))),
                SimpleTok::RawScopeOpen(_, n) => Ok(
                    self.after_action(ParserAction::EndTokenAndStartRawScope(n)),
                ),
                SimpleTok::ScopeOpen(_, n) => Ok(
                    self.after_action(ParserAction::EndTokenAndPushNewScope(n)),
                ),
                SimpleTok::ScopeClose(_, n) => if self.scopes.len() == 0 {
                    Err(ParseError::ScopeCloseOutsideScope)
                } else if self.scopes.last().closing_hashes == n {
                    Ok(self.after_action(ParserAction::EndTokenAndPopScope))
                } else {
                    Err(ParseError::MismatchingScopeClose(n))
                },
                SimpleTok::CodeClose(_, _) => Err(ParseError::CodeCloseInText),
                SimpleTok::OtherText(_) | SimpleTok::Backslash(_) => Ok(
                    StateView { mode: ModeView::InlineText(text + tok.text(data)), ..self },
                ),
                SimpleTok::Escaped(_, e) => Ok(
                    StateView { mode: ModeView::InlineText(text + e.text()), ..self },
                ),
            },
            ModeView::InlineCode(h, content) => match tok {
                SimpleTok::CodeClose(_, n) => if n == h {
                    Ok(self.after_action(ParserAction::EndTokenAndStartText))
                } else {
                    Ok(StateView { mode: ModeView::InlineCode(h, content + tok.text(data)), ..self })
                },
                SimpleTok::Newline(_) => Err(ParseError::NewlineInCode),
                _ => Ok(StateView { mode: ModeView::InlineCode(h, content + tok.text(data)), ..self }),
            },
            ModeView::Comment => match tok {
                SimpleTok::Newline(_) => Ok(
                    self.after_action(ParserAction::EndTokenAndNewlineAndStartText),
                ),
                _ => Ok(self),
            },
            ModeView::RawScope(h, content) => match tok {
                SimpleTok::ScopeClose(_, n) => if n == h {
                    Ok(self.after_action(ParserAction::EndTokenAndStartText))
                } else {
                    Ok(StateView { mode: ModeView::RawScope(h, content + tok.text(data)), ..self })
                },
                SimpleTok::Newline(_) => Ok(
                    StateView { mode: ModeView::RawScope(h, content + seq!['\n']), ..self },
                ),
                _ => Ok(StateView { mode: ModeView::RawScope(h, content + tok.text(data)), ..self }),
            },
        }
    }

    /// The state after reading all of `toks` of document `data`, or the first error.
    pub open spec fn run(self, data: Seq<char>, toks: Seq<SimpleTok>) -> Result<StateView, ParseError>
        decreases toks.len(),
    {
        if toks.len() == 0 {
            Ok(self)
        } else {
            match self.step(data, toks[0]) {
                Ok(next) => next.run(data, toks.drop_first()),
                Err(e) => Err(e),
            }
        }
    }

    /// The tokens of the document once it has ended in this state, or the error that ending causes.
    pub open spec fn finish(self) -> Result<Seq<TokenView>, ParseError> {
        let ended = match self.mode {
            ModeView::Comment => Ok(self),
            ModeView::InlineText(_) => Ok(self.after_action(ParserAction::EndTokenAndStartText)),
            ModeView::InlineCode(_, _) => Err(ParseError::EndedInsideCode),
            ModeView::RawScope(_, _) => Err(ParseError::EndedInsideRawScope),
        };
        match ended {
            Ok(st) => if st.scopes.len() > 0 {
                Err(ParseError::EndedInsideScope)
            } else {
                Ok(st.tokens)
            },
            Err(e) => Err(e),
        }
    }
}

/// The tokens that document `data`, split into `toks`, parses to, or the first error.
pub open spec fn parse_spec(data: Seq<char>, toks: Seq<SimpleTok>) -> Result<Seq<TokenView>, ParseError> {
    match StateView::initial().run(data, toks) {
        Ok(st) => st.finish(),
        Err(e) => Err(e),
    }
}

/// The tokens that the innermost open scope (or the top level, when none is open) holds so far.
pub open spec fn innermost_tokens(st: StateView) -> Seq<TokenView> {
    if st.scopes.len() > 0 {
        st.scopes.last().tokens
    } else {
        st.tokens
    }
}

/// A newline ends a comment as it ends a line of text: the comment leaves no token, the newline is
/// kept as a [TokenView::Newline] in the innermost scope (or at the top level), the scopes stay open,
/// and text starts afresh. Reading the newline after a comment gives the same as reading it after a
/// line whose text is empty.
pub proof fn lemma_newline_ends_comment(st: StateView, data: Seq<char>, span: ParseSpan)
    requires
        st.mode is Comment,
    ensures
        st.step(data, SimpleTok::Newline(span)) is Ok,
        ({
            let s2 = st.step(data, SimpleTok::Newline(span))->Ok_0;
            &&& s2.mode == ModeView::InlineText(Seq::empty())
            &&& s2.scopes.len() == st.scopes.len()
            &&& innermost_tokens(s2) == innermost_tokens(st).push(TokenView::Newline)
            &&& st.scopes.len() > 0 ==> s2.scopes.drop_last() == st.scopes.drop_last() && s2.tokens == st.tokens
        }),
        st.step(data, SimpleTok::Newline(span)) == (StateView { mode: ModeView::InlineText(Seq::empty()), ..st }).step(
            data,
            SimpleTok::Newline(span),
        ),
{
    let s2 = st.step(data, SimpleTok::Newline(span))->Ok_0;
    assert(TokenView::text_token(Seq::empty()) is None);
    if st.scopes.len() > 0 {
        assert(s2.scopes.drop_last() =~= st.scopes.drop_last());
    }
}

/// The values of a sequence of scopes.
pub open spec fn scopes_value(s: Seq<ParserScope>) -> Seq<ScopeView> {
    Seq::new(s.len(), |i: int| s[i].value())
}

/// The state of the parser: the open scopes, what it is reading, and the top-level tokens.
pub struct ParserState {
    pub scope_stack: Vec<ParserScope>,
    pub inline_mode: ParserInlineMode,
    pub tokens: Vec<Token>,
}

impl ParserState {
    /// The value of the state.
    pub open spec fn value(self) -> StateView {
        StateView {
            scopes: scopes_value(self.scope_stack@),
            mode: self.inline_mode.value(),
            tokens: tokens_value(self.tokens@),
        }
    }

    /// The state at the start of a document.
    pub fn new() -> (r: Self)
        ensures
            r.value() == StateView::initial(),
    {
        let r = Self { scope_stack: Vec::new(), inline_mode: ParserInlineMode::default(), tokens: Vec::new() };
        proof {
            assert(scopes_value(r.scope_stack@) =~= Seq::empty());
        }
        r
    }
}


proof fn lemma_tokens_value_push(s: Seq<Token>, t: Token)
    ensures
        tokens_value(s.push(t)) == tokens_value(s).push(t.value()),
{
    assert(s.push(t).drop_last() =~= s);
}

proof fn lemma_tokens_value_len(s: Seq<Token>)
    ensures
        tokens_value(s).len() == s.len(),
    decreases s.len(),
{
    if s.len() > 0 {
        lemma_tokens_value_len(s.drop_last());
    }
}

impl ParserState {
    /// The tokens of the innermost open scope, or the top-level tokens when no scope is open.
    fn find_next_token_stack(&mut self) -> (r: &mut Vec<Token>)
        ensures
            old(self).scope_stack@.len() > 0 ==> {
                &&& *r == old(self).scope_stack@.last().tokens
                &&& final(self).scope_stack@ == old(self).scope_stack@.update(
                    old(self).scope_stack@.len() - 1,
                    ParserScope {
                        closing_hashes: old(self).scope_stack@.last().closing_hashes,
                        tokens: *final(r),
                    },
                )
                &&& final(self).tokens == old(self).tokens
                &&& final(self).inline_mode == old(self).inline_mode
            },
            old(self).scope_stack@.len() == 0 ==> {
                &&& *r == old(self).tokens
                &&& final(self).tokens == *final(r)
                &&& final(self).scope_stack == old(self).scope_stack
                &&& final(self).inline_mode == old(self).inline_mode
            },
    {
        let n = self.scope_stack.len();
        if n > 0 {
            &mut self.scope_stack[n - 1].tokens
        } else {
            &mut self.tokens
        }
    }
}


impl ParserState {
    /// Adds `tok` to the innermost open scope, or to the top level when no scope is open.
    fn push_token(&mut self, tok: Token)
        ensures
            final(self).value() == old(self).value().push_token(tok.value()),
    {
        let ghost t = tok;
        let stack = self.find_next_token_stack();
        let ghost before = *stack;
        stack.push(tok);
        proof {
            lemma_tokens_value_push(before@, t);
            let o = old(self).value();
            if old(self).scope_stack@.len() > 0 {
                assert(self.scope_stack@.len() == old(self).scope_stack@.len());
                assert(scopes_value(self.scope_stack@) =~= o.push_token(t.value()).scopes);
            }
        }
    }

    /// Carries out `action`: ends the current token and starts the new mode, adds a newline,
    /// closes the innermost scope into a token of the scope around it, or opens a new scope.
    pub fn execute_action(&mut self, action: ParserAction) -> (r: Result<(), ParseError>)
        requires
            action == ParserAction::EndTokenAndPopScope ==> old(self).scope_stack@.len() > 0,
        ensures
            r is Ok,
            final(self).value() == old(self).value().after_action(action),
    {
        let ghost v0 = self.value();
        if let Some(new_inline_mode) = action.should_transition_to_new_mode() {
            let mut old_mode = new_inline_mode;
            std::mem::swap(&mut old_mode, &mut self.inline_mode);
            let ghost v_mid = self.value();
            proof {
                assert(v_mid == StateView { mode: action.new_mode().unwrap(), ..v0 });
            }
            if let Some(token) = old_mode.into_token() {
                self.push_token(token);
            }
        }
        let ghost v1 = self.value();
        assert(v1 == match action.new_mode() {
            Some(m) => StateView { mode: m, ..v0.push_opt(v0.mode.token()) },
            None => v0,
        });
        if action.should_add_newline_token() {
            self.push_token(Token::Newline);
        }
        let ghost v2 = self.value();
        if action.should_pop_scope() {
            match self.scope_stack.pop() {
                Some(scope) => {
                    proof {
                        assert(scopes_value(self.scope_stack@) =~= v2.scopes.drop_last());
                    }
                    self.push_token(Token::Scope(scope.tokens));
                },
                None => {
                    proof {
                        assert(false);
                    }
                },
            }
        }
        let ghost v3 = self.value();
        if let Some(closing_hashes) = action.should_push_scope() {
            self.scope_stack.push(ParserScope { closing_hashes, tokens: Vec::new() });
            proof {
                assert(tokens_value(Seq::<Token>::empty()) =~= Seq::empty());
                assert(scopes_value(self.scope_stack@) =~= v3.scopes.push(
                    ScopeView { closing_hashes, tokens: Seq::empty() },
                ));
            }
        }
        Ok(())
    }
}


impl ParserState {
    /// Reads `stok`, a unit of document `data`: extends the token being read, or acts on it.
    pub fn parse_simple_token(&mut self, data: &str, stok: SimpleTok) -> (r: Result<(), ParseError>)
        requires
            span_within(data@, stok.span()),
        ensures
            match old(self).value().step(data@, stok) {
                Ok(v) => r is Ok && final(self).value() == v,
                Err(e) => r == Err::<(), ParseError>(e),
            },
    {
        let expected_scope_close_hashes = if self.scope_stack.len() > 0 {
            Some(self.scope_stack[self.scope_stack.len() - 1].closing_hashes)
        } else {
            None
        };
        let ghost v0 = self.value();
        proof {
            if self.scope_stack@.len() > 0 {
                assert(v0.scopes.last() == self.scope_stack@.last().value());
            }
        }
        let action = match &mut self.inline_mode {
            ParserInlineMode::InlineText(text) => match stok {
                SimpleTok::Newline(_) => ParserAction::EndTokenAndNewlineAndStartText,
                SimpleTok::Hashes(_, _) => ParserAction::EndTokenAndStartComment,
                SimpleTok::CodeOpen(_, n) => ParserAction::EndTokenAndStartCode(n),
                SimpleTok::RawScopeOpen(_, n) => ParserAction::EndTokenAndStartRawScope(n),
                SimpleTok::ScopeOpen(_, n) => ParserAction::EndTokenAndPushNewScope(n),
                SimpleTok::ScopeClose(_, n) => match expected_scope_close_hashes {
                    Some(n_expected) => {
                        if n == n_expected {
                            ParserAction::EndTokenAndPopScope
                        } else {
                            return Err(ParseError::MismatchingScopeClose(n));
                        }
                    },
                    None => {
                        return Err(ParseError::ScopeCloseOutsideScope);
                    },
                },
                SimpleTok::CodeClose(_, _) => {
                    return Err(ParseError::CodeCloseInText);
                },
                SimpleTok::OtherText(_) | SimpleTok::Backslash(_) => {
                    text.append(stok.stringify(data));
                    ParserAction::NoAction
                },
                SimpleTok::Escaped(_, escapee) => {
                    text.append(escapee.stringify());
                    ParserAction::NoAction
                },
            },
            ParserInlineMode::InlineCode { closing_hashes, content } => match stok {
                SimpleTok::CodeClose(_, n) if n == *closing_hashes => ParserAction::EndTokenAndStartText,
                SimpleTok::Newline(_) => {
                    return Err(ParseError::NewlineInCode);
                },
                _ => {
                    content.append(stok.stringify(data));
                    ParserAction::NoAction
                },
            },
            ParserInlineMode::Comment => match stok {
                SimpleTok::Newline(_) => ParserAction::EndTokenAndNewlineAndStartText,
                _ => ParserAction::NoAction,
            },
            ParserInlineMode::RawScope { closing_hashes, content } => match stok {
                SimpleTok::ScopeClose(_, n) if n == *closing_hashes => ParserAction::EndTokenAndStartText,
                SimpleTok::Newline(_) => {
                    let newline = "\n";
                    proof {
                        reveal_strlit("\n");
                        assert(newline@ =~= seq!['\n']);
                    }
                    content.append(newline);
                    ParserAction::NoAction
                },
                _ => {
                    content.append(stok.stringify(data));
                    ParserAction::NoAction
                },
            },
        };
        self.execute_action(action)
    }

    /// Ends the document: the text being read becomes a token, and the top-level tokens are returned.
    /// Ending inside code, a raw scope or a scope is an error.
    pub fn finalize(self) -> (r: Result<Vec<Token>, ParseError>)
        ensures
            match self.value().finish() {
                Ok(ts) => r matches Ok(v) && tokens_value(v@) == ts,
                Err(e) => r == Err::<Vec<Token>, ParseError>(e),
            },
    {
        let mut st = self;
        match st.inline_mode {
            ParserInlineMode::Comment => {},
            ParserInlineMode::InlineText(_) => {
                let _ = st.execute_action(ParserAction::EndTokenAndStartText);
            },
            ParserInlineMode::InlineCode { .. } => {
                return Err(ParseError::EndedInsideCode);
            },
            ParserInlineMode::RawScope { .. } => {
                return Err(ParseError::EndedInsideRawScope);
            },
        }
        if st.scope_stack.len() > 0 {
            return Err(ParseError::EndedInsideScope);
        }
        Ok(st.tokens)
    }
}

/// Parses the units `token_stream` of document `data` into a vector of [Token]s.
///
/// Parsing stops at the first error, which is returned.
pub fn parse_simple_tokens(data: &str, token_stream: Vec<SimpleTok>) -> (r: Result<Vec<Token>, ParseError>)
    requires
        forall|i: int| 0 <= i < token_stream@.len() ==> span_within(data@, #[trigger] token_stream@[i].span()),
    ensures
        match parse_spec(data@, token_stream@) {
            Ok(ts) => r matches Ok(v) && tokens_value(v@) == ts,
            Err(e) => r == Err::<Vec<Token>, ParseError>(e),
        },
{
    let mut parser = ParserState::new();
    let mut i: usize = 0;
    assert(token_stream@.subrange(0, token_stream@.len() as int) =~= token_stream@);
    while i < token_stream.len()
        invariant
            0 <= i <= token_stream@.len(),
            forall|j: int| 0 <= j < token_stream@.len() ==> span_within(data@, #[trigger] token_stream@[j].span()),
            StateView::initial().run(data@, token_stream@) == parser.value().run(
                data@,
                token_stream@.subrange(i as int, token_stream@.len() as int),
            ),
        decreases token_stream@.len() - i,
    {
        let ghost rest = token_stream@.subrange(i as int, token_stream@.len() as int);
        proof {
            assert(rest[0] == token_stream@[i as int]);
            assert(rest.drop_first() =~= token_stream@.subrange(i + 1, token_stream@.len() as int));
        }
        let res = parser.parse_simple_token(data, token_stream[i]);
        match res {
            Ok(()) => {},
            Err(e) => {
                return Err(e);
            },
        }
        i = i + 1;
    }
    proof {
        assert(token_stream@.subrange(i as int, token_stream@.len() as int).len() == 0);
    }
    parser.finalize()
}


/// `t` holds no `'\n'` and no `'\r'`.
pub open spec fn has_no_newline(t: Seq<char>) -> bool {
    forall|i: int| 0 <= i < t.len() ==> t[i] != '\n' && t[i] != '\r'
}

/// Every [TokenView::Text] in `t`, at any depth, has no newline.
pub open spec fn token_texts_ok(t: TokenView) -> bool
    decreases t,
{
    match t {
        TokenView::Text(s) => has_no_newline(s),
        TokenView::Scope(v) => tokens_texts_ok(v),
        _ => true,
    }
}

/// Every [TokenView::Text] in `s`, at any depth, has no newline.
pub open spec fn tokens_texts_ok(s: Seq<TokenView>) -> bool
    decreases s,
{
    if s.len() == 0 {
        true
    } else {
        tokens_texts_ok(s.drop_last()) && token_texts_ok(s.last())
    }
}

proof fn lemma_tokens_texts_ok_push(s: Seq<TokenView>, t: TokenView)
    ensures
        tokens_texts_ok(s.push(t)) == (tokens_texts_ok(s) && token_texts_ok(t)),
{
    assert(s.push(t).drop_last() =~= s);
}

/// No text in the state, finished or being read, has a newline.
pub open spec fn state_texts_ok(st: StateView) -> bool {
    &&& tokens_texts_ok(st.tokens)
    &&& forall|i: int| 0 <= i < st.scopes.len() ==> tokens_texts_ok(#[trigger] st.scopes[i].tokens)
    &&& st.mode matches ModeView::InlineText(t) ==> has_no_newline(t)
}

proof fn lemma_push_token_texts_ok(st: StateView, t: TokenView)
    requires
        state_texts_ok(st),
        token_texts_ok(t),
    ensures
        state_texts_ok(st.push_token(t)),
{
    let r = st.push_token(t);
    if st.scopes.len() > 0 {
        let last = st.scopes.last();
        lemma_tokens_texts_ok_push(last.tokens, t);
        assert forall|i: int| 0 <= i < r.scopes.len() implies tokens_texts_ok(#[trigger] r.scopes[i].tokens) by {
            if i < st.scopes.len() - 1 {
                assert(r.scopes[i] == st.scopes[i]);
            }
        }
    } else {
        lemma_tokens_texts_ok_push(st.tokens, t);
    }
}

proof fn lemma_after_action_texts_ok(st: StateView, action: ParserAction)
    requires
        state_texts_ok(st),
    ensures
        state_texts_ok(st.after_action(action)),
{
    let s1 = match action.new_mode() {
        Some(m) => StateView { mode: m, ..st.push_opt(st.mode.token()) },
        None => st,
    };
    if let Some(m) = action.new_mode() {
        if let Some(t) = st.mode.token() {
            lemma_push_token_texts_ok(st, t);
        }
        let p = st.push_opt(st.mode.token());
        assert(state_texts_ok(p));
        assert(state_texts_ok(StateView { mode: m, ..p }));
    }
    assert(state_texts_ok(s1));
    let s2 = if action == ParserAction::EndTokenAndNewlineAndStartText {
        s1.push_token(TokenView::Newline)
    } else {
        s1
    };
    if action == ParserAction::EndTokenAndNewlineAndStartText {
        lemma_push_token_texts_ok(s1, TokenView::Newline);
    }
    assert(state_texts_ok(s2));
    let s3 = if action == ParserAction::EndTokenAndPopScope && s2.scopes.len() > 0 {
        StateView { scopes: s2.scopes.drop_last(), ..s2 }.push_token(
            TokenView::Scope(s2.scopes.last().tokens),
        )
    } else {
        s2
    };
    if action == ParserAction::EndTokenAndPopScope && s2.scopes.len() > 0 {
        let d = StateView { scopes: s2.scopes.drop_last(), ..s2 };
        assert(tokens_texts_ok(s2.scopes[s2.scopes.len() - 1].tokens));
        assert(forall|i: int| 0 <= i < d.scopes.len() ==> d.scopes[i] == s2.scopes[i]);
        assert(state_texts_ok(d));
        lemma_push_token_texts_ok(d, TokenView::Scope(s2.scopes.last().tokens));
    }
    assert(state_texts_ok(s3));
    if let ParserAction::EndTokenAndPushNewScope(h) = action {
        let s4 = StateView {
            scopes: s3.scopes.push(ScopeView { closing_hashes: h, tokens: Seq::empty() }),
            ..s3
        };
        assert forall|i: int| 0 <= i < s4.scopes.len() implies tokens_texts_ok(#[trigger] s4.scopes[i].tokens) by {
            if i < s3.scopes.len() {
                assert(s4.scopes[i] == s3.scopes[i]);
            }
        }
    }
}

/// The text that a unit adds to text being read has no newline.
pub open spec fn unit_text_ok(data: Seq<char>, tok: SimpleTok) -> bool {
    (tok is OtherText || tok is Backslash) ==> has_no_newline(tok.text(data))
}

proof fn lemma_step_texts_ok(st: StateView, data: Seq<char>, tok: SimpleTok)
    requires
        state_texts_ok(st),
        unit_text_ok(data, tok),
    ensures
        st.step(data, tok) matches Ok(next) ==> state_texts_ok(next),
{
    match st.mode {
        ModeView::InlineText(text) => match tok {
            SimpleTok::Newline(_) => lemma_after_action_texts_ok(st, ParserAction::EndTokenAndNewlineAndStartText),
            SimpleTok::Hashes(_, _) => lemma_after_action_texts_ok(st, ParserAction::EndTokenAndStartComment),
            SimpleTok::CodeOpen(_, n) => lemma_after_action_texts_ok(st, ParserAction::EndTokenAndStartCode(n)),
            SimpleTok::RawScopeOpen(_, n) => lemma_after_action_texts_ok(st, ParserAction::EndTokenAndStartRawScope(n)),
            SimpleTok::ScopeOpen(_, n) => lemma_after_action_texts_ok(st, ParserAction::EndTokenAndPushNewScope(n)),
            SimpleTok::ScopeClose(_, n) => lemma_after_action_texts_ok(st, ParserAction::EndTokenAndPopScope),
            SimpleTok::CodeClose(_, _) => {},
            SimpleTok::OtherText(_) | SimpleTok::Backslash(_) => {
                let nt = text + tok.text(data);
                assert forall|i: int| 0 <= i < nt.len() implies nt[i] != '\n' && nt[i] != '\r' by {
                    if i >= text.len() {
                        assert(nt[i] == tok.text(data)[i - text.len()]);
                    }
                }
            },
            SimpleTok::Escaped(_, e) => {
                let nt = text + e.text();
                assert forall|i: int| 0 <= i < nt.len() implies nt[i] != '\n' && nt[i] != '\r' by {
                    if i >= text.len() {
                        assert(nt[i] == e.text()[i - text.len()]);
                    }
                }
            },
        },
        ModeView::InlineCode(h, content) => {
            lemma_after_action_texts_ok(st, ParserAction::EndTokenAndStartText);
        },
        ModeView::Comment => {
            lemma_after_action_texts_ok(st, ParserAction::EndTokenAndNewlineAndStartText);
        },
        ModeView::RawScope(h, content) => {
            lemma_after_action_texts_ok(st, ParserAction::EndTokenAndStartText);
        },
    }
}

proof fn lemma_run_texts_ok(st: StateView, data: Seq<char>, toks: Seq<SimpleTok>)
    requires
        state_texts_ok(st),
        forall|i: int| 0 <= i < toks.len() ==> unit_text_ok(data, #[trigger] toks[i]),
    ensures
        st.run(data, toks) matches Ok(fin) ==> state_texts_ok(fin),
    decreases toks.len(),
{
    if toks.len() > 0 {
        lemma_step_texts_ok(st, data, toks[0]);
        if let Ok(next) = st.step(data, toks[0]) {
            assert forall|i: int| 0 <= i < toks.drop_first().len() implies unit_text_ok(data, #[trigger] toks.drop_first()[i]) by {
                assert(toks.drop_first()[i] == toks[i + 1]);
            }
            lemma_run_texts_ok(next, data, toks.drop_first());
        }
    }
}

/// Every unit that the lexer makes of a document adds no newline to text.
proof fn lemma_lexed_units_text_ok(data: Seq<char>, toks: Seq<SimpleTok>)
    requires
        simple_lexed_as(toks, data),
    ensures
        forall|i: int| 0 <= i < toks.len() ==> unit_text_ok(data, #[trigger] toks[i]),
{
    let t = simple_tokens_from(data, 0);
    lemma_simple_tokens_from_tile(data, 0);
    assert forall|i: int| 0 <= i < toks.len() implies unit_text_ok(data, #[trigger] toks[i]) by {
        let (k, a, e) = t[i];
        assert(toks[i].kind() == k);
        assert((k, e) == simple_token_at(data, a));
        let txt = toks[i].text(data);
        assert(txt =~= data.subrange(a, e));
        if toks[i] is OtherText {
            lemma_text_unit_has_no_special(data, a);
            assert forall|j: int| 0 <= j < txt.len() implies txt[j] != '\n' && txt[j] != '\r' by {
                assert(txt[j] == data[a + j]);
            }
        } else if toks[i] is Backslash {
            assert(data[a] == '\\');
            assert(e == a + 1);
            assert forall|j: int| 0 <= j < txt.len() implies txt[j] != '\n' && txt[j] != '\r' by {
                assert(txt[j] == data[a + j]);
            }
        }
    }
}

/// Text tokens have no newlines: when a document parses, every [Token::Text] in the result, at any
/// depth of scopes, holds no `'\n'` and no `'\r'`.
pub proof fn lemma_parsed_text_has_no_newline(data: Seq<char>, toks: Seq<SimpleTok>)
    requires
        simple_lexed_as(toks, data),
    ensures
        parse_spec(data, toks) matches Ok(ts) ==> tokens_texts_ok(ts),
{
    lemma_lexed_units_text_ok(data, toks);
    let init = StateView::initial();
    assert(state_texts_ok(init));
    lemma_run_texts_ok(init, data, toks);
    if let Ok(st) = init.run(data, toks) {
        match st.mode {
            ModeView::InlineText(_) => {
                lemma_after_action_texts_ok(st, ParserAction::EndTokenAndStartText);
            },
            _ => {},
        }
    }
}


proof fn lemma_text_run_all(s: Seq<char>, a: int)
    requires
        0 <= a <= s.len(),
        forall|i: int| 0 <= i < s.len() ==> !starts_special(s, i),
    ensures
        text_run_len(s, a) == s.len() - a,
    decreases s.len() - a,
{
    if a < s.len() {
        lemma_text_run_all(s, a + 1);
    }
}

/// Plain text parses to itself: a non-empty document in which no character starts a special unit
/// (no newline, backslash, bracket, brace, `#`, or `r{`) parses to a single [Token::Text] holding the
/// whole document.
pub proof fn lemma_plain_text_is_one_text_token(data: Seq<char>, toks: Seq<SimpleTok>)
    requires
        simple_lexed_as(toks, data),
        data.len() > 0,
        forall|i: int| 0 <= i < data.len() ==> !starts_special(data, i),
    ensures
        parse_spec(data, toks) == Ok::<Seq<TokenView>, ParseError>(seq![TokenView::Text(data)]),
{
    lemma_text_run_all(data, 0);
    assert(!starts_special(data, 0));
    assert(simple_token_at(data, 0) == (SimpleTokKind::OtherText, data.len() as int));
    assert(simple_tokens_from(data, data.len() as int).len() == 0);
    assert(simple_tokens_from(data, 0) =~= seq![(SimpleTokKind::OtherText, 0int, data.len() as int)]);
    assert(toks.len() == 1);
    let tok = toks[0];
    assert(tok.kind() == SimpleTokKind::OtherText);
    assert(tok.text(data) =~= data);
    let init = StateView::initial();
    let st1 = StateView { mode: ModeView::InlineText(Seq::empty() + tok.text(data)), ..init };
    assert(init.step(data, tok) == Ok::<StateView, ParseError>(st1));
    assert(toks.drop_first().len() == 0);
    assert(init.run(data, toks) == st1.run(data, toks.drop_first()));
    assert(Seq::<char>::empty() + tok.text(data) =~= data);
    let fin = st1.after_action(ParserAction::EndTokenAndStartText);
    assert(fin.tokens =~= seq![TokenView::Text(data)]);
}

} // verus!
