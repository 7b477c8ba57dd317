use turnip_text::doc_segment::{Document, Header};
use turnip_text::interpreter::doc::{Block, Inline};
use turnip_text::interpreter::driver::{ParseStep, RecursionConfig, TTErrorWithContext, TurnipTextParser};
use turnip_text::interpreter::state_machines::code::{
    BuildArgument, BuilderOutcome, EvalResult, EvalValue, EvaluatedObject, TurnipTextSource,
};
use turnip_text::interpreter::syntax::{BlockModeElem, TTSyntaxError, TTUserPythonError, UserPythonBuildMode};

fn config() -> RecursionConfig {
    RecursionConfig { recursion_warning: true, max_file_depth: None }
}

fn parser(contents: &str) -> TurnipTextParser {
    TurnipTextParser::new("<test>".to_string(), contents.to_string(), config()).expect("the document can be read")
}

/// Parses a document in which no code runs.
fn parse(contents: &str) -> Result<Document<Vec<Block>>, TTErrorWithContext> {
    let mut p = parser(contents);
    match p.run()? {
        ParseStep::Finished => Ok(p.finalize()),
        other => panic!("no code was expected to run, got {:?}", other),
    }
}

fn object(handle: u64, value: EvalValue) -> EvalResult {
    EvalResult::Object(EvaluatedObject {
        handle,
        value,
        block_builder: false,
        inline_builder: false,
        raw_builder: false,
    })
}

fn text(i: &Inline) -> &str {
    match i {
        Inline::Text(s) => s.as_str(),
        other => panic!("expected text, got {:?}", other),
    }
}

/// The sentences of a paragraph block, each as the list of its inline elements.
fn sentences(b: &Block) -> &Vec<Vec<Inline>> {
    match b {
        Block::Paragraph(s) => s,
        other => panic!("expected a paragraph, got {:?}", other),
    }
}

#[test]
fn empty_document_has_no_blocks() {
    let doc = parse("").unwrap();
    assert_eq!(doc.contents().len(), 0);
    assert_eq!(doc.segments().len(), 0);
}

#[test]
fn one_sentence_paragraph() {
    let doc = parse("Hello world").unwrap();
    assert_eq!(doc.contents().len(), 1);
    let para = sentences(&doc.contents()[0]);
    assert_eq!(para.len(), 1);
    assert_eq!(para[0].len(), 1);
    assert_eq!(text(&para[0][0]), "Hello world");
}

#[test]
fn whitespace_between_words_is_kept_and_trailing_whitespace_dropped() {
    let doc = parse("  Hello   world  \n").unwrap();
    let para = sentences(&doc.contents()[0]);
    assert_eq!(para.len(), 1);
    assert_eq!(text(&para[0][0]), "Hello   world");
}

#[test]
fn newline_ends_a_sentence_and_blank_line_ends_a_paragraph() {
    let doc = parse("one\ntwo\n\nthree").unwrap();
    assert_eq!(doc.contents().len(), 2);
    let first = sentences(&doc.contents()[0]);
    assert_eq!(first.len(), 2);
    assert_eq!(text(&first[0][0]), "one");
    assert_eq!(text(&first[1][0]), "two");
    let second = sentences(&doc.contents()[1]);
    assert_eq!(second.len(), 1);
    assert_eq!(text(&second[0][0]), "three");
}

#[test]
fn escapes_are_resolved_in_text() {
    let doc = parse("a\\[b\\]c").unwrap();
    let para = sentences(&doc.contents()[0]);
    assert_eq!(text(&para[0][0]), "a[b]c");
}

#[test]
fn escaped_newline_continues_the_sentence() {
    let doc = parse("one\\\ntwo").unwrap();
    let para = sentences(&doc.contents()[0]);
    assert_eq!(para.len(), 1);
    assert_eq!(text(&para[0][0]), "onetwo");
}

#[test]
fn inline_scope_in_a_sentence() {
    let doc = parse("a {b} c").unwrap();
    let para = sentences(&doc.contents()[0]);
    assert_eq!(para.len(), 1);
    let s = &para[0];
    assert_eq!(s.len(), 3);
    assert_eq!(text(&s[0]), "a ");
    match &s[1] {
        Inline::InlineScope(inner) => {
            assert_eq!(inner.len(), 1);
            assert_eq!(text(&inner[0]), "b");
        },
        other => panic!("expected an inline scope, got {:?}", other),
    }
    assert_eq!(text(&s[2]), " c");
}

#[test]
fn raw_scope_keeps_its_contents() {
    let doc = parse("#{raw [text] {here}}#").unwrap();
    let para = sentences(&doc.contents()[0]);
    match &para[0][0] {
        Inline::Raw(r) => assert_eq!(r, "raw [text] {here}"),
        other => panic!("expected raw text, got {:?}", other),
    }
}

#[test]
fn block_scope_is_flattened_into_the_document() {
    let doc = parse("{\ninside\n}\n\nafter").unwrap();
    assert_eq!(doc.contents().len(), 2);
    assert_eq!(text(&sentences(&doc.contents()[0])[0][0]), "inside");
    assert_eq!(text(&sentences(&doc.contents()[1])[0][0]), "after");
}

#[test]
fn comment_is_dropped() {
    let doc = parse("words # a comment\nmore").unwrap();
    let para = sentences(&doc.contents()[0]);
    assert_eq!(para.len(), 2);
    assert_eq!(text(&para[0][0]), "words");
    assert_eq!(text(&para[1][0]), "more");
}

#[test]
fn code_close_outside_code_is_an_error() {
    let r = parse("]");
    assert!(matches!(r, Err(TTErrorWithContext::Syntax(TTSyntaxError::CodeCloseOutsideCode(_)))));
}

#[test]
fn scope_close_at_top_level_is_an_error() {
    let r = parse("}");
    assert!(matches!(r, Err(TTErrorWithContext::Syntax(TTSyntaxError::BlockScopeCloseOutsideScope(_)))));
}

#[test]
fn raw_scope_close_outside_raw_scope_is_an_error() {
    let r = parse("}#");
    assert!(matches!(r, Err(TTErrorWithContext::Syntax(TTSyntaxError::RawScopeCloseOutsideRawScope(_)))));
}

#[test]
fn file_ending_inside_scope_is_an_error() {
    let r = parse("{\nabc\n");
    match r {
        Err(TTErrorWithContext::Syntax(TTSyntaxError::EndedInsideScope { scope_start, .. })) => {
            assert_eq!(scope_start.start.byte_ofs, 0);
        },
        other => panic!("unexpected {:?}", other),
    }
}

#[test]
fn file_ending_inside_raw_scope_is_an_error() {
    let r = parse("#{abc");
    assert!(matches!(r, Err(TTErrorWithContext::Syntax(TTSyntaxError::EndedInsideRawScope { .. }))));
}

#[test]
fn file_ending_inside_code_is_an_error() {
    let r = parse("text [code");
    match r {
        Err(TTErrorWithContext::Syntax(TTSyntaxError::EndedInsideCode { code_start, .. })) => {
            assert_eq!(code_start.start.byte_ofs, 5);
        },
        other => panic!("unexpected {:?}", other),
    }
}

#[test]
fn escaped_newline_in_block_mode_is_an_error() {
    let r = parse("\\\n");
    assert!(matches!(r, Err(TTErrorWithContext::Syntax(TTSyntaxError::EscapedNewlineInBlockMode { .. }))));
}

#[test]
fn sentence_break_in_inline_scope_is_an_error() {
    let r = parse("a {b\nc}");
    assert!(matches!(r, Err(TTErrorWithContext::Syntax(TTSyntaxError::SentenceBreakInInlineScope { .. }))));
}

#[test]
fn content_after_block_scope_on_same_line_is_an_error() {
    let r = parse("{\na\n} b");
    match r {
        Err(TTErrorWithContext::Syntax(TTSyntaxError::InsufficientBlockSeparation { last_block, next_block_start })) => {
            assert!(matches!(last_block, BlockModeElem::Blocks(_)));
            assert!(matches!(next_block_start, BlockModeElem::AnyToken(_)));
        },
        other => panic!("unexpected {:?}", other),
    }
}

#[test]
fn null_character_is_refused() {
    let r = TurnipTextParser::new("nul".to_string(), "a\0b".to_string(), config());
    match r {
        Err(TTErrorWithContext::NullByteFoundInSource { source_name }) => assert_eq!(source_name, "nul"),
        other => panic!("unexpected {:?}", other.map(|_| ())),
    }
}

#[test]
fn code_is_handed_out_for_evaluation() {
    let mut p = parser("before [x + 1] after");
    match p.run().unwrap() {
        ParseStep::Evaluate(code, ctx) => {
            assert_eq!(code, "x + 1");
            assert_eq!(ctx.first_tok.start.byte_ofs, 7);
            assert_eq!(ctx.last_tok.end.byte_ofs, 14);
        },
        other => panic!("unexpected {:?}", other),
    }
    assert!(p.is_awaiting_evaluation());
    assert!(!p.is_awaiting_build());
    let step = p.resume_evaluation(object(3, EvalValue::Inline)).unwrap();
    assert!(matches!(step, ParseStep::Finished));
    let doc = p.finalize();
    let para = sentences(&doc.contents()[0]);
    assert_eq!(para[0].len(), 3);
    assert_eq!(text(&para[0][0]), "before ");
    assert!(matches!(para[0][1], Inline::FromCode(3)));
    assert_eq!(text(&para[0][2]), " after");
}

#[test]
fn none_from_code_emits_nothing() {
    let mut p = parser("[x = 5]\n");
    assert!(matches!(p.run().unwrap(), ParseStep::Evaluate(..)));
    let step = p.resume_evaluation(object(0, EvalValue::PyNone)).unwrap();
    assert!(matches!(step, ParseStep::Finished));
    assert_eq!(p.finalize().contents().len(), 0);
}

#[test]
fn headers_from_code_open_segments() {
    let mut p = parser("intro\n\n[h]\n\nbody\n");
    assert!(matches!(p.run().unwrap(), ParseStep::Evaluate(..)));
    let step = p.resume_evaluation(object(1, EvalValue::Header(Header { weight: 1, id: 7 }))).unwrap();
    assert!(matches!(step, ParseStep::Finished));
    let doc = p.finalize();
    assert_eq!(doc.contents().len(), 1);
    assert_eq!(text(&sentences(&doc.contents()[0])[0][0]), "intro");
    assert_eq!(doc.segments().len(), 1);
    let seg = &doc.segments()[0];
    assert_eq!(*seg.header(), Header { weight: 1, id: 7 });
    assert_eq!(seg.contents().len(), 1);
    assert_eq!(text(&sentences(&seg.contents()[0])[0][0]), "body");
}

#[test]
fn heavier_header_becomes_a_subsegment() {
    let mut p = parser("[a]\n[b]\n[c]\n");
    assert!(matches!(p.run().unwrap(), ParseStep::Evaluate(..)));
    let step = p.resume_evaluation(object(0, EvalValue::Header(Header { weight: 1, id: 0 }))).unwrap();
    assert!(matches!(step, ParseStep::Evaluate(..)));
    let step = p.resume_evaluation(object(1, EvalValue::Header(Header { weight: 2, id: 1 }))).unwrap();
    assert!(matches!(step, ParseStep::Evaluate(..)));
    let step = p.resume_evaluation(object(2, EvalValue::Header(Header { weight: 1, id: 2 }))).unwrap();
    assert!(matches!(step, ParseStep::Finished));
    let doc = p.finalize();
    assert_eq!(doc.segments().len(), 2);
    assert_eq!(doc.segments()[0].header().id, 0);
    assert_eq!(doc.segments()[0].subsegments().len(), 1);
    assert_eq!(doc.segments()[0].subsegments()[0].header().id, 1);
    assert_eq!(doc.segments()[1].header().id, 2);
}

#[test]
fn block_from_code_must_end_its_line() {
    let mut p = parser("[b] text");
    assert!(matches!(p.run().unwrap(), ParseStep::Evaluate(..)));
    let r = p.resume_evaluation(object(4, EvalValue::Block(Block::FromCode(4))));
    match r {
        Err(TTErrorWithContext::Syntax(TTSyntaxError::InsufficientBlockSeparation { last_block, .. })) => {
            assert!(matches!(last_block, BlockModeElem::BlockFromCode(_)));
        },
        other => panic!("unexpected {:?}", other),
    }
}

#[test]
fn object_that_fits_nowhere_is_an_error() {
    let mut p = parser("[x]");
    assert!(matches!(p.run().unwrap(), ParseStep::Evaluate(..)));
    let r = p.resume_evaluation(object(9, EvalValue::Other));
    match r {
        Err(TTErrorWithContext::UserPython(TTUserPythonError::CoercingEvalBracketToElement { obj, .. })) => {
            assert_eq!(obj, 9)
        },
        other => panic!("unexpected {:?}", other),
    }
}

#[test]
fn object_that_builds_nothing_cannot_own_a_scope() {
    let mut p = parser("[x]{\nbody\n}\n");
    assert!(matches!(p.run().unwrap(), ParseStep::Evaluate(..)));
    let r = p.resume_evaluation(object(2, EvalValue::Other));
    match r {
        Err(TTErrorWithContext::UserPython(TTUserPythonError::CoercingEvalBracketToBuilder { obj, build_mode, .. })) => {
            assert_eq!(obj, 2);
            assert_eq!(build_mode, UserPythonBuildMode::FromBlock);
        },
        other => panic!("unexpected {:?}", other),
    }
}

#[test]
fn block_builder_builds_from_its_scope() {
    let mut p = parser("[b]{\nbody\n}\n");
    assert!(matches!(p.run().unwrap(), ParseStep::Evaluate(..)));
    let obj = EvalResult::Object(EvaluatedObject {
        handle: 5,
        value: EvalValue::Other,
        block_builder: true,
        inline_builder: false,
        raw_builder: false,
    });
    match p.resume_evaluation(obj).unwrap() {
        ParseStep::Build(handle, BuildArgument::Blocks(blocks)) => {
            assert_eq!(handle, 5);
            assert_eq!(blocks.len(), 1);
            assert_eq!(text(&sentences(&blocks[0])[0][0]), "body");
        },
        other => panic!("unexpected {:?}", other),
    }
    assert!(p.is_awaiting_build());
    let step = p.resume_build(BuilderOutcome::Block(6, Block::FromCode(6))).unwrap();
    assert!(matches!(step, ParseStep::Finished));
    let doc = p.finalize();
    assert_eq!(doc.contents().len(), 1);
    assert!(matches!(doc.contents()[0], Block::FromCode(6)));
}

#[test]
fn raw_builder_builds_from_raw_text() {
    let mut p = parser("[r]#{a {b}}#");
    assert!(matches!(p.run().unwrap(), ParseStep::Evaluate(..)));
    let obj = EvalResult::Object(EvaluatedObject {
        handle: 8,
        value: EvalValue::Other,
        block_builder: false,
        inline_builder: false,
        raw_builder: true,
    });
    match p.resume_evaluation(obj).unwrap() {
        ParseStep::Build(handle, BuildArgument::Raw(raw)) => {
            assert_eq!(handle, 8);
            assert_eq!(raw, "a {b}");
        },
        other => panic!("unexpected {:?}", other),
    }
    let step = p.resume_build(BuilderOutcome::Inline(10)).unwrap();
    assert!(matches!(step, ParseStep::Finished));
    let doc = p.finalize();
    assert!(matches!(sentences(&doc.contents()[0])[0][0], Inline::FromCode(10)));
}

#[test]
fn source_from_code_is_read_in_place() {
    let mut p = parser("[src]\n\nouter");
    assert!(matches!(p.run().unwrap(), ParseStep::Evaluate(..)));
    let src = EvalResult::Source(TurnipTextSource { name: "inner".to_string(), contents: "inner text".to_string() });
    let step = p.resume_evaluation(src).unwrap();
    assert!(matches!(step, ParseStep::Finished));
    assert_eq!(p.files.len(), 2);
    assert_eq!(p.files[1].name(), "inner");
    assert_eq!(p.files[1].contents(), "inner text");
    assert_eq!(p.recursion_warnings.len(), 0);
    let doc = p.finalize();
    assert_eq!(doc.contents().len(), 2);
    assert_eq!(text(&sentences(&doc.contents()[0])[0][0]), "inner text");
    assert_eq!(text(&sentences(&doc.contents()[1])[0][0]), "outer");
}

#[test]
fn source_with_the_name_of_an_open_file_is_warned_about() {
    let mut p = parser("[src]\n");
    assert!(matches!(p.run().unwrap(), ParseStep::Evaluate(..)));
    let src = EvalResult::Source(TurnipTextSource { name: "<test>".to_string(), contents: "x".to_string() });
    p.resume_evaluation(src).unwrap();
    assert_eq!(p.recursion_warnings, vec!["<test>".to_string()]);
}

#[test]
fn too_many_open_files_is_an_error() {
    let limited = RecursionConfig { recursion_warning: false, max_file_depth: Some(1) };
    let mut p = TurnipTextParser::new("outer".to_string(), "[src]\n".to_string(), limited).unwrap();
    assert!(matches!(p.run().unwrap(), ParseStep::Evaluate(..)));
    let src = EvalResult::Source(TurnipTextSource { name: "inner".to_string(), contents: "x".to_string() });
    let r = p.resume_evaluation(src);
    assert!(matches!(r, Err(TTErrorWithContext::FileStackExceededLimit { limit: 1 })));
}

#[test]
fn source_inside_a_paragraph_is_an_error() {
    let mut p = parser("text [src]");
    assert!(matches!(p.run().unwrap(), ParseStep::Evaluate(..)));
    let src = EvalResult::Source(TurnipTextSource { name: "inner".to_string(), contents: "x".to_string() });
    let r = p.resume_evaluation(src);
    assert!(matches!(r, Err(TTErrorWithContext::Syntax(TTSyntaxError::CodeEmittedSourceInInlineMode { .. }))));
}

#[test]
fn scope_close_in_source_cannot_close_an_outer_scope() {
    let mut p = parser("{\n[src]\n}\n");
    assert!(matches!(p.run().unwrap(), ParseStep::Evaluate(..)));
    let src = EvalResult::Source(TurnipTextSource { name: "inner".to_string(), contents: "}".to_string() });
    let r = p.resume_evaluation(src);
    assert!(matches!(r, Err(TTErrorWithContext::Syntax(TTSyntaxError::BlockScopeCloseOutsideScope(_)))));
}

#[test]
fn files_stay_with_the_parser_after_too_many_open_files() {
    let limited = RecursionConfig { recursion_warning: false, max_file_depth: Some(1) };
    let mut p = TurnipTextParser::new("outer".to_string(), "[src]\n".to_string(), limited).unwrap();
    assert!(matches!(p.run().unwrap(), ParseStep::Evaluate(..)));
    let src = EvalResult::Source(TurnipTextSource { name: "inner".to_string(), contents: "x".to_string() });
    let r = p.resume_evaluation(src);
    assert!(matches!(r, Err(TTErrorWithContext::FileStackExceededLimit { limit: 1 })));
    let names: Vec<&str> = p.files.iter().map(|f| f.name()).collect();
    assert_eq!(names, vec!["outer", "inner"]);
    assert_eq!(p.file_stack.len(), 2);
}

#[test]
fn scope_close_leaving_its_file_leaves_the_file_without_processors() {
    let mut p = parser("{\n[src]\n}\n");
    assert!(matches!(p.run().unwrap(), ParseStep::Evaluate(..)));
    let src = EvalResult::Source(TurnipTextSource { name: "inner".to_string(), contents: "}".to_string() });
    let r = p.resume_evaluation(src);
    assert!(matches!(r, Err(TTErrorWithContext::Syntax(TTSyntaxError::BlockScopeCloseOutsideScope(_)))));
    let own_start = *p.processors.file_starts.last().unwrap();
    assert_eq!(p.processors.procs.len(), own_start);
}

#[test]
fn refused_source_leaves_the_processor_below_the_code() {
    let mut p = parser("text [src]");
    assert!(matches!(p.run().unwrap(), ParseStep::Evaluate(..)));
    assert_eq!(p.processors.procs.len(), 2);
    let src = EvalResult::Source(TurnipTextSource { name: "inner".to_string(), contents: "x".to_string() });
    let r = p.resume_evaluation(src);
    assert!(matches!(r, Err(TTErrorWithContext::Syntax(TTSyntaxError::CodeEmittedSourceInInlineMode { .. }))));
    assert_eq!(p.processors.procs.len(), 1);
    assert_eq!(p.files.len(), 1);
}
