use turnip_text::interpreter::diagnostic::{
    detailed_syntax_message, detailed_user_python_message, file_stack_message, LabelStyle, ObjectInfo,
};
use turnip_text::interpreter::driver::ParsingFile;
use turnip_text::interpreter::syntax::{
    BlockModeElem, InlineModeContext, TTSyntaxError, TTUserPythonError, UserPythonBuildMode,
};
use turnip_text::span::{ParseContext, ParsePosn, ParseSpan};

fn sp(file_idx: usize, start: usize, end: usize) -> ParseSpan {
    let p = |o: usize| ParsePosn { byte_ofs: o, char_ofs: o, line: 1, column: o + 1 };
    ParseSpan { file_idx, start: p(start), end: p(end) }
}

fn plain_object(s: &str) -> ObjectInfo {
    ObjectInfo {
        stringified: s.to_string(),
        name: None,
        docstring: None,
        callable: false,
        fits_header: false,
        fits_block: false,
        fits_inline: false,
        coercible_to_inline: false,
        is_source: false,
        fits_block_builder: false,
        fits_inline_builder: false,
        fits_raw_builder: false,
    }
}

fn files(names: &[&str]) -> Vec<ParsingFile> {
    names
        .iter()
        .enumerate()
        .map(|(i, n)| ParsingFile::new(i, n.to_string(), String::new()).unwrap())
        .collect()
}

#[test]
fn code_close_message() {
    let d = detailed_syntax_message(&TTSyntaxError::CodeCloseOutsideCode(sp(2, 4, 6)), "");
    assert_eq!(d.message, "Code close token in text mode");
    assert_eq!(d.labels.len(), 1);
    let l = &d.labels[0];
    assert_eq!((l.style, l.file_id, l.start, l.end), (LabelStyle::Primary, 2, 4, 6));
    assert_eq!(l.message, "Code-close here");
    assert_eq!(d.notes, vec!["If you want to use ']' in text, try escaping it with a backslash '\\]'".to_string()]);
}

#[test]
fn ended_inside_code_message_points_at_start_and_end() {
    let d = detailed_syntax_message(&TTSyntaxError::EndedInsideCode { code_start: sp(0, 1, 2), eof_span: sp(0, 9, 9) }, "");
    assert_eq!(d.message, "File ended while parsing code");
    assert_eq!(d.labels.len(), 2);
    assert_eq!((d.labels[0].style, d.labels[0].start), (LabelStyle::Primary, 1));
    assert_eq!((d.labels[1].style, d.labels[1].start), (LabelStyle::Secondary, 9));
    assert_eq!(d.notes.len(), 2);
}

#[test]
fn block_in_paragraph_message_names_the_object() {
    let ctx = ParseContext { first_tok: sp(0, 0, 1), last_tok: sp(0, 2, 3) };
    let err = TTSyntaxError::CodeEmittedBlockInInlineMode { inl_mode: InlineModeContext::Paragraph(ctx), block: 5, code_span: sp(0, 4, 7) };
    let d = detailed_syntax_message(&err, "<figure>");
    assert_eq!(d.message, "A `Block` was emitted by code in inline mode.");
    let labels: Vec<(LabelStyle, usize, &str)> = d.labels.iter().map(|l| (l.style, l.start, l.message.as_str())).collect();
    assert_eq!(
        labels,
        vec![
            (LabelStyle::Secondary, 0, "Paragraph started here..."),
            (LabelStyle::Secondary, 2, "...still in inline mode here"),
            (LabelStyle::Primary, 4, "Block emitted by code here"),
        ]
    );
    assert_eq!(
        d.notes,
        vec![
            "Emitted an object '<figure>', which implements `Block`".to_string(),
            "Blocks can't be emitted inside paragraphs.".to_string(),
        ]
    );
}

#[test]
fn block_separation_message_labels_both_blocks() {
    let ctx = ParseContext { first_tok: sp(0, 0, 1), last_tok: sp(0, 8, 9) };
    let err = TTSyntaxError::InsufficientBlockSeparation {
        last_block: BlockModeElem::Blocks(ctx),
        next_block_start: BlockModeElem::AnyToken(sp(0, 10, 11)),
    };
    let d = detailed_syntax_message(&err, "");
    let labels: Vec<(LabelStyle, usize, &str)> = d.labels.iter().map(|l| (l.style, l.start, l.message.as_str())).collect();
    assert_eq!(
        labels,
        vec![
            (LabelStyle::Secondary, 0, "A block scope started here..."),
            (LabelStyle::Secondary, 8, "...and ended here..."),
            (LabelStyle::Primary, 10, "...need a new line before any other content."),
        ]
    );
    assert_eq!(d.notes.len(), 3);
}

#[test]
fn unsupported_object_message() {
    let mut obj = plain_object("42j");
    obj.name = Some("complex".to_string());
    obj.docstring = Some("A number.".to_string());
    obj.callable = true;
    let ctx = ParseContext { first_tok: sp(0, 0, 1), last_tok: sp(0, 4, 5) };
    let err = TTUserPythonError::CoercingEvalBracketToElement { code_ctx: ctx, obj: 1 };
    let d = detailed_user_python_message(&err, &obj);
    assert_eq!(d.message, "Python code produced an unsupported object");
    assert_eq!((d.labels[0].start, d.labels[0].end), (0, 5));
    assert_eq!(
        d.notes,
        vec![
            "To emit an object into the document it must be None, a TurnipTextSource, a Header, a Block, or an Inline."
                .to_string(),
            "Instead, Python emitted 'complex'".to_string(),
            "which is '42j'".to_string(),
            "which had a docstring:\nA number.".to_string(),
            "This object is callable - try calling it?".to_string(),
        ]
    );
}

#[test]
fn wrong_builder_message() {
    let mut obj = plain_object("'text'");
    obj.coercible_to_inline = true;
    let ctx = ParseContext { first_tok: sp(0, 0, 1), last_tok: sp(0, 5, 6) };
    let err = TTUserPythonError::CoercingEvalBracketToBuilder {
        code_ctx: ctx,
        scope_open: sp(0, 6, 8),
        obj: 3,
        build_mode: UserPythonBuildMode::FromRaw,
    };
    let d = detailed_user_python_message(&err, &obj);
    assert_eq!(d.message, "Python code attached to a raw scope didn't produce a RawScopeBuilder");
    let labels: Vec<(LabelStyle, usize, &str)> = d.labels.iter().map(|l| (l.style, l.start, l.message.as_str())).collect();
    assert_eq!(
        labels,
        vec![
            (LabelStyle::Primary, 0, "Object produced here wasn't a RawScopeBuilder"),
            (LabelStyle::Secondary, 6, "Scope attached here"),
        ]
    );
    assert_eq!(
        d.notes,
        vec![
            "If eval-brackets are attached to a raw scope, the produced object must be a a RawScopeBuilder".to_string(),
            "Instead, Python emitted ''text''".to_string(),
            "The builder is coercible to Inline, try removing the argument".to_string(),
        ]
    );
}

#[test]
fn file_stack_message_lists_repeated_names() {
    let fs = files(&["main", "a", "b", "a", "a", "b", "c"]);
    let m = file_stack_message(&fs, 7);
    assert_eq!(
        m,
        "Exceeded the TurnipTextSource stack limit of 7 files.\n\
         Found the following repeated TurnipTextSource names in the stack:\n\
         'a':\t3 times\n\
         'b':\t2 times\n\
         One of these files is likely guilty of recursion."
    );
}

#[test]
fn file_stack_message_without_repeats() {
    let fs = files(&["main", "a"]);
    let m = file_stack_message(&fs, 120);
    assert_eq!(
        m,
        "Exceeded the TurnipTextSource stack limit of 120 files.\n\
         No repeated names were detected.\n\
         It may be OK to increase the `max_file_depth` argument, but it is more likely something has gone wrong."
    );
}

#[test]
fn every_syntax_message_has_one_primary_label_on_the_error_spans() {
    let ctx = ParseContext { first_tok: sp(1, 0, 1), last_tok: sp(1, 2, 3) };
    let cases: Vec<(TTSyntaxError, Vec<ParseSpan>)> = vec![
        (TTSyntaxError::RawScopeCloseOutsideRawScope(sp(0, 3, 5)), vec![sp(0, 3, 5)]),
        (TTSyntaxError::EndedInsideScope { scope_start: sp(0, 1, 2), eof_span: sp(0, 8, 8) }, vec![sp(0, 1, 2), sp(0, 8, 8)]),
        (
            TTSyntaxError::BlockScopeOpenedInInlineMode { inl_mode: InlineModeContext::Paragraph(ctx), block_scope_open: sp(1, 5, 6) },
            vec![sp(1, 0, 1), sp(1, 2, 3), sp(1, 5, 6)],
        ),
        (
            TTSyntaxError::InsufficientBlockSeparation {
                last_block: BlockModeElem::Blocks(ctx),
                next_block_start: BlockModeElem::AnyToken(sp(1, 4, 5)),
            },
            vec![sp(1, 0, 1), sp(1, 2, 3), sp(1, 4, 5)],
        ),
    ];
    for (err, spans) in cases {
        let d = detailed_syntax_message(&err, "");
        assert_eq!(d.labels.iter().filter(|l| l.style == LabelStyle::Primary).count(), 1);
        for l in &d.labels {
            assert!(spans.iter().any(|s| (s.file_idx, s.start.byte_ofs, s.end.byte_ofs) == (l.file_id, l.start, l.end)));
        }
    }
}

#[test]
fn messages_are_errors_without_a_code() {
    let d = detailed_syntax_message(&TTSyntaxError::EscapedNewlineInBlockMode { newline: sp(0, 2, 4) }, "");
    assert_eq!(d.severity, turnip_text::interpreter::diagnostic::Severity::Error);
    assert_eq!(d.code, None);
}
