//! What plain text reads as.
use vstd::prelude::*;

use crate::interpreter::doc::{BlockView, InlineView};
use crate::interpreter::driver::{
    ErrorView, ParserView, RecursionConfig, StepView, lemma_run_stops, lemma_run_unfold, parser_start, run_fuel, run_spec,
    step_spec,
};
use crate::interpreter::document::{DocView, replay};
use crate::interpreter::state_machines::block::{BlockLevelView, BlockModeView, mode_items};
use crate::interpreter::state_machines::proc_step;
use crate::lexer::{
    TokenKind, bytes_text, is_prefix_char, lemma_lexed_exists, lexed, lemma_lexed_plain, lemma_tokens_from_end, lemma_tokens_from_line_feed,
    lemma_tokens_from_plain, lex_spec,
};
use crate::span::positions_fit;

verus! {

/// A document that is one run of plain characters (none of which is whitespace or starts a token of
/// its own) reads, with no code to evaluate, as one paragraph of one sentence holding that text as
/// it was written, and the document holds that paragraph alone.
pub proof fn lemma_plain_word_document(name: Seq<char>, s: Seq<char>, config: RecursionConfig)
    requires
        s.len() > 0,
        positions_fit(s),
        forall|i: int| 0 <= i < s.len() ==> !is_prefix_char(#[trigger] s[i]),
    ensures
        ({
            let d0 = parser_start(name, s, config);
            let (d, r) = run_spec(d0, run_fuel(d0));
            &&& r == Ok::<StepView, ErrorView>(StepView::Finished)
            &&& d.file_stack.len() == 0
            &&& d.stacks.top.mode == BlockModeView::TopLevel(seq![BlockView::Paragraph(seq![seq![InlineView::Text(s)]])])
            &&& replay(mode_items(d.stacks.top.mode)) == (DocView {
                contents: seq![BlockView::Paragraph(seq![seq![InlineView::Text(s)]])],
                segments: Seq::empty(),
            })
        }),
{
    reveal(proc_step);
    crate::span::lemma_positions_fit(s, s.len() as int);
    lemma_lexed_plain(0, s);
    let d0 = parser_start(name, s, config);
    let f0 = run_fuel(d0);
    assert(d0.file_stack.drop_last() =~= Seq::<(Option<crate::span::ParseSpan>, usize)>::empty());
    reveal_with_fuel(crate::interpreter::driver::remaining_of, 2);
    assert(f0 == 4);
    lemma_run_unfold(d0, f0);
    let d1 = step_spec(d0).0;
    assert(step_spec(d0).1 is None);
    assert(d1.stacks.procs.len() == 1);
    assert(s.subrange(0, s.len() as int) =~= s);
    reveal_with_fuel(crate::interpreter::state_machines::stack_machine::flush_spec, 2);
    lemma_run_unfold(d1, 3);
    let d2 = step_spec(d1).0;
    assert(step_spec(d1).1 is None);
    assert(d2.file_stack.len() == 0);
    lemma_run_stops(d2, 2);
    let items = seq![BlockView::Paragraph(seq![seq![InlineView::Text(s)]])];
    assert(d2.stacks.top.mode == BlockModeView::TopLevel(items));
    assert(items.drop_last() =~= Seq::<BlockView>::empty());
    reveal_with_fuel(crate::interpreter::document::replay_state, 2);
    assert(replay(items) =~= (DocView { contents: items, segments: Seq::empty() }));
}



/// Plain characters: at least one, none of them whitespace or the start of a token of its own.
pub open spec fn plain(w: Seq<char>) -> bool {
    w.len() > 0 && forall|i: int| 0 <= i < w.len() ==> !is_prefix_char(#[trigger] w[i])
}

/// The tokens of two runs of plain characters with a line feed between them.
proof fn lemma_lex_two_lines(w1: Seq<char>, w2: Seq<char>)
    requires
        plain(w1),
        plain(w2),
    ensures
        ({
            let s = w1 + seq!['\n'] + w2;
            lex_spec(s) == seq![
                (TokenKind::OtherText, 0int, w1.len() as int),
                (TokenKind::Newline, w1.len() as int, w1.len() + 1int),
                (TokenKind::OtherText, w1.len() + 1int, s.len() as int),
            ]
        }),
{
    let s = w1 + seq!['\n'] + w2;
    let n1 = w1.len() as int;
    assert(s[n1] == '\n');
    assert(is_prefix_char('\n'));
    assert forall|i: int| 0 <= i < n1 implies !is_prefix_char(#[trigger] s[i]) by {
        assert(s[i] == w1[i]);
    }
    assert forall|i: int| n1 + 1 <= i < s.len() implies !is_prefix_char(#[trigger] s[i]) by {
        assert(s[i] == w2[i - n1 - 1]);
    }
    lemma_tokens_from_plain(s, 0, n1);
    lemma_tokens_from_line_feed(s, n1);
    lemma_tokens_from_plain(s, n1 + 1, s.len() as int);
    lemma_tokens_from_end(s);
    assert(lex_spec(s) =~= seq![
        (TokenKind::OtherText, 0int, n1),
        (TokenKind::Newline, n1, n1 + 1),
        (TokenKind::OtherText, n1 + 1, s.len() as int),
    ]);
}

/// Two lines of plain text read as one paragraph of two sentences, one for each line: a newline
/// ends a sentence.
#[verifier::spinoff_prover]
#[verifier::rlimit(60)]
pub proof fn lemma_two_lines_one_paragraph(name: Seq<char>, w1: Seq<char>, w2: Seq<char>, config: RecursionConfig)
    requires
        plain(w1),
        plain(w2),
        positions_fit(w1 + seq!['\n'] + w2),
    ensures
        ({
            let d0 = parser_start(name, w1 + seq!['\n'] + w2, config);
            let (d, r) = run_spec(d0, run_fuel(d0));
            &&& r == Ok::<StepView, ErrorView>(StepView::Finished)
            &&& d.stacks.top.mode == BlockModeView::TopLevel(
                seq![BlockView::Paragraph(seq![seq![InlineView::Text(w1)], seq![InlineView::Text(w2)]])],
            )
        }),
{
    let s = w1 + seq!['\n'] + w2;
    let n1 = w1.len() as int;
    lemma_lex_two_lines(w1, w2);
    lemma_lexed_exists(0, s);
    assert(s.subrange(0, n1) =~= w1);
    assert(s.subrange(n1 + 1, s.len() as int) =~= w2);
    assert(bytes_text(s, lexed(0, s)[0].span()) == w1);
    assert(bytes_text(s, lexed(0, s)[2].span()) == w2);
    reveal(proc_step);
    let d0 = parser_start(name, s, config);
    assert(d0.file_stack.drop_last() =~= Seq::<(Option<crate::span::ParseSpan>, usize)>::empty());
    reveal_with_fuel(crate::interpreter::driver::remaining_of, 2);
    assert(run_fuel(d0) == 6);
    lemma_run_unfold(d0, 6);
    let d1 = step_spec(d0).0;
    assert(step_spec(d0).1 is None);
    lemma_run_unfold(d1, 5);
    let d2 = step_spec(d1).0;
    assert(step_spec(d1).1 is None);
    lemma_run_unfold(d2, 4);
    let d3 = step_spec(d2).0;
    assert(step_spec(d2).1 is None);
    reveal_with_fuel(crate::interpreter::state_machines::stack_machine::flush_spec, 2);
    lemma_run_unfold(d3, 3);
    let d4 = step_spec(d3).0;
    assert(step_spec(d3).1 is None);
    assert(d4.file_stack.len() == 0);
    lemma_run_stops(d4, 2);
    let line1 = seq![InlineView::Text(w1)];
    let line2 = seq![InlineView::Text(w2)];
    assert(Seq::<InlineView>::empty().push(InlineView::Text(w1)) =~= line1);
    assert(Seq::<InlineView>::empty().push(InlineView::Text(w2)) =~= line2);
    assert(Seq::<Seq<InlineView>>::empty().push(line1).push(line2) =~= seq![line1, line2]);
    let items = seq![BlockView::Paragraph(seq![line1, line2])];
    assert(Seq::<BlockView>::empty() + items =~= items);
}


/// The tokens of two runs of plain characters with a blank line between them.
proof fn lemma_lex_two_paragraphs(w1: Seq<char>, w2: Seq<char>)
    requires
        plain(w1),
        plain(w2),
    ensures
        ({
            let s = w1 + seq!['\n', '\n'] + w2;
            lex_spec(s) == seq![
                (TokenKind::OtherText, 0int, w1.len() as int),
                (TokenKind::Newline, w1.len() as int, w1.len() + 1int),
                (TokenKind::Newline, w1.len() + 1int, w1.len() + 2int),
                (TokenKind::OtherText, w1.len() + 2int, s.len() as int),
            ]
        }),
{
    let s = w1 + seq!['\n', '\n'] + w2;
    let n1 = w1.len() as int;
    assert(s[n1] == '\n' && s[n1 + 1] == '\n');
    assert(is_prefix_char('\n'));
    assert forall|i: int| 0 <= i < n1 implies !is_prefix_char(#[trigger] s[i]) by {
        assert(s[i] == w1[i]);
    }
    assert forall|i: int| n1 + 2 <= i < s.len() implies !is_prefix_char(#[trigger] s[i]) by {
        assert(s[i] == w2[i - n1 - 2]);
    }
    lemma_tokens_from_plain(s, 0, n1);
    lemma_tokens_from_line_feed(s, n1);
    lemma_tokens_from_line_feed(s, n1 + 1);
    lemma_tokens_from_plain(s, n1 + 2, s.len() as int);
    lemma_tokens_from_end(s);
    assert(lex_spec(s) =~= seq![
        (TokenKind::OtherText, 0int, n1),
        (TokenKind::Newline, n1, n1 + 1),
        (TokenKind::Newline, n1 + 1, n1 + 2),
        (TokenKind::OtherText, n1 + 2, s.len() as int),
    ]);
}

/// After the first run and the blank line: the first paragraph is in the document, and the second
/// run is next.
pub open spec fn after_first_paragraph(d: ParserView, s: Seq<char>, w1: Seq<char>) -> bool {
    &&& d.file_stack == seq![(None::<crate::span::ParseSpan>, 0usize)]
    &&& d.files.len() == 1
    &&& d.files[0].tokens == lexed(0, s)
    &&& d.files[0].contents == s
    &&& d.files[0].pos == 3
    &&& d.stacks.procs.len() == 0
    &&& d.stacks.file_starts == seq![0usize]
    &&& d.stacks.pending is Nothing
    &&& d.stacks.top == (BlockLevelView {
        mode: BlockModeView::TopLevel(seq![BlockView::Paragraph(seq![seq![InlineView::Text(w1)]])]),
        expects: None,
    })
}

#[verifier::spinoff_prover]
#[verifier::rlimit(60)]
proof fn lemma_blank_line_first_part(name: Seq<char>, w1: Seq<char>, w2: Seq<char>, config: RecursionConfig)
    requires
        plain(w1),
        plain(w2),
        positions_fit(w1 + seq!['\n', '\n'] + w2),
    ensures
        ({
            let s = w1 + seq!['\n', '\n'] + w2;
            let d0 = parser_start(name, s, config);
            let d1 = step_spec(d0).0;
            let d2 = step_spec(d1).0;
            &&& step_spec(d0).1 is None
            &&& step_spec(d1).1 is None
            &&& step_spec(d2).1 is None
            &&& after_first_paragraph(step_spec(d2).0, s, w1)
        }),
{
    let s = w1 + seq!['\n', '\n'] + w2;
    let n1 = w1.len() as int;
    lemma_lex_two_paragraphs(w1, w2);
    lemma_lexed_exists(0, s);
    assert(s.subrange(0, n1) =~= w1);
    reveal(proc_step);
    reveal_with_fuel(crate::interpreter::state_machines::stack_machine::bubble_spec, 2);
    let d0 = parser_start(name, s, config);
    let d1 = step_spec(d0).0;
    let d2 = step_spec(d1).0;
    assert(step_spec(d0).1 is None);
    assert(step_spec(d1).1 is None);
    assert(step_spec(d2).1 is None);
    let d3 = step_spec(d2).0;
    let line1 = seq![InlineView::Text(w1)];
    assert(Seq::<InlineView>::empty().push(InlineView::Text(w1)) =~= line1);
    assert(Seq::<Seq<InlineView>>::empty().push(line1) =~= seq![line1]);
    let p1 = seq![BlockView::Paragraph(seq![line1])];
    assert(Seq::<BlockView>::empty() + p1 =~= p1);
    assert(after_first_paragraph(d3, s, w1));
}

#[verifier::spinoff_prover]
#[verifier::rlimit(60)]
proof fn lemma_blank_line_second_part(d: ParserView, s: Seq<char>, w1: Seq<char>, w2: Seq<char>)
    requires
        plain(w1),
        plain(w2),
        s == w1 + seq!['\n', '\n'] + w2,
        positions_fit(s),
        after_first_paragraph(d, s, w1),
    ensures
        ({
            let d1 = step_spec(d).0;
            &&& step_spec(d).1 is None
            &&& step_spec(d1).1 is None
            &&& step_spec(d1).0.file_stack.len() == 0
            &&& step_spec(d1).0.stacks.top.mode == BlockModeView::TopLevel(
                seq![
                    BlockView::Paragraph(seq![seq![InlineView::Text(w1)]]),
                    BlockView::Paragraph(seq![seq![InlineView::Text(w2)]]),
                ],
            )
        }),
{
    let n1 = w1.len() as int;
    lemma_lex_two_paragraphs(w1, w2);
    lemma_lexed_exists(0, s);
    assert(s.subrange(n1 + 2, s.len() as int) =~= w2);
    reveal(proc_step);
    reveal_with_fuel(crate::interpreter::state_machines::stack_machine::flush_spec, 2);
    assert(step_spec(d).1 is None);
    let d1 = step_spec(d).0;
    assert(step_spec(d1).1 is None);
    let line1 = seq![InlineView::Text(w1)];
    let line2 = seq![InlineView::Text(w2)];
    assert(Seq::<InlineView>::empty().push(InlineView::Text(w2)) =~= line2);
    assert(Seq::<Seq<InlineView>>::empty().push(line2) =~= seq![line2]);
    let p1 = seq![BlockView::Paragraph(seq![line1])];
    let items = seq![BlockView::Paragraph(seq![line1]), BlockView::Paragraph(seq![line2])];
    assert(p1 + seq![BlockView::Paragraph(seq![line2])] =~= items);
}

/// Two runs of plain text with a blank line between them read as two paragraphs: a blank line ends
/// a paragraph.
#[verifier::spinoff_prover]
#[verifier::rlimit(60)]
pub proof fn lemma_blank_line_two_paragraphs(name: Seq<char>, w1: Seq<char>, w2: Seq<char>, config: RecursionConfig)
    requires
        plain(w1),
        plain(w2),
        positions_fit(w1 + seq!['\n', '\n'] + w2),
    ensures
        ({
            let d0 = parser_start(name, w1 + seq!['\n', '\n'] + w2, config);
            let (d, r) = run_spec(d0, run_fuel(d0));
            &&& r == Ok::<StepView, ErrorView>(StepView::Finished)
            &&& d.stacks.top.mode == BlockModeView::TopLevel(
                seq![
                    BlockView::Paragraph(seq![seq![InlineView::Text(w1)]]),
                    BlockView::Paragraph(seq![seq![InlineView::Text(w2)]]),
                ],
            )
        }),
{
    let s = w1 + seq!['\n', '\n'] + w2;
    lemma_lex_two_paragraphs(w1, w2);
    lemma_lexed_exists(0, s);
    let d0 = parser_start(name, s, config);
    assert(d0.file_stack.drop_last() =~= Seq::<(Option<crate::span::ParseSpan>, usize)>::empty());
    reveal_with_fuel(crate::interpreter::driver::remaining_of, 2);
    assert(run_fuel(d0) == 7);
    lemma_blank_line_first_part(name, w1, w2, config);
    let d1 = step_spec(d0).0;
    let d2 = step_spec(d1).0;
    let d3 = step_spec(d2).0;
    lemma_blank_line_second_part(d3, s, w1, w2);
    let d4 = step_spec(d3).0;
    let d5 = step_spec(d4).0;
    lemma_run_unfold(d0, 7);
    lemma_run_unfold(d1, 6);
    lemma_run_unfold(d2, 5);
    lemma_run_unfold(d3, 4);
    lemma_run_unfold(d4, 3);
    lemma_run_stops(d5, 2);
}

} // verus!
