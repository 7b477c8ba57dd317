//! The elements that the interpreter builds a document from.
//!
//! Text, raw text, scopes and paragraphs are built by the interpreter itself. What code evaluates to
//! is a Python object, which the interpreter only carries: it is known by a handle (`u64`).
use vstd::prelude::*;

use crate::doc_segment::Header;
use crate::span::ParseContext;

verus! {

/// An inline element: a piece of a sentence.
#[derive(Debug)]
pub enum Inline {
    /// Text, with whitespace runs kept and escapes resolved
    Text(String),
    /// The contents of a raw scope
    Raw(String),
    /// The contents of an inline scope
    InlineScope(Vec<Inline>),
    /// An inline object that code evaluated to
    FromCode(u64),
}

/// A block element.
#[derive(Debug)]
pub enum Block {
    /// A paragraph: its sentences, each a sequence of inline elements
    Paragraph(Vec<Vec<Inline>>),
    /// The contents of a block scope
    Blocks(Vec<Block>),
    /// A header that code evaluated to, kept among the blocks of a scope
    Header(Header),
    /// A block object that code evaluated to
    FromCode(u64),
}

/// The value of an [Inline].
pub enum InlineView {
    Text(Seq<char>),
    Raw(Seq<char>),
    InlineScope(Seq<InlineView>),
    FromCode(u64),
}

/// The value of a [Block].
pub enum BlockView {
    Paragraph(Seq<Seq<InlineView>>),
    Blocks(Seq<BlockView>),
    Header(Header),
    FromCode(u64),
}

impl Inline {
    /// The value of the element.
    pub open spec fn view(self) -> InlineView
        decreases self,
    {
        match self {
            Inline::Text(s) => InlineView::Text(s@),
            Inline::Raw(s) => InlineView::Raw(s@),
            Inline::InlineScope(v) => InlineView::InlineScope(inlines_view(v@)),
            Inline::FromCode(h) => InlineView::FromCode(h),
        }
    }
}

/// The values of a sequence of inline elements.
pub open spec fn inlines_view(s: Seq<Inline>) -> Seq<InlineView>
    decreases s,
{
    if s.len() == 0 {
        Seq::empty()
    } else {
        inlines_view(s.drop_last()).push(s.last().view())
    }
}

/// The values of a sequence of sentences.
pub open spec fn sentences_view(s: Seq<Vec<Inline>>) -> Seq<Seq<InlineView>>
    decreases s.len(),
{
    if s.len() == 0 {
        Seq::empty()
    } else {
        sentences_view(s.drop_last()).push(inlines_view(s.last()@))
    }
}

impl Block {
    /// The value of the element.
    pub open spec fn view(self) -> BlockView
        decreases self,
    {
        match self {
            Block::Paragraph(v) => BlockView::Paragraph(sentences_view(v@)),
            Block::Blocks(v) => BlockView::Blocks(blocks_view(v@)),
            Block::Header(h) => BlockView::Header(h),
            Block::FromCode(h) => BlockView::FromCode(h),
        }
    }
}

/// The values of a sequence of block elements.
pub open spec fn blocks_view(s: Seq<Block>) -> Seq<BlockView>
    decreases s,
{
    if s.len() == 0 {
        Seq::empty()
    } else {
        blocks_view(s.drop_last()).push(s.last().view())
    }
}

/// Pushing an element pushes its value.
pub proof fn lemma_inlines_view_push(s: Seq<Inline>, x: Inline)
    ensures
        inlines_view(s.push(x)) == inlines_view(s).push(x.view()),
{
    assert(s.push(x).drop_last() =~= s);
}

/// Pushing a sentence pushes its value.
pub proof fn lemma_sentences_view_push(s: Seq<Vec<Inline>>, x: Vec<Inline>)
    ensures
        sentences_view(s.push(x)) == sentences_view(s).push(inlines_view(x@)),
{
    assert(s.push(x).drop_last() =~= s);
}

/// Pushing a block pushes its value.
pub proof fn lemma_blocks_view_push(s: Seq<Block>, x: Block)
    ensures
        blocks_view(s.push(x)) == blocks_view(s).push(x.view()),
{
    assert(s.push(x).drop_last() =~= s);
}

/// A block-level element that a processor emits to the one below it.
#[derive(Debug)]
pub enum BlockElem {
    /// A block that code evaluated to or built: the object's handle, and what it stands for
    FromCode(u64, Block),
    /// A block scope, just closed
    Blocks(Vec<Block>),
    /// A paragraph, just ended
    Para(Vec<Vec<Inline>>),
}

/// An inline element that a processor emits to the one below it.
#[derive(Debug)]
pub enum InlineElem {
    /// An inline object that code evaluated to or built
    FromCode(u64),
    /// An inline scope, just closed
    InlineScope(Vec<Inline>),
    /// A raw scope, just closed
    Raw(String),
}

/// Anything that a processor emits to the one below it.
#[derive(Debug)]
pub enum DocElement {
    Block(BlockElem),
    Inline(InlineElem),
    /// A header that code evaluated to or built
    HeaderFromCode(Header),
}

/// The value of a [BlockElem].
pub enum BlockElemView {
    FromCode(u64, BlockView),
    Blocks(Seq<BlockView>),
    Para(Seq<Seq<InlineView>>),
}

/// The value of an [InlineElem].
pub enum InlineElemView {
    FromCode(u64),
    InlineScope(Seq<InlineView>),
    Raw(Seq<char>),
}

/// The value of a [DocElement].
pub enum DocElementView {
    Block(BlockElemView),
    Inline(InlineElemView),
    HeaderFromCode(Header),
}

impl DocElement {
    /// The value of the element.
    pub open spec fn view(self) -> DocElementView {
        match self {
            DocElement::Block(BlockElem::FromCode(h, b)) => DocElementView::Block(BlockElemView::FromCode(h, b.view())),
            DocElement::Block(BlockElem::Blocks(v)) => DocElementView::Block(BlockElemView::Blocks(blocks_view(v@))),
            DocElement::Block(BlockElem::Para(v)) => DocElementView::Block(BlockElemView::Para(sentences_view(v@))),
            DocElement::Inline(InlineElem::FromCode(h)) => DocElementView::Inline(InlineElemView::FromCode(h)),
            DocElement::Inline(InlineElem::InlineScope(v)) => DocElementView::Inline(InlineElemView::InlineScope(inlines_view(v@))),
            DocElement::Inline(InlineElem::Raw(s)) => DocElementView::Inline(InlineElemView::Raw(s@)),
            DocElement::HeaderFromCode(h) => DocElementView::HeaderFromCode(h),
        }
    }
}

/// An element emitted together with the context of the tokens it came from.
pub type EmittedElement = (ParseContext, DocElement);

/// The value of an emitted element, if there is one.
pub open spec fn emitted_view(e: Option<EmittedElement>) -> Option<(ParseContext, DocElementView)> {
    match e {
        Some((ctx, el)) => Some((ctx, el.view())),
        None => None,
    }
}

} // verus!
