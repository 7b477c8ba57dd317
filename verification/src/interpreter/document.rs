//! The document that the top level of the interpreter builds: front matter, then segments opened by
//! headers.
//!
//! The top level takes blocks and headers in order. Blocks before the first header are the front
//! matter; each header opens a segment, which holds the blocks up to the next header, and goes into
//! the tree of segments by its weight.
use vstd::prelude::*;

use crate::doc_segment::{
    DocSegmentList, Document, Header, SegView, append_spec, headers_in_order, leaf, lemma_append_keeps_wf,
    lemma_append_order, list_height, list_wf, seg_headers, segs_value, lemma_list_height, seg_wf, all_heavier,
};
use crate::interpreter::doc::{Block, BlockView, blocks_view, lemma_blocks_view_push};

verus! {

/// The value of a document: its front matter and its segments, with the values of their blocks.
pub struct DocView {
    pub contents: Seq<BlockView>,
    pub segments: Seq<SegView<Seq<BlockView>>>,
}

/// A segment with the values of its blocks.
pub open spec fn seg_map(v: SegView<Vec<Block>>) -> SegView<Seq<BlockView>>
    decreases v,
{
    SegView { header: v.header, contents: blocks_view(v.contents@), subs: segs_map(v.subs) }
}

/// Segments with the values of their blocks.
pub open spec fn segs_map(s: Seq<SegView<Vec<Block>>>) -> Seq<SegView<Seq<BlockView>>>
    decreases s,
{
    if s.len() == 0 {
        Seq::empty()
    } else {
        segs_map(s.drop_last()).push(seg_map(s[s.len() - 1]))
    }
}

/// The value of a document of blocks.
pub open spec fn doc_view(d: Document<Vec<Block>>) -> DocView {
    DocView { contents: blocks_view(d.contents@), segments: segs_map(d.segments.value()) }
}

/// What has been read so far: the document, the header of the last segment opened (not yet in the
/// document), and the blocks since that header.
pub struct ReplayState {
    pub doc: DocView,
    pub current: Option<Header>,
    pub blocks: Seq<BlockView>,
}

/// The blocks since the last header go into the document: as front matter when there was no header
/// yet, else as the segment of that header.
pub open spec fn commit(st: ReplayState) -> DocView {
    match st.current {
        None => DocView { contents: st.blocks, ..st.doc },
        Some(h) => DocView { segments: append_spec(st.doc.segments, leaf(h, st.blocks)), ..st.doc },
    }
}

/// Reading the blocks and headers of `items` in order.
pub open spec fn replay_state(items: Seq<BlockView>) -> ReplayState
    decreases items.len(),
{
    if items.len() == 0 {
        ReplayState { doc: DocView { contents: Seq::empty(), segments: Seq::empty() }, current: None, blocks: Seq::empty() }
    } else {
        let st = replay_state(items.drop_last());
        match items[items.len() - 1] {
            BlockView::Header(h) => ReplayState { doc: commit(st), current: Some(h), blocks: Seq::empty() },
            b => ReplayState { blocks: st.blocks.push(b), ..st },
        }
    }
}

/// The document that the blocks and headers of `items` make.
pub open spec fn replay(items: Seq<BlockView>) -> DocView {
    commit(replay_state(items))
}

/// The headers among `items`, in order.
pub open spec fn item_headers(items: Seq<BlockView>) -> Seq<Header>
    decreases items.len(),
{
    if items.len() == 0 {
        Seq::empty()
    } else {
        match items[items.len() - 1] {
            BlockView::Header(h) => item_headers(items.drop_last()).push(h),
            _ => item_headers(items.drop_last()),
        }
    }
}

proof fn lemma_segs_map_len(s: Seq<SegView<Vec<Block>>>)
    ensures
        segs_map(s).len() == s.len(),
        forall|i: int| 0 <= i < s.len() ==> #[trigger] segs_map(s)[i] == seg_map(s[i]),
    decreases s.len(),
{
    if s.len() > 0 {
        lemma_segs_map_len(s.drop_last());
    }
}

proof fn lemma_segs_map_push(s: Seq<SegView<Vec<Block>>>, x: SegView<Vec<Block>>)
    ensures
        segs_map(s.push(x)) == segs_map(s).push(seg_map(x)),
{
    assert(s.push(x).drop_last() =~= s);
}

proof fn lemma_segs_map_update(s: Seq<SegView<Vec<Block>>>, i: int, x: SegView<Vec<Block>>)
    requires
        0 <= i < s.len(),
    ensures
        segs_map(s.update(i, x)) == segs_map(s).update(i, seg_map(x)),
{
    lemma_segs_map_len(s);
    lemma_segs_map_len(s.update(i, x));
    assert(segs_map(s.update(i, x)) =~= segs_map(s).update(i, seg_map(x)));
}

/// Taking the values of the blocks commutes with appending a segment.
proof fn lemma_segs_map_append(s: Seq<SegView<Vec<Block>>>, x: SegView<Vec<Block>>)
    ensures
        segs_map(append_spec(s, x)) == append_spec(segs_map(s), seg_map(x)),
    decreases list_height(s),
{
    lemma_segs_map_len(s);
    if s.len() == 0 {
        assert(segs_map(seq![x]) == segs_map(Seq::<SegView<Vec<Block>>>::empty()).push(seg_map(x))) by {
            lemma_segs_map_push(Seq::empty(), x);
            assert(Seq::<SegView<Vec<Block>>>::empty().push(x) =~= seq![x]);
        }
        assert(segs_map(Seq::<SegView<Vec<Block>>>::empty()) =~= Seq::<SegView<Seq<BlockView>>>::empty());
        assert(Seq::<SegView<Seq<BlockView>>>::empty().push(seg_map(x)) =~= seq![seg_map(x)]);
    } else {
        let last = s[s.len() - 1];
        assert(last == s.last());
        assert(segs_map(s)[s.len() - 1] == seg_map(last));
        if last.header.weight < x.header.weight {
            lemma_list_height(s, s.len() - 1);
            lemma_segs_map_append(last.subs, x);
            let nl = SegView { subs: append_spec(last.subs, x), ..last };
            lemma_segs_map_update(s, s.len() - 1, nl);
            assert(seg_map(nl) == SegView { subs: append_spec(seg_map(last).subs, seg_map(x)), ..seg_map(last) });
        } else {
            lemma_segs_map_push(s, x);
        }
    }
}

/// Blocks are blocks, and headers are headers: the value of a block is a header exactly when the block
/// is one.
proof fn lemma_header_view(b: Block)
    ensures
        (b.view() is Header) == (b is Header),
        b matches Block::Header(h) ==> b.view() == BlockView::Header(h),
{
}

/// Builds the document from the blocks and headers of the top level, in order; see [replay].
pub fn build_document(items: Vec<Block>) -> (r: Document<Vec<Block>>)
    ensures
        doc_view(r) == replay(blocks_view(items@)),
{
    let ghost iv = blocks_view(items@);
    let mut items = items;
    let ghost all = items@;
    let mut doc: Document<Vec<Block>> = Document::empty(Vec::new());
    let mut current: Option<Header> = None;
    let mut blocks: Vec<Block> = Vec::new();
    let ghost mut k: int = 0;
    proof {
        lemma_blocks_view_len(all);
        assert(blocks_view(Seq::<Block>::empty()) =~= Seq::<BlockView>::empty());
        assert(all.subrange(0, 0) =~= Seq::<Block>::empty());
        assert(segs_map(Seq::<SegView<Vec<Block>>>::empty()) =~= Seq::<SegView<Seq<BlockView>>>::empty());
    }
    while items.len() > 0
        invariant
            0 <= k <= all.len(),
            items@ == all.subrange(k, all.len() as int),
            ({
                let st = replay_state(blocks_view(all.subrange(0, k)));
                &&& doc_view(doc) == st.doc
                &&& current == st.current
                &&& blocks_view(blocks@) == st.blocks
            }),
        decreases items.len(),
    {
        let item = items.remove(0);
        proof {
            assert(item == all[k]);
            assert(all.subrange(0, k + 1) =~= all.subrange(0, k).push(item));
            lemma_blocks_view_push(all.subrange(0, k), item);
            assert(blocks_view(all.subrange(0, k + 1)).drop_last() =~= blocks_view(all.subrange(0, k)));
            lemma_header_view(item);
        }
        match item {
            Block::Header(h) => {
                let mut done = Vec::new();
                std::mem::swap(&mut done, &mut blocks);
                commit_exec(&mut doc, current, done);
                current = Some(h);
                proof {
                    assert(blocks_view(blocks@) =~= Seq::<BlockView>::empty());
                }
            },
            b => {
                proof {
                    lemma_blocks_view_push(blocks@, b);
                }
                blocks.push(b);
            },
        }
        proof {
            k = k + 1;
        }
    }
    proof {
        assert(all.subrange(0, k) =~= all);
    }
    commit_exec(&mut doc, current, blocks);
    doc
}

/// The blocks since the last header go into the document; see [commit].
fn commit_exec(doc: &mut Document<Vec<Block>>, current: Option<Header>, blocks: Vec<Block>)
    ensures
        doc_view(*final(doc)) == commit(ReplayState { doc: doc_view(*old(doc)), current, blocks: blocks_view(blocks@) }),
{
    match current {
        None => {
            doc.contents = blocks;
        },
        Some(h) => {
            let ghost s = doc.segments.value();
            doc.append_header(h, blocks);
            proof {
                lemma_segs_map_append(s, leaf(h, blocks));
                assert(segs_map(Seq::<SegView<Vec<Block>>>::empty()) =~= Seq::<SegView<Seq<BlockView>>>::empty());
                assert(seg_map(leaf(h, blocks)) == leaf(h, blocks_view(blocks@)));
            }
        },
    }
}

/// The values of a sequence of blocks are as many as the blocks.
pub proof fn lemma_blocks_view_len(s: Seq<Block>)
    ensures
        blocks_view(s).len() == s.len(),
    decreases s.len(),
{
    if s.len() > 0 {
        lemma_blocks_view_len(s.drop_last());
    }
}

/// The segments of the document carry the headers that the top level took, in the order it took
/// them (in document order).
pub proof fn lemma_replay_headers(items: Seq<BlockView>)
    ensures
        headers_in_order(replay(items).segments) == item_headers(items),
{
    lemma_replay_state_headers(items);
    let st = replay_state(items);
    match st.current {
        None => {},
        Some(h) => {
            lemma_append_order(st.doc.segments, leaf(h, st.blocks));
            assert(seg_headers(leaf(h, st.blocks)) =~= seq![h]) by {
                assert(headers_in_order(Seq::<SegView<Seq<BlockView>>>::empty()) =~= Seq::<Header>::empty());
            }
        },
    }
}

proof fn lemma_replay_state_headers(items: Seq<BlockView>)
    ensures
        ({
            let st = replay_state(items);
            headers_in_order(st.doc.segments) + match st.current {
                Some(h) => seq![h],
                None => Seq::empty(),
            } == item_headers(items)
        }),
    decreases items.len(),
{
    if items.len() == 0 {
        assert(headers_in_order(Seq::<SegView<Seq<BlockView>>>::empty()) =~= Seq::<Header>::empty());
        assert(Seq::<Header>::empty() + Seq::<Header>::empty() =~= Seq::<Header>::empty());
    } else {
        lemma_replay_state_headers(items.drop_last());
        let st = replay_state(items.drop_last());
        match items[items.len() - 1] {
            BlockView::Header(h) => {
                match st.current {
                    None => {
                        assert(headers_in_order(st.doc.segments) + Seq::<Header>::empty() =~= headers_in_order(st.doc.segments));
                    },
                    Some(c) => {
                        lemma_append_order(st.doc.segments, leaf(c, st.blocks));
                        assert(seg_headers(leaf(c, st.blocks)) =~= seq![c]) by {
                            assert(headers_in_order(Seq::<SegView<Seq<BlockView>>>::empty()) =~= Seq::<Header>::empty());
                        }
                    },
                }
                let st2 = replay_state(items);
                assert(headers_in_order(st2.doc.segments) + seq![h] =~= item_headers(items));
            },
            _ => {},
        }
    }
}

/// The document that the top level builds is well-formed, whatever headers it took and in whatever
/// order: each segment holds only heavier segments, and no segment is lighter than the one after it.
pub proof fn lemma_replay_wf(items: Seq<BlockView>)
    ensures
        list_wf(replay(items).segments),
{
    lemma_replay_state_wf(items);
    let st = replay_state(items);
    match st.current {
        None => {},
        Some(h) => {
            lemma_leaf_wf(h, st.blocks);
            lemma_append_keeps_wf(st.doc.segments, leaf(h, st.blocks));
        },
    }
}

proof fn lemma_leaf_wf(h: Header, c: Seq<BlockView>)
    ensures
        seg_wf(leaf(h, c)),
{
    assert(all_heavier(leaf(h, c).subs, h.weight));
}

proof fn lemma_replay_state_wf(items: Seq<BlockView>)
    ensures
        list_wf(replay_state(items).doc.segments),
    decreases items.len(),
{
    if items.len() > 0 {
        lemma_replay_state_wf(items.drop_last());
        let st = replay_state(items.drop_last());
        match items[items.len() - 1] {
            BlockView::Header(h) => {
                match st.current {
                    None => {},
                    Some(c) => {
                        lemma_leaf_wf(c, st.blocks);
                        lemma_append_keeps_wf(st.doc.segments, leaf(c, st.blocks));
                    },
                }
            },
            _ => {},
        }
    }
}

} // verus!
