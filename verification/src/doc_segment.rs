//! A document as a tree of segments, each opened by a weighted header.
//!
//! A [DocSegmentList] keeps its segments so that no segment should contain the one after it:
//! for each adjacent pair `(a, b)`, `a.header.weight >= b.header.weight`.
//! A [DocSegment] keeps only heavier segments inside it: each subsegment's header weight is greater
//! than its own.
use vstd::prelude::*;

verus! {

/// A header that opens a segment: its weight, and a handle to the header object it stands for.
#[derive(Debug, Clone, Copy, PartialEq, Eq, Structural)]
pub struct Header {
    pub weight: i64,
    pub id: u64,
}

/// A segment of a document: a header, the contents before any subsegment, and the subsegments.
#[verifier::reject_recursive_types(C)]
#[derive(Debug)]
pub struct DocSegment<C> {
    pub header: Header,
    pub contents: C,
    pub subsegments: DocSegmentList<C>,
}

/// A list of segments in which no segment should contain the one after it.
#[verifier::reject_recursive_types(C)]
#[derive(Debug)]
pub struct DocSegmentList<C> {
    pub segments: Vec<DocSegment<C>>,
}

/// The value of a [DocSegment].
#[verifier::reject_recursive_types(C)]
pub struct SegView<C> {
    pub header: Header,
    pub contents: C,
    pub subs: Seq<SegView<C>>,
}

impl<C> DocSegment<C> {
    /// The value of the segment.
    pub open spec fn value(self) -> SegView<C>
        decreases self,
    {
        SegView { header: self.header, contents: self.contents, subs: segs_value(self.subsegments.segments@) }
    }
}

/// The values of a sequence of segments.
pub open spec fn segs_value<C>(s: Seq<DocSegment<C>>) -> Seq<SegView<C>>
    decreases s,
{
    if s.len() == 0 {
        Seq::empty()
    } else {
        segs_value(s.drop_last()).push(s.last().value())
    }
}

impl<C> DocSegmentList<C> {
    /// The value of the list.
    pub open spec fn value(self) -> Seq<SegView<C>> {
        segs_value(self.segments@)
    }
}


/// The segment with header `header`, contents `contents`, and no subsegments.
pub open spec fn leaf<C>(header: Header, contents: C) -> SegView<C> {
    SegView { header, contents, subs: Seq::empty() }
}

/// No segment of `s` should contain the one after it: the weights never increase along `s`.
pub open spec fn weights_non_increasing<C>(s: Seq<SegView<C>>) -> bool {
    forall|i: int, j: int| #![trigger s[i], s[j]] 0 <= i <= j < s.len() ==> s[i].header.weight >= s[j].header.weight
}

/// Every segment of `s` is heavier than `w`.
pub open spec fn all_heavier<C>(s: Seq<SegView<C>>, w: i64) -> bool {
    forall|i: int| 0 <= i < s.len() ==> (#[trigger] s[i]).header.weight > w
}

/// The list and all segments in it, at any depth, keep their invariants.
pub open spec fn list_wf<C>(s: Seq<SegView<C>>) -> bool
    decreases s,
{
    if s.len() == 0 {
        true
    } else {
        &&& list_wf(s.drop_last())
        &&& seg_wf(s.last())
        &&& s.len() >= 2 ==> s[s.len() - 2].header.weight >= s.last().header.weight
    }
}

/// The segment keeps its invariants: its subsegments are heavier than it, and form a well-formed list.
pub open spec fn seg_wf<C>(v: SegView<C>) -> bool
    decreases v,
{
    all_heavier(v.subs, v.header.weight) && list_wf(v.subs)
}

/// The depth of the tree of segments in `s`.
pub open spec fn list_height<C>(s: Seq<SegView<C>>) -> nat
    decreases s,
{
    if s.len() == 0 {
        0
    } else {
        let a = list_height(s.drop_last());
        let b = 1 + list_height(s.last().subs);
        if a >= b {
            a
        } else {
            b
        }
    }
}

/// `s` with `x` appended: into the last segment (at its end, recursively) when that segment is lighter
/// than `x`, else at the end of `s`.
pub open spec fn append_spec<C>(s: Seq<SegView<C>>, x: SegView<C>) -> Seq<SegView<C>>
    decreases s,
{
    if s.len() == 0 {
        seq![x]
    } else {
        let last = s.last();
        if last.header.weight < x.header.weight {
            s.update(s.len() - 1, SegView { subs: append_spec(last.subs, x), ..last })
        } else {
            s.push(x)
        }
    }
}

/// Where [append_spec] puts `x`: the indices that lead to it from `s`.
pub open spec fn append_path<C>(s: Seq<SegView<C>>, x: SegView<C>) -> Seq<int>
    decreases s,
{
    if s.len() == 0 {
        seq![0int]
    } else {
        let last = s.last();
        if last.header.weight < x.header.weight {
            seq![s.len() - 1] + append_path(last.subs, x)
        } else {
            seq![s.len() as int]
        }
    }
}

/// `s` with `x` put just after index `i`: into segment `i` (appended, recursively) when that segment
/// is lighter than `x`, else as a new element at `i + 1`.
pub open spec fn merge_spec<C>(s: Seq<SegView<C>>, i: int, x: SegView<C>) -> Seq<SegView<C>> {
    if s[i].header.weight < x.header.weight {
        s.update(i, SegView { subs: append_spec(s[i].subs, x), ..s[i] })
    } else {
        s.insert(i + 1, x)
    }
}

/// Where [merge_spec] puts `x`.
pub open spec fn merge_path<C>(s: Seq<SegView<C>>, i: int, x: SegView<C>) -> Seq<int> {
    if s[i].header.weight < x.header.weight {
        seq![i] + append_path(s[i].subs, x)
    } else {
        seq![i + 1]
    }
}

/// The number of segments of `s` from index `i` on that are heavier than `w`, up to the first that is not.
pub open spec fn heavier_run<C>(s: Seq<SegView<C>>, i: int, w: i64) -> nat
    decreases s.len() - i,
{
    if 0 <= i < s.len() && s[i].header.weight > w {
        1 + heavier_run(s, i + 1, w)
    } else {
        0
    }
}

/// The indices of `p` as integers.
pub open spec fn path_view(p: Seq<usize>) -> Seq<int> {
    p.map_values(|k: usize| k as int)
}

/// The segment that `path` leads to from the list `s`.
pub open spec fn seg_at<C>(s: Seq<SegView<C>>, path: Seq<int>) -> SegView<C>
    decreases path.len(),
{
    if path.len() <= 1 {
        s[path[0]]
    } else {
        seg_at(s[path[0]].subs, path.drop_first())
    }
}

/// The run of segments of `s` from index `i` on that are heavier than `w`.
pub open spec fn insert_moved<C>(s: Seq<SegView<C>>, i: int, w: i64) -> Seq<SegView<C>> {
    s.subrange(i, i + heavier_run(s, i, w))
}

/// The segments of `s` other than [insert_moved].
pub open spec fn insert_kept<C>(s: Seq<SegView<C>>, i: int, w: i64) -> Seq<SegView<C>> {
    s.subrange(0, i) + s.subrange(i + heavier_run(s, i, w), s.len() as int)
}

/// `s` with a new segment for `header` inserted before index `i`: the run of segments from `i` on that
/// are heavier than the header move into the new segment, and the new segment goes after segment `i - 1`
/// as [merge_spec] does (or first, when `i` is 0).
pub open spec fn insert_spec<C>(s: Seq<SegView<C>>, i: int, header: Header, contents: C) -> Seq<SegView<C>> {
    let kept = insert_kept(s, i, header.weight);
    let x = SegView { header, contents, subs: insert_moved(s, i, header.weight) };
    if i == 0 {
        kept.insert(0, x)
    } else {
        merge_spec(kept, i - 1, x)
    }
}

/// Where [insert_spec] puts the new segment.
pub open spec fn insert_path<C>(s: Seq<SegView<C>>, i: int, header: Header, contents: C) -> Seq<int> {
    let kept = insert_kept(s, i, header.weight);
    let x = SegView { header, contents, subs: insert_moved(s, i, header.weight) };
    if i == 0 {
        seq![0int]
    } else {
        merge_path(kept, i - 1, x)
    }
}

/// The values of segments are those of each segment, in order.
pub proof fn lemma_segs_value<C>(s: Seq<DocSegment<C>>)
    ensures
        segs_value(s).len() == s.len(),
        forall|i: int| 0 <= i < s.len() ==> #[trigger] segs_value(s)[i] == s[i].value(),
    decreases s.len(),
{
    if s.len() > 0 {
        lemma_segs_value(s.drop_last());
    }
}

/// A subsegment's tree is shallower than the list that holds it.
pub proof fn lemma_list_height<C>(s: Seq<SegView<C>>, i: int)
    requires
        0 <= i < s.len(),
    ensures
        list_height(s[i].subs) < list_height(s),
    decreases s.len(),
{
    if i < s.len() - 1 {
        lemma_list_height(s.drop_last(), i);
    }
}


/// The headers of the segments of `s` and of all their subsegments, in document order.
pub open spec fn headers_in_order<C>(s: Seq<SegView<C>>) -> Seq<Header>
    decreases s,
{
    if s.len() == 0 {
        Seq::empty()
    } else {
        headers_in_order(s.drop_last()) + seg_headers(s.last())
    }
}

/// The header of `v`, then the headers of its subsegments in document order.
pub open spec fn seg_headers<C>(v: SegView<C>) -> Seq<Header>
    decreases v,
{
    seq![v.header] + headers_in_order(v.subs)
}

proof fn lemma_headers_concat<C>(a: Seq<SegView<C>>, b: Seq<SegView<C>>)
    ensures
        headers_in_order(a + b) == headers_in_order(a) + headers_in_order(b),
    decreases b.len(),
{
    if b.len() == 0 {
        assert(a + b =~= a);
        assert(headers_in_order(b) =~= Seq::<Header>::empty());
        assert(headers_in_order(a) + headers_in_order(b) =~= headers_in_order(a));
    } else {
        lemma_headers_concat(a, b.drop_last());
        assert((a + b).drop_last() =~= a + b.drop_last());
        assert((a + b).last() == b.last());
        assert(headers_in_order(a + b) =~= headers_in_order(a) + headers_in_order(b));
    }
}

proof fn lemma_headers_single<C>(x: SegView<C>)
    ensures
        headers_in_order(seq![x]) == seg_headers(x),
{
    let e = seq![x].drop_last();
    assert(e.len() == 0);
    assert(headers_in_order(e) =~= Seq::<Header>::empty());
    assert(headers_in_order(seq![x]) =~= seg_headers(x));
}

/// The two halves of well-formedness: weights that never increase, and well-formed segments.
pub open spec fn list_wf_parts<C>(s: Seq<SegView<C>>) -> bool {
    weights_non_increasing(s) && forall|i: int| 0 <= i < s.len() ==> #[trigger] seg_wf(s[i])
}

proof fn lemma_list_wf_elim<C>(s: Seq<SegView<C>>)
    requires
        list_wf(s),
    ensures
        list_wf_parts(s),
    decreases s.len(),
{
    if s.len() > 0 {
        let t = s.drop_last();
        lemma_list_wf_elim(t);
        assert forall|i: int, j: int| 0 <= i <= j < s.len() implies s[i].header.weight >= s[j].header.weight by {
            if j < s.len() - 1 {
                assert(t[i] == s[i] && t[j] == s[j]);
            } else if i < j {
                assert(t[i] == s[i] && t[s.len() - 2] == s[s.len() - 2]);
            }
        }
        assert forall|i: int| 0 <= i < s.len() implies #[trigger] seg_wf(s[i]) by {
            if i < s.len() - 1 {
                assert(t[i] == s[i]);
            }
        }
    }
}

proof fn lemma_list_wf_intro<C>(s: Seq<SegView<C>>)
    requires
        list_wf_parts(s),
    ensures
        list_wf(s),
    decreases s.len(),
{
    if s.len() > 0 {
        let t = s.drop_last();
        assert forall|i: int, j: int| 0 <= i <= j < t.len() implies t[i].header.weight >= t[j].header.weight by {
            assert(s[i] == t[i] && s[j] == t[j]);
        }
        assert forall|i: int| 0 <= i < t.len() implies #[trigger] seg_wf(t[i]) by {
            assert(s[i] == t[i]);
        }
        lemma_list_wf_intro(t);
        if s.len() >= 2 {
            assert(s[s.len() - 2].header.weight >= s[s.len() - 1].header.weight);
        }
        assert(seg_wf(s[s.len() - 1]));
    }
}

/// A list is well-formed exactly when its weights never increase and each of its segments is
/// well-formed.
pub proof fn lemma_list_wf<C>(s: Seq<SegView<C>>)
    ensures
        list_wf(s) <==> list_wf_parts(s),
{
    if list_wf(s) {
        lemma_list_wf_elim(s);
    }
    if list_wf_parts(s) {
        lemma_list_wf_intro(s);
    }
}

proof fn lemma_list_wf_subrange<C>(s: Seq<SegView<C>>, a: int, b: int)
    requires
        list_wf(s),
        0 <= a <= b <= s.len(),
    ensures
        list_wf(s.subrange(a, b)),
{
    lemma_list_wf(s);
    let t = s.subrange(a, b);
    lemma_list_wf(t);
    assert forall|i: int, j: int| 0 <= i <= j < t.len() implies t[i].header.weight >= t[j].header.weight by {
        assert(t[i] == s[a + i] && t[j] == s[a + j]);
    }
    assert forall|i: int| 0 <= i < t.len() implies #[trigger] seg_wf(t[i]) by {
        assert(t[i] == s[a + i]);
    }
}

/// The segments of `append_spec(s, x)` at the top level are those of `s` and `x`, with the last one
/// of `s` keeping its header.
proof fn lemma_append_top<C>(s: Seq<SegView<C>>, x: SegView<C>)
    ensures
        s.len() > 0 && s.last().header.weight < x.header.weight ==> {
            &&& append_spec(s, x).len() == s.len()
            &&& forall|i: int| 0 <= i < s.len() ==> (#[trigger] append_spec(s, x)[i]).header == s[i].header
        },
        !(s.len() > 0 && s.last().header.weight < x.header.weight) ==> append_spec(s, x) == s.push(x),
{
}

/// Appending a well-formed segment to a well-formed list keeps the list well-formed.
pub proof fn lemma_append_keeps_wf<C>(s: Seq<SegView<C>>, x: SegView<C>)
    requires
        list_wf(s),
        seg_wf(x),
    ensures
        list_wf(append_spec(s, x)),
    decreases list_height(s),
{
    lemma_list_wf(s);
    let r = append_spec(s, x);
    lemma_list_wf(r);
    if s.len() == 0 {
        assert(r =~= seq![x]);
    } else {
        let last = s.last();
        if last.header.weight < x.header.weight {
            assert(seg_wf(s[s.len() - 1]));
            lemma_list_height(s, s.len() - 1);
            lemma_append_keeps_wf(last.subs, x);
            lemma_append_heavier(last.subs, x, last.header.weight);
            let nl = SegView { subs: append_spec(last.subs, x), ..last };
            assert(seg_wf(nl));
            assert forall|i: int, j: int| 0 <= i <= j < r.len() implies r[i].header.weight >= r[j].header.weight by {
                assert(r[i].header == s[i].header);
                assert(r[j].header == s[j].header);
            }
            assert forall|i: int| 0 <= i < r.len() implies #[trigger] seg_wf(r[i]) by {
                if i < s.len() - 1 {
                    assert(r[i] == s[i]);
                }
            }
        } else {
            assert forall|i: int, j: int| 0 <= i <= j < r.len() implies r[i].header.weight >= r[j].header.weight by {
                if j < s.len() {
                    assert(r[i] == s[i] && r[j] == s[j]);
                } else if i < j {
                    assert(r[i] == s[i] && r[j] == x);
                    assert(s[i].header.weight >= s[s.len() - 1].header.weight);
                }
            }
            assert forall|i: int| 0 <= i < r.len() implies #[trigger] seg_wf(r[i]) by {
                if i < s.len() {
                    assert(r[i] == s[i]);
                }
            }
        }
    }
}

/// Appending a segment heavier than `w` to a list of segments heavier than `w` keeps them all heavier.
proof fn lemma_append_heavier<C>(s: Seq<SegView<C>>, x: SegView<C>, w: i64)
    requires
        all_heavier(s, w),
        x.header.weight > w,
    ensures
        all_heavier(append_spec(s, x), w),
{
    lemma_append_top(s, x);
    let r = append_spec(s, x);
    assert forall|i: int| 0 <= i < r.len() implies (#[trigger] r[i]).header.weight > w by {
        if i < s.len() {
            assert(r[i].header == s[i].header);
        }
    }
}

/// Appending puts `x` where [append_path] says.
pub proof fn lemma_append_path<C>(s: Seq<SegView<C>>, x: SegView<C>)
    ensures
        append_path(s, x).len() >= 1,
        seg_at(append_spec(s, x), append_path(s, x)) == x,
    decreases list_height(s),
{
    if s.len() > 0 {
        let last = s.last();
        if last.header.weight < x.header.weight {
            lemma_list_height(s, s.len() - 1);
            lemma_append_path(last.subs, x);
            let p = append_path(s, x);
            assert(p.drop_first() =~= append_path(last.subs, x));
        }
    }
}

/// Appending puts `x` last in document order: the headers of the list become those it had, then
/// those of `x`.
pub proof fn lemma_append_order<C>(s: Seq<SegView<C>>, x: SegView<C>)
    ensures
        headers_in_order(append_spec(s, x)) == headers_in_order(s) + seg_headers(x),
    decreases list_height(s),
{
    if s.len() == 0 {
        lemma_headers_single(x);
        assert(headers_in_order(s) =~= Seq::<Header>::empty());
        assert(headers_in_order(s) + seg_headers(x) =~= seg_headers(x));
    } else {
        let last = s.last();
        let r = append_spec(s, x);
        if last.header.weight < x.header.weight {
            lemma_list_height(s, s.len() - 1);
            lemma_append_order(last.subs, x);
            let nl = SegView { subs: append_spec(last.subs, x), ..last };
            assert(r.drop_last() =~= s.drop_last());
            assert(r.last() == nl);
            assert(seg_headers(nl) =~= seg_headers(last) + seg_headers(x));
            assert(headers_in_order(r) =~= headers_in_order(s) + seg_headers(x));
        } else {
            assert(r.drop_last() =~= s);
            assert(r.last() == x);
        }
    }
}

proof fn lemma_heavier_run<C>(s: Seq<SegView<C>>, i: int, w: i64)
    requires
        0 <= i <= s.len(),
    ensures
        i + heavier_run(s, i, w) <= s.len(),
        forall|k: int| i <= k < i + heavier_run(s, i, w) ==> (#[trigger] s[k]).header.weight > w,
        i + heavier_run(s, i, w) < s.len() ==> s[i + heavier_run(s, i, w)].header.weight <= w,
    decreases s.len() - i,
{
    if i < s.len() && s[i].header.weight > w {
        lemma_heavier_run(s, i + 1, w);
    }
}

proof fn lemma_insert_at_wf<C>(t: Seq<SegView<C>>, k: int, x: SegView<C>)
    requires
        list_wf(t),
        seg_wf(x),
        0 <= k <= t.len(),
        k > 0 ==> t[k - 1].header.weight >= x.header.weight,
        k < t.len() ==> x.header.weight >= t[k].header.weight,
    ensures
        list_wf(t.insert(k, x)),
{
    lemma_list_wf(t);
    let r = t.insert(k, x);
    assert forall|a: int, b: int| 0 <= a <= b < r.len() implies r[a].header.weight >= r[b].header.weight by {
        if b < k {
            assert(r[a] == t[a] && r[b] == t[b]);
        } else if a > k {
            assert(r[a] == t[a - 1] && r[b] == t[b - 1]);
        } else if a < k && b == k {
            assert(r[a] == t[a] && r[b] == x);
            assert(t[a].header.weight >= t[k - 1].header.weight);
        } else if a < k && b > k {
            assert(r[a] == t[a] && r[b] == t[b - 1]);
        } else if a == k && b > k {
            assert(r[a] == x && r[b] == t[b - 1]);
            assert(t[k].header.weight >= t[b - 1].header.weight);
        }
    }
    assert forall|j: int| 0 <= j < r.len() implies #[trigger] seg_wf(r[j]) by {
        if j < k {
            assert(r[j] == t[j]);
        } else if j > k {
            assert(r[j] == t[j - 1]);
        }
    }
    lemma_list_wf(r);
}

proof fn lemma_update_wf<C>(t: Seq<SegView<C>>, k: int, v: SegView<C>)
    requires
        list_wf(t),
        seg_wf(v),
        0 <= k < t.len(),
        v.header == t[k].header,
    ensures
        list_wf(t.update(k, v)),
{
    lemma_list_wf(t);
    let r = t.update(k, v);
    assert forall|a: int, b: int| 0 <= a <= b < r.len() implies r[a].header.weight >= r[b].header.weight by {
        assert(r[a].header == t[a].header);
        assert(r[b].header == t[b].header);
    }
    assert forall|j: int| 0 <= j < r.len() implies #[trigger] seg_wf(r[j]) by {
        if j != k {
            assert(r[j] == t[j]);
        }
    }
    lemma_list_wf(r);
}

proof fn lemma_insert_parts<C>(s: Seq<SegView<C>>, i: int, w: i64)
    requires
        list_wf(s),
        0 <= i <= s.len(),
    ensures
        ({
            let n = heavier_run(s, i, w);
            let kept = insert_kept(s, i, w);
            &&& i + n <= s.len()
            &&& list_wf(kept)
            &&& list_wf(insert_moved(s, i, w))
            &&& all_heavier(insert_moved(s, i, w), w)
            &&& kept.len() == s.len() - n
            &&& i > 0 ==> kept[i - 1] == s[i - 1]
            &&& i < kept.len() ==> kept[i] == s[i + n] && kept[i].header.weight <= w
        }),
{
    lemma_heavier_run(s, i, w);
    let n = heavier_run(s, i, w);
    let moved = insert_moved(s, i, w);
    let kept = insert_kept(s, i, w);
    lemma_list_wf(s);
    lemma_list_wf_subrange(s, i, i + n);
    assert forall|k: int| 0 <= k < moved.len() implies (#[trigger] moved[k]).header.weight > w by {
        assert(moved[k] == s[i + k]);
    }
    assert forall|k: int, l: int| 0 <= k <= l < kept.len() implies kept[k].header.weight >= kept[l].header.weight by {
        let a = if k < i { k } else { k + n };
        let b = if l < i { l } else { l + n };
        assert(kept[k] == s[a]);
        assert(kept[l] == s[b]);
    }
    assert forall|k: int| 0 <= k < kept.len() implies #[trigger] seg_wf(kept[k]) by {
        if k < i {
            assert(kept[k] == s[k]);
        } else {
            assert(kept[k] == s[k + n]);
        }
    }
    lemma_list_wf(kept);
}

/// Inserting a header into a well-formed list keeps the list well-formed.
pub proof fn lemma_insert_keeps_wf<C>(s: Seq<SegView<C>>, i: int, header: Header, contents: C)
    requires
        list_wf(s),
        0 <= i <= s.len(),
    ensures
        list_wf(insert_spec(s, i, header, contents)),
{
    let w = header.weight;
    lemma_insert_parts(s, i, w);
    let kept = insert_kept(s, i, w);
    let x = SegView { header, contents, subs: insert_moved(s, i, w) };
    assert(seg_wf(x));
    if i == 0 {
        lemma_insert_at_wf(kept, 0, x);
    } else {
        let prev = kept[i - 1];
        if prev.header.weight < w {
            lemma_list_wf(kept);
            assert(seg_wf(kept[i - 1]));
            lemma_append_keeps_wf(prev.subs, x);
            lemma_append_heavier(prev.subs, x, prev.header.weight);
            lemma_update_wf(kept, i - 1, SegView { subs: append_spec(prev.subs, x), ..prev });
        } else {
            lemma_insert_at_wf(kept, i, x);
        }
    }
}

/// Inserting puts the new segment, with the given header and contents, where [insert_path] says.
pub proof fn lemma_insert_path<C>(s: Seq<SegView<C>>, i: int, header: Header, contents: C)
    requires
        0 <= i <= s.len(),
    ensures
        seg_at(insert_spec(s, i, header, contents), insert_path(s, i, header, contents)).header == header,
        seg_at(insert_spec(s, i, header, contents), insert_path(s, i, header, contents)).contents == contents,
{
    let w = header.weight;
    lemma_heavier_run(s, i, w);
    let kept = insert_kept(s, i, w);
    let x = SegView { header, contents, subs: insert_moved(s, i, w) };
    if i > 0 {
        let prev = kept[i - 1];
        if prev.header.weight < w {
            lemma_append_path(prev.subs, x);
            let p = insert_path(s, i, header, contents);
            assert(p.drop_first() =~= append_path(prev.subs, x));
        }
    }
}

proof fn lemma_headers_push<C>(t: Seq<SegView<C>>, v: SegView<C>)
    ensures
        headers_in_order(t.push(v)) == headers_in_order(t) + seg_headers(v),
{
    assert(t.push(v).drop_last() =~= t);
}

/// The headers of `front`, then `x` appended into the last segment of `front`, then `back`.
proof fn lemma_order_merged<C>(front: Seq<SegView<C>>, x: SegView<C>, back: Seq<SegView<C>>)
    requires
        front.len() > 0,
    ensures
        ({
            let prev = front.last();
            let np = SegView { subs: append_spec(prev.subs, x), ..prev };
            headers_in_order(front.drop_last().push(np) + back) == headers_in_order(front) + seg_headers(x)
                + headers_in_order(back)
        }),
{
    let prev = front.last();
    let before = front.drop_last();
    let np = SegView { subs: append_spec(prev.subs, x), ..prev };
    assert(front =~= before.push(prev));
    lemma_headers_push(before, prev);
    lemma_headers_concat(before.push(np), back);
    lemma_headers_push(before, np);
    lemma_append_order(prev.subs, x);
    assert(seg_headers(np) =~= seg_headers(prev) + seg_headers(x));
    assert(headers_in_order(before.push(np) + back) =~= headers_in_order(front) + seg_headers(x)
        + headers_in_order(back));
}

/// The headers of `front`, then `x`, then `back`.
proof fn lemma_order_between<C>(front: Seq<SegView<C>>, x: SegView<C>, back: Seq<SegView<C>>)
    ensures
        headers_in_order(front + (seq![x] + back)) == headers_in_order(front) + seg_headers(x)
            + headers_in_order(back),
{
    lemma_headers_concat(front, seq![x] + back);
    lemma_headers_concat(seq![x], back);
    lemma_headers_single(x);
    assert(headers_in_order(front + (seq![x] + back)) =~= headers_in_order(front) + seg_headers(x)
        + headers_in_order(back));
}

/// Inserting before index `i` puts the new header into document order just before the segment that
/// was at `i`: after the segments before `i` and all their subsegments.
#[verifier::spinoff_prover]
#[verifier::rlimit(40)]
pub proof fn lemma_insert_order<C>(s: Seq<SegView<C>>, i: int, header: Header, contents: C)
    requires
        0 <= i <= s.len(),
    ensures
        headers_in_order(insert_spec(s, i, header, contents)) == headers_in_order(s.subrange(0, i))
            + seq![header] + headers_in_order(s.subrange(i, s.len() as int)),
{
    let w = header.weight;
    lemma_heavier_run(s, i, w);
    let n = heavier_run(s, i, w);
    let front = s.subrange(0, i);
    let moved = insert_moved(s, i, w);
    let back = s.subrange(i + n, s.len() as int);
    let x = SegView { header, contents, subs: moved };
    assert(s.subrange(i, s.len() as int) =~= moved + back);
    lemma_headers_concat(moved, back);
    assert(seg_headers(x) == seq![header] + headers_in_order(moved));
    let r = insert_spec(s, i, header, contents);
    lemma_order_between(front, x, back);
    if i > 0 && s[i - 1].header.weight < w {
        assert(front.last() == s[i - 1]);
        assert(r =~= front.drop_last().push(SegView { subs: append_spec(s[i - 1].subs, x), ..s[i - 1] })
            + back);
        lemma_order_merged(front, x, back);
    } else {
        assert(r =~= front + (seq![x] + back));
    }
    assert(headers_in_order(r) =~= headers_in_order(front) + seq![header] + headers_in_order(
        s.subrange(i, s.len() as int),
    ));
}

/// Inserting a header heavier than `w` into a list of segments heavier than `w` keeps them all heavier.
pub proof fn lemma_insert_heavier<C>(s: Seq<SegView<C>>, i: int, header: Header, contents: C, w: i64)
    requires
        all_heavier(s, w),
        header.weight > w,
        0 <= i <= s.len(),
    ensures
        all_heavier(insert_spec(s, i, header, contents), w),
{
    let hw = header.weight;
    lemma_heavier_run(s, i, hw);
    let n = heavier_run(s, i, hw);
    let kept = insert_kept(s, i, hw);
    let x = SegView { header, contents, subs: insert_moved(s, i, hw) };
    assert forall|k: int| 0 <= k < kept.len() implies (#[trigger] kept[k]).header.weight > w by {
        if k < i {
            assert(kept[k] == s[k]);
        } else {
            assert(kept[k] == s[k + n]);
        }
    }
    let r = insert_spec(s, i, header, contents);
    if i > 0 && kept[i - 1].header.weight < hw {
        assert forall|k: int| 0 <= k < r.len() implies (#[trigger] r[k]).header.weight > w by {
            assert(r[k].header == kept[k].header);
        }
    } else {
        let at = if i == 0 { 0 } else { i };
        assert(r == kept.insert(at, x));
        assert forall|k: int| 0 <= k < r.len() implies (#[trigger] r[k]).header.weight > w by {
            if k < at {
                assert(r[k] == kept[k]);
            } else if k > at {
                assert(r[k] == kept[k - 1]);
            }
        }
    }
}

/// The segments of `s` and all their subsegments, each as its header and contents, in document order.
pub open spec fn segs_in_order<C>(s: Seq<SegView<C>>) -> Seq<(Header, C)>
    decreases s,
{
    if s.len() == 0 {
        Seq::empty()
    } else {
        segs_in_order(s.drop_last()) + seg_entries(s.last())
    }
}

/// The header and contents of `v`, then its subsegments in document order.
pub open spec fn seg_entries<C>(v: SegView<C>) -> Seq<(Header, C)>
    decreases v,
{
    seq![(v.header, v.contents)] + segs_in_order(v.subs)
}

proof fn lemma_segs_concat<C>(a: Seq<SegView<C>>, b: Seq<SegView<C>>)
    ensures
        segs_in_order(a + b) == segs_in_order(a) + segs_in_order(b),
    decreases b.len(),
{
    if b.len() == 0 {
        assert(a + b =~= a);
        assert(segs_in_order(b) =~= Seq::<(Header, C)>::empty());
        assert(segs_in_order(a) + segs_in_order(b) =~= segs_in_order(a));
    } else {
        lemma_segs_concat(a, b.drop_last());
        assert((a + b).drop_last() =~= a + b.drop_last());
        assert((a + b).last() == b.last());
        assert(segs_in_order(a + b) =~= segs_in_order(a) + segs_in_order(b));
    }
}

proof fn lemma_segs_single<C>(x: SegView<C>)
    ensures
        segs_in_order(seq![x]) == seg_entries(x),
{
    let e = seq![x].drop_last();
    assert(e.len() == 0);
    assert(segs_in_order(e) =~= Seq::<(Header, C)>::empty());
    assert(segs_in_order(seq![x]) =~= seg_entries(x));
}

proof fn lemma_segs_push<C>(t: Seq<SegView<C>>, v: SegView<C>)
    ensures
        segs_in_order(t.push(v)) == segs_in_order(t) + seg_entries(v),
{
    assert(t.push(v).drop_last() =~= t);
}

proof fn lemma_append_segs<C>(s: Seq<SegView<C>>, x: SegView<C>)
    ensures
        segs_in_order(append_spec(s, x)) == segs_in_order(s) + seg_entries(x),
    decreases list_height(s),
{
    if s.len() == 0 {
        lemma_segs_single(x);
        assert(segs_in_order(s) =~= Seq::<(Header, C)>::empty());
        assert(segs_in_order(s) + seg_entries(x) =~= seg_entries(x));
    } else {
        let last = s.last();
        let r = append_spec(s, x);
        if last.header.weight < x.header.weight {
            lemma_list_height(s, s.len() - 1);
            lemma_append_segs(last.subs, x);
            let nl = SegView { subs: append_spec(last.subs, x), ..last };
            assert(r.drop_last() =~= s.drop_last());
            assert(r.last() == nl);
            assert(seg_entries(nl) =~= seg_entries(last) + seg_entries(x));
            assert(segs_in_order(r) =~= segs_in_order(s) + seg_entries(x));
        } else {
            assert(r.drop_last() =~= s);
            assert(r.last() == x);
        }
    }
}

proof fn lemma_segs_merged<C>(front: Seq<SegView<C>>, x: SegView<C>, back: Seq<SegView<C>>)
    requires
        front.len() > 0,
    ensures
        ({
            let prev = front.last();
            let np = SegView { subs: append_spec(prev.subs, x), ..prev };
            segs_in_order(front.drop_last().push(np) + back) == segs_in_order(front) + seg_entries(x)
                + segs_in_order(back)
        }),
{
    let prev = front.last();
    let before = front.drop_last();
    let np = SegView { subs: append_spec(prev.subs, x), ..prev };
    assert(front =~= before.push(prev));
    lemma_segs_push(before, prev);
    lemma_segs_concat(before.push(np), back);
    lemma_segs_push(before, np);
    lemma_append_segs(prev.subs, x);
    assert(seg_entries(np) =~= seg_entries(prev) + seg_entries(x));
    assert(segs_in_order(before.push(np) + back) =~= segs_in_order(front) + seg_entries(x) + segs_in_order(back));
}

proof fn lemma_segs_between<C>(front: Seq<SegView<C>>, x: SegView<C>, back: Seq<SegView<C>>)
    ensures
        segs_in_order(front + (seq![x] + back)) == segs_in_order(front) + seg_entries(x) + segs_in_order(back),
{
    lemma_segs_concat(front, seq![x] + back);
    lemma_segs_concat(seq![x], back);
    lemma_segs_single(x);
    assert(segs_in_order(front + (seq![x] + back)) =~= segs_in_order(front) + seg_entries(x) + segs_in_order(
        back,
    ));
}

#[verifier::spinoff_prover]
#[verifier::rlimit(40)]
proof fn lemma_insert_segs_order<C>(s: Seq<SegView<C>>, i: int, header: Header, contents: C)
    requires
        0 <= i <= s.len(),
    ensures
        segs_in_order(insert_spec(s, i, header, contents)) == segs_in_order(s.subrange(0, i)) + seq![
            (header, contents),
        ] + segs_in_order(s.subrange(i, s.len() as int)),
{
    let w = header.weight;
    lemma_heavier_run(s, i, w);
    let n = heavier_run(s, i, w);
    let front = s.subrange(0, i);
    let moved = insert_moved(s, i, w);
    let back = s.subrange(i + n, s.len() as int);
    let x = SegView { header, contents, subs: moved };
    assert(s.subrange(i, s.len() as int) =~= moved + back);
    lemma_segs_concat(moved, back);
    assert(seg_entries(x) == seq![(header, contents)] + segs_in_order(moved));
    let r = insert_spec(s, i, header, contents);
    lemma_segs_between(front, x, back);
    if i > 0 && s[i - 1].header.weight < w {
        assert(front.last() == s[i - 1]);
        assert(r =~= front.drop_last().push(SegView { subs: append_spec(s[i - 1].subs, x), ..s[i - 1] })
            + back);
        lemma_segs_merged(front, x, back);
    } else {
        assert(r =~= front + (seq![x] + back));
    }
    assert(segs_in_order(r) =~= segs_in_order(front) + seq![(header, contents)] + segs_in_order(
        s.subrange(i, s.len() as int),
    ));
}

/// Inserting a header keeps every segment of the list, at any depth, exactly once, and adds only the
/// new one: taking each segment as its header and contents, in document order, the segments become
/// those before index `i`, then the new segment, then those from `i` on. As a multiset, the segments
/// after are those before and the new one; none is lost, doubled, or made up.
pub proof fn lemma_insert_keeps_segments<C>(s: Seq<SegView<C>>, i: int, header: Header, contents: C)
    requires
        0 <= i <= s.len(),
    ensures
        segs_in_order(insert_spec(s, i, header, contents)) == segs_in_order(s.subrange(0, i)) + seq![
            (header, contents),
        ] + segs_in_order(s.subrange(i, s.len() as int)),
        segs_in_order(s) == segs_in_order(s.subrange(0, i)) + segs_in_order(s.subrange(i, s.len() as int)),
        segs_in_order(insert_spec(s, i, header, contents)).to_multiset() == segs_in_order(s).to_multiset().insert(
            (header, contents),
        ),
{
    lemma_insert_segs_order(s, i, header, contents);
    let front = s.subrange(0, i);
    let rest = s.subrange(i, s.len() as int);
    assert(s =~= front + rest);
    lemma_segs_concat(front, rest);
    let a = segs_in_order(front);
    let b = segs_in_order(rest);
    let e = (header, contents);
    assert(a + seq![e] + b =~= (a + b).insert(a.len() as int, e));
    vstd::seq_lib::to_multiset_insert(a + b, a.len() as int, e);
}

/// What can go wrong when building segments.
#[derive(Debug, Clone, Copy, PartialEq, Eq, Structural)]
pub enum DocSegmentError {
    /// A list had a segment of weight `earlier` followed by a heavier one of weight `later`.
    NotDescending { earlier: i64, later: i64 },
    /// A segment of weight `weight` was given a subsegment of weight `subweight`, which is not heavier.
    SubsegmentNotHeavier { weight: i64, subweight: i64 },
    /// An insertion index beyond the end of the list.
    IndexOutOfRange { index: usize, len: usize },
}

proof fn lemma_value_update<C>(s: Seq<DocSegment<C>>, i: int, x: DocSegment<C>)
    requires
        0 <= i < s.len(),
    ensures
        segs_value(s.update(i, x)) == segs_value(s).update(i, x.value()),
{
    lemma_segs_value(s);
    lemma_segs_value(s.update(i, x));
    assert(segs_value(s.update(i, x)) =~= segs_value(s).update(i, x.value()));
}

proof fn lemma_value_push<C>(s: Seq<DocSegment<C>>, x: DocSegment<C>)
    ensures
        segs_value(s.push(x)) == segs_value(s).push(x.value()),
{
    assert(s.push(x).drop_last() =~= s);
}

proof fn lemma_value_insert<C>(s: Seq<DocSegment<C>>, i: int, x: DocSegment<C>)
    requires
        0 <= i <= s.len(),
    ensures
        segs_value(s.insert(i, x)) == segs_value(s).insert(i, x.value()),
{
    lemma_segs_value(s);
    lemma_segs_value(s.insert(i, x));
    assert(segs_value(s.insert(i, x)) =~= segs_value(s).insert(i, x.value()));
}

proof fn lemma_value_subrange<C>(s: Seq<DocSegment<C>>, a: int, b: int)
    requires
        0 <= a <= b <= s.len(),
    ensures
        segs_value(s.subrange(a, b)) == segs_value(s).subrange(a, b),
{
    lemma_segs_value(s);
    lemma_segs_value(s.subrange(a, b));
    assert(segs_value(s.subrange(a, b)) =~= segs_value(s).subrange(a, b));
}

proof fn lemma_value_concat<C>(s: Seq<DocSegment<C>>, t: Seq<DocSegment<C>>)
    ensures
        segs_value(s + t) == segs_value(s) + segs_value(t),
{
    lemma_segs_value(s);
    lemma_segs_value(t);
    lemma_segs_value(s + t);
    assert(segs_value(s + t) =~= segs_value(s) + segs_value(t));
}

impl<C> DocSegment<C> {
    /// A segment with the given header and contents and no subsegments.
    pub fn new_no_header_subsegments(header: Header, contents: C) -> (r: Self)
        ensures
            r.value() == leaf(header, contents),
    {
        let r = DocSegment { header, contents, subsegments: DocSegmentList { segments: Vec::new() } };
        proof {
            assert(segs_value(r.subsegments.segments@) =~= Seq::empty());
        }
        r
    }
}

impl<C> DocSegmentList<C> {
    /// The empty list.
    pub fn empty() -> (r: Self)
        ensures
            r.value() == Seq::<SegView<C>>::empty(),
    {
        let r = DocSegmentList { segments: Vec::new() };
        proof {
            assert(segs_value(r.segments@) =~= Seq::empty());
        }
        r
    }

    /// The number of segments in the list.
    pub fn len(&self) -> (r: usize)
        ensures
            r == self.value().len(),
    {
        proof {
            lemma_segs_value(self.segments@);
        }
        self.segments.len()
    }

    /// Puts `new` at the end of the list, or (recursively) at the end of the last segment when that
    /// segment is lighter than `new`. Returns the indices that lead to `new` from the list.
    fn append_full_subsegment(&mut self, new: DocSegment<C>, new_weight: i64) -> (path: Vec<usize>)
        requires
            new_weight == new.header.weight,
        ensures
            final(self).value() == append_spec(old(self).value(), new.value()),
            path_view(path@) == append_path(old(self).value(), new.value()),
        decreases list_height(old(self).value()),
    {
        let ghost old_segs = self.segments@;
        let ghost nv = new.value();
        proof {
            lemma_segs_value(old_segs);
        }
        let n = self.segments.len();
        if n == 0 {
            self.segments.push(new);
            proof {
                lemma_value_push(old_segs, new);
            }
            let mut path = Vec::new();
            path.push(0);
            proof {
                assert(path_view(path@) =~= seq![0int]);
            }
            path
        } else {
            let elem_weight = self.segments[n - 1].header.weight;
            if elem_weight < new_weight {
                proof {
                    lemma_list_height(segs_value(old_segs), n - 1);
                }
                let ghost old_elem = old_segs[n - 1];
                let mut sub_path = self.segments[n - 1].subsegments.append_full_subsegment(new, new_weight);
                proof {
                    let new_elem = DocSegment {
                        subsegments: self.segments@[n - 1].subsegments,
                        ..old_elem
                    };
                    assert(self.segments@ == old_segs.update(n - 1, new_elem));
                    lemma_value_update(old_segs, n - 1, new_elem);
                }
                let mut path = Vec::new();
                path.push(n - 1);
                path.append(&mut sub_path);
                proof {
                    assert(path_view(path@) =~= seq![n - 1] + append_path(old_elem.value().subs, nv));
                }
                path
            } else {
                self.segments.push(new);
                proof {
                    lemma_value_push(old_segs, new);
                }
                let mut path = Vec::new();
                path.push(n);
                proof {
                    assert(path_view(path@) =~= seq![n as int]);
                }
                path
            }
        }
    }

    /// Puts `new` just after index `index`: into segment `index` (at its end, recursively) when that
    /// segment is lighter than `new`, else as a new segment at `index + 1`.
    /// Returns the indices that lead to `new` from the list.
    fn merge_or_insert_after_index(&mut self, new: DocSegment<C>, new_weight: i64, index: usize) -> (path:
        Vec<usize>)
        requires
            new_weight == new.header.weight,
            index < old(self).value().len(),
        ensures
            final(self).value() == merge_spec(old(self).value(), index as int, new.value()),
            path_view(path@) == merge_path(old(self).value(), index as int, new.value()),
    {
        let ghost old_segs = self.segments@;
        let ghost nv = new.value();
        proof {
            lemma_segs_value(old_segs);
        }
        let n = self.segments.len();
        assert(index < n);
        let elem_weight = self.segments[index].header.weight;
        if elem_weight < new_weight {
            let ghost old_elem = old_segs[index as int];
            let mut sub_path = self.segments[index].subsegments.append_full_subsegment(new, new_weight);
            proof {
                let new_elem = DocSegment { subsegments: self.segments@[index as int].subsegments, ..old_elem };
                assert(self.segments@ == old_segs.update(index as int, new_elem));
                lemma_value_update(old_segs, index as int, new_elem);
            }
            let mut path = Vec::new();
            path.push(index);
            path.append(&mut sub_path);
            proof {
                assert(path_view(path@) =~= seq![index as int] + append_path(old_elem.value().subs, nv));
            }
            path
        } else {
            self.segments.insert(index + 1, new);
            proof {
                lemma_value_insert(old_segs, index + 1, new);
            }
            let mut path = Vec::new();
            path.push(index + 1);
            proof {
                assert(path_view(path@) =~= seq![index + 1]);
            }
            path
        }
    }

    /// Removes and returns the run of segments from `index` on that are heavier than `new_weight`.
    fn extract_heavier_items(&mut self, new_weight: i64, index: usize) -> (r: DocSegmentList<C>)
        requires
            index <= old(self).value().len(),
        ensures
            ({
                let s = old(self).value();
                let n = heavier_run(s, index as int, new_weight);
                &&& index + n <= s.len()
                &&& r.value() == s.subrange(index as int, index + n)
                &&& final(self).value() == s.subrange(0, index as int) + s.subrange(
                    index + n,
                    s.len() as int,
                )
            }),
    {
        let ghost old_segs = self.segments@;
        let ghost s = segs_value(old_segs);
        proof {
            lemma_segs_value(old_segs);
        }
        let mut new_list: Vec<DocSegment<C>> = Vec::new();
        let ghost mut k: int = 0;
        while index < self.segments.len() && self.segments[index].header.weight > new_weight
            invariant
                index <= old_segs.len(),
                s == segs_value(old_segs),
                s.len() == old_segs.len(),
                0 <= k <= old_segs.len() - index,
                self.segments@ == old_segs.subrange(0, index as int) + old_segs.subrange(
                    index + k,
                    old_segs.len() as int,
                ),
                new_list@ == old_segs.subrange(index as int, index + k),
                heavier_run(s, index as int, new_weight) == k + heavier_run(s, index + k, new_weight),
            decreases old_segs.len() - index - k,
        {
            let ghost before = self.segments@;
            proof {
                lemma_segs_value(old_segs);
                assert(before[index as int] == old_segs[index + k]);
                assert(s[index + k] == old_segs[index + k].value());
            }
            let seg = self.segments.remove(index);
            new_list.push(seg);
            proof {
                k = k + 1;
                assert(self.segments@ =~= old_segs.subrange(0, index as int) + old_segs.subrange(
                    index + k,
                    old_segs.len() as int,
                ));
                assert(new_list@ =~= old_segs.subrange(index as int, index + k));
            }
        }
        proof {
            lemma_segs_value(old_segs);
            lemma_segs_value(self.segments@);
            if index + k < old_segs.len() {
                assert(self.segments@[index as int] == old_segs[index + k]);
                assert(s[index + k] == old_segs[index + k].value());
            }
            assert(heavier_run(s, index + k, new_weight) == 0);
            lemma_value_subrange(old_segs, index as int, index + k);
            lemma_value_subrange(old_segs, 0, index as int);
            lemma_value_subrange(old_segs, index + k, old_segs.len() as int);
            lemma_value_concat(old_segs.subrange(0, index as int), old_segs.subrange(index + k, old_segs.len() as int));
        }
        DocSegmentList { segments: new_list }
    }
}


/// The first place where a segment of `s` is lighter than the one after it is `i`.
pub open spec fn first_ascent<C>(s: Seq<SegView<C>>, i: int) -> bool {
    &&& 0 <= i < s.len() - 1
    &&& s[i].header.weight < s[i + 1].header.weight
    &&& weights_non_increasing(s.subrange(0, i + 1))
}

/// The first segment of `s` that is not heavier than `w` is at `i`.
pub open spec fn first_not_heavier<C>(s: Seq<SegView<C>>, w: i64, i: int) -> bool {
    &&& 0 <= i < s.len()
    &&& s[i].header.weight <= w
    &&& forall|j: int| 0 <= j < i ==> (#[trigger] s[j]).header.weight > w
}

/// `e` reports the first place where a segment of `s` is lighter than the one after it.
pub open spec fn ascent_error<C>(s: Seq<SegView<C>>, e: DocSegmentError) -> bool {
    match e {
        DocSegmentError::NotDescending { earlier, later } => exists|i: int|
            #[trigger] first_ascent(s, i) && s[i].header.weight == earlier && s[i + 1].header.weight == later,
        _ => false,
    }
}

/// `e` reports the first segment of `s` that is not heavier than `w`.
pub open spec fn not_heavier_error<C>(s: Seq<SegView<C>>, w: i64, e: DocSegmentError) -> bool {
    match e {
        DocSegmentError::SubsegmentNotHeavier { weight, subweight } => weight == w && exists|i: int|
            #[trigger] first_not_heavier(s, w, i) && s[i].header.weight == subweight,
        _ => false,
    }
}

proof fn lemma_first_ascent<C>(segs: Seq<DocSegment<C>>, i: int)
    requires
        0 <= i < segs.len() - 1,
        forall|a: int, b: int| #![trigger segs[a], segs[b]] 0 <= a <= b <= i ==> segs[a].header.weight >= segs[b].header.weight,
        segs[i].header.weight < segs[i + 1].header.weight,
    ensures
        first_ascent(segs_value(segs), i),
{
    lemma_segs_value(segs);
    let sv = segs_value(segs);
    let pre = sv.subrange(0, i + 1);
    assert forall|a: int, b: int| 0 <= a <= b < pre.len() implies pre[a].header.weight >= pre[b].header.weight by {
        assert(pre[a] == sv[a] && pre[b] == sv[b]);
        assert(segs[a].header.weight >= segs[b].header.weight);
    }
}

proof fn lemma_no_ascent<C>(segs: Seq<DocSegment<C>>)
    requires
        forall|a: int, b: int| #![trigger segs[a], segs[b]] 0 <= a <= b < segs.len() ==> segs[a].header.weight >= segs[b].header.weight,
    ensures
        weights_non_increasing(segs_value(segs)),
{
    lemma_segs_value(segs);
    let sv = segs_value(segs);
    assert forall|a: int, b: int| 0 <= a <= b < sv.len() implies sv[a].header.weight >= sv[b].header.weight by {
        assert(segs[a].header.weight >= segs[b].header.weight);
    }
}

proof fn lemma_first_not_heavier<C>(segs: Seq<DocSegment<C>>, w: i64, i: int)
    requires
        0 <= i < segs.len(),
        forall|j: int| 0 <= j < i ==> (#[trigger] segs[j]).header.weight > w,
        segs[i].header.weight <= w,
    ensures
        first_not_heavier(segs_value(segs), w, i),
{
    lemma_segs_value(segs);
    let sv = segs_value(segs);
    assert forall|j: int| 0 <= j < i implies (#[trigger] sv[j]).header.weight > w by {
        assert(segs[j].header.weight > w);
    }
}

proof fn lemma_all_heavier<C>(segs: Seq<DocSegment<C>>, w: i64)
    requires
        forall|j: int| 0 <= j < segs.len() ==> (#[trigger] segs[j]).header.weight > w,
    ensures
        all_heavier(segs_value(segs), w),
{
    lemma_segs_value(segs);
    let sv = segs_value(segs);
    assert forall|j: int| 0 <= j < sv.len() implies (#[trigger] sv[j]).header.weight > w by {
        assert(segs[j].header.weight > w);
    }
}

impl<C> DocSegmentList<C> {
    /// A list of the given segments, which must never increase in weight.
    ///
    /// Fails with [DocSegmentError::NotDescending] for the first segment that is lighter than the one
    /// after it.
    pub fn new(segs: Vec<DocSegment<C>>) -> (r: Result<Self, DocSegmentError>)
        ensures
            r is Ok <==> weights_non_increasing(segs_value(segs@)),
            r matches Ok(l) ==> l.value() == segs_value(segs@),
            r matches Err(e) ==> ascent_error(segs_value(segs@), e),
    {
        let ghost sv = segs_value(segs@);
        proof {
            lemma_segs_value(segs@);
        }
        let n = segs.len();
        let mut i: usize = 0;
        while i < n && i < n - 1 && segs[i].header.weight >= segs[i + 1].header.weight
            invariant
                n == segs@.len(),
                0 <= i,
                i < n || n == 0,
                forall|a: int, b: int| #![trigger segs@[a], segs@[b]] 0 <= a <= b <= i && b < n ==> segs@[a].header.weight >= segs@[b].header.weight,
            decreases n - i,
        {
            proof {
                assert forall|a: int, b: int| 0 <= a <= b <= i + 1 && b < n implies #[trigger] segs@[a].header.weight >= #[trigger] segs@[b].header.weight by {
                    if b == i + 1 && a <= i {
                        assert(segs@[a].header.weight >= segs@[i as int].header.weight);
                    }
                }
            }
            i = i + 1;
        }
        if i < n && i < n - 1 {
            let last_weight = segs[i].header.weight;
            let obj_weight = segs[i + 1].header.weight;
            proof {
                lemma_first_ascent(segs@, i as int);
                assert(ascent_error(segs_value(segs@), DocSegmentError::NotDescending { earlier: last_weight, later: obj_weight }));
            }
            return Err(DocSegmentError::NotDescending { earlier: last_weight, later: obj_weight });
        }
        proof {
            lemma_no_ascent(segs@);
        }
        Ok(DocSegmentList { segments: segs })
    }

    /// The segments of the list.
    pub fn list(&self) -> (r: &Vec<DocSegment<C>>)
        ensures
            segs_value(r@) == self.value(),
    {
        &self.segments
    }

    /// Makes a segment for `header` with `contents`, and puts it at the end of the list, or
    /// (recursively) at the end of the last segment when that segment is lighter.
    /// Returns the indices that lead to the new segment from the list.
    pub fn append_header(&mut self, header: Header, contents: C) -> (path: Vec<usize>)
        ensures
            final(self).value() == append_spec(old(self).value(), leaf(header, contents)),
            path_view(path@) == append_path(old(self).value(), leaf(header, contents)),
            seg_at(final(self).value(), path_view(path@)) == leaf(header, contents),
            headers_in_order(final(self).value()) == headers_in_order(old(self).value()).push(header),
            list_wf(old(self).value()) ==> list_wf(final(self).value()),
    {
        proof {
            let x = leaf(header, contents);
            lemma_append_path(self.value(), x);
            lemma_append_order(self.value(), x);
            assert(headers_in_order(x.subs) =~= Seq::<Header>::empty());
            assert(seg_headers(x) =~= seq![header]);
            if list_wf(self.value()) {
                lemma_append_keeps_wf(self.value(), x);
            }
        }
        let new_weight = header.weight;
        let new_docsegment = DocSegment::new_no_header_subsegments(header, contents);
        self.append_full_subsegment(new_docsegment, new_weight)
    }

    /// Makes a segment for `header` with `contents`, and inserts it before index `index`.
    ///
    /// The run of segments from `index` on that are heavier than `header` become its subsegments; the new
    /// segment then goes into segment `index - 1` when that one is lighter, else directly into the list.
    /// Returns the indices that lead to the new segment from the list.
    /// Fails with [DocSegmentError::IndexOutOfRange] when `index` is beyond the end of the list.
    pub fn insert_header(&mut self, index: usize, header: Header, contents: C) -> (r: Result<
        Vec<usize>,
        DocSegmentError,
    >)
        ensures
            index <= old(self).value().len() ==> {
                &&& r matches Ok(path)
                &&& path_view(path@) == insert_path(old(self).value(), index as int, header, contents)
                &&& final(self).value() == insert_spec(old(self).value(), index as int, header, contents)
                &&& seg_at(final(self).value(), path_view(path@)).header == header
                &&& headers_in_order(final(self).value()) == headers_in_order(old(self).value().subrange(0, index as int))
                    + seq![header] + headers_in_order(old(self).value().subrange(index as int, old(self).value().len() as int))
                &&& list_wf(old(self).value()) ==> list_wf(final(self).value())
                &&& segs_in_order(final(self).value()).to_multiset() == segs_in_order(old(self).value()).to_multiset().insert(
                    (header, contents),
                )
            },
            index > old(self).value().len() ==> {
                &&& r == Err::<Vec<usize>, DocSegmentError>(
                    DocSegmentError::IndexOutOfRange { index, len: old(self).value().len() as usize },
                )
                &&& *final(self) == *old(self)
            },
    {
        let len = self.len();
        if index > len {
            return Err(DocSegmentError::IndexOutOfRange { index, len });
        }
        proof {
            lemma_insert_path(self.value(), index as int, header, contents);
            lemma_insert_order(self.value(), index as int, header, contents);
            lemma_insert_keeps_segments(self.value(), index as int, header, contents);
            if list_wf(self.value()) {
                lemma_insert_keeps_wf(self.value(), index as int, header, contents);
            }
        }
        let ghost s = self.value();
        let new_weight = header.weight;
        let heavier = self.extract_heavier_items(new_weight, index);
        let new_docsegment = DocSegment { header, contents, subsegments: heavier };
        let ghost x = new_docsegment.value();
        proof {
            let n = heavier_run(s, index as int, new_weight);
            assert(x == SegView { header, contents, subs: s.subrange(index as int, index + n) });
        }
        if index == 0 {
            let ghost before = self.segments@;
            self.segments.insert(0, new_docsegment);
            proof {
                lemma_value_insert(before, 0, new_docsegment);
            }
            let mut path = Vec::new();
            path.push(0);
            proof {
                assert(path_view(path@) =~= seq![0int]);
            }
            Ok(path)
        } else {
            proof {
                lemma_segs_value(self.segments@);
            }
            Ok(self.merge_or_insert_after_index(new_docsegment, new_weight, index - 1))
        }
    }
}

impl<C> DocSegment<C> {
    /// A segment with the given header, contents and subsegments.
    ///
    /// The subsegments must never increase in weight ([DocSegmentError::NotDescending] otherwise), and
    /// each must be heavier than `header` ([DocSegmentError::SubsegmentNotHeavier] for the first that
    /// is not).
    pub fn new(header: Header, contents: C, subsegments: Vec<DocSegment<C>>) -> (r: Result<
        Self,
        DocSegmentError,
    >)
        ensures
            match r {
                Ok(seg) => {
                    &&& weights_non_increasing(segs_value(subsegments@))
                    &&& all_heavier(segs_value(subsegments@), header.weight)
                    &&& seg.value() == SegView { header, contents, subs: segs_value(subsegments@) }
                },
                Err(e) => ascent_error(segs_value(subsegments@), e) || {
                    &&& weights_non_increasing(segs_value(subsegments@))
                    &&& not_heavier_error(segs_value(subsegments@), header.weight, e)
                },
            },
    {
        let ghost sv = segs_value(subsegments@);
        let subsegments = match DocSegmentList::new(subsegments) {
            Ok(l) => l,
            Err(e) => {
                return Err(e);
            },
        };
        proof {
            lemma_segs_value(subsegments.segments@);
        }
        let weight = header.weight;
        let n = subsegments.segments.len();
        let mut i: usize = 0;
        while i < n && subsegments.segments[i].header.weight > weight
            invariant
                n == subsegments.segments@.len(),
                0 <= i <= n,
                forall|j: int| 0 <= j < i ==> (#[trigger] subsegments.segments@[j]).header.weight > weight,
            decreases n - i,
        {
            i = i + 1;
        }
        if i < n {
            let subweight = subsegments.segments[i].header.weight;
            proof {
                lemma_first_not_heavier(subsegments.segments@, weight, i as int);
                assert(not_heavier_error(sv, weight, DocSegmentError::SubsegmentNotHeavier { weight, subweight }));
            }
            return Err(DocSegmentError::SubsegmentNotHeavier { weight, subweight });
        }
        proof {
            lemma_all_heavier(subsegments.segments@, weight);
        }
        Ok(DocSegment { header, contents, subsegments })
    }

    /// The header of the segment.
    pub fn header(&self) -> (r: &Header)
        ensures
            *r == self.header,
    {
        &self.header
    }

    /// The contents of the segment before its subsegments.
    pub fn contents(&self) -> (r: &C)
        ensures
            *r == self.contents,
    {
        &self.contents
    }

    /// The subsegments of the segment.
    pub fn subsegments(&self) -> (r: &Vec<DocSegment<C>>)
        ensures
            segs_value(r@) == self.value().subs,
    {
        &self.subsegments.segments
    }

    /// Makes a segment for `header` with `contents` and appends it among the subsegments (see
    /// [DocSegmentList::append_header]). The header must be heavier than this segment's
    /// ([DocSegmentError::SubsegmentNotHeavier] otherwise).
    /// Returns the indices that lead to the new segment from the subsegments.
    pub fn append_header(&mut self, header: Header, contents: C) -> (r: Result<Vec<usize>, DocSegmentError>)
        ensures
            header.weight > old(self).header.weight ==> {
                &&& r matches Ok(path)
                &&& path_view(path@) == append_path(old(self).value().subs, leaf(header, contents))
                &&& final(self).value() == SegView {
                    subs: append_spec(old(self).value().subs, leaf(header, contents)),
                    ..old(self).value()
                }
                &&& seg_wf(old(self).value()) ==> seg_wf(final(self).value())
            },
            header.weight <= old(self).header.weight ==> {
                &&& r == Err::<Vec<usize>, DocSegmentError>(
                    DocSegmentError::SubsegmentNotHeavier { weight: old(self).header.weight, subweight: header.weight },
                )
                &&& *final(self) == *old(self)
            },
    {
        let weight = self.header.weight;
        let subweight = header.weight;
        if subweight <= weight {
            return Err(DocSegmentError::SubsegmentNotHeavier { weight, subweight });
        }
        proof {
            if seg_wf(self.value()) {
                lemma_append_heavier(self.value().subs, leaf(header, contents), weight);
            }
        }
        Ok(self.subsegments.append_header(header, contents))
    }

    /// Makes a segment for `header` with `contents` and inserts it among the subsegments before index
    /// `index` (see [DocSegmentList::insert_header]). The header must be heavier than this segment's
    /// ([DocSegmentError::SubsegmentNotHeavier] otherwise).
    pub fn insert_header(&mut self, index: usize, header: Header, contents: C) -> (r: Result<
        Vec<usize>,
        DocSegmentError,
    >)
        ensures
            header.weight <= old(self).header.weight ==> {
                &&& r == Err::<Vec<usize>, DocSegmentError>(
                    DocSegmentError::SubsegmentNotHeavier { weight: old(self).header.weight, subweight: header.weight },
                )
                &&& *final(self) == *old(self)
            },
            header.weight > old(self).header.weight && index <= old(self).value().subs.len() ==> {
                &&& r matches Ok(path)
                &&& path_view(path@) == insert_path(old(self).value().subs, index as int, header, contents)
                &&& final(self).value() == SegView {
                    subs: insert_spec(old(self).value().subs, index as int, header, contents),
                    ..old(self).value()
                }
                &&& seg_wf(old(self).value()) ==> seg_wf(final(self).value())
            },
            header.weight > old(self).header.weight && index > old(self).value().subs.len() ==> {
                &&& r == Err::<Vec<usize>, DocSegmentError>(
                    DocSegmentError::IndexOutOfRange { index, len: old(self).value().subs.len() as usize },
                )
                &&& *final(self) == *old(self)
            },
    {
        let weight = self.header.weight;
        let subweight = header.weight;
        if subweight <= weight {
            return Err(DocSegmentError::SubsegmentNotHeavier { weight, subweight });
        }
        proof {
            if seg_wf(self.value()) && index <= self.value().subs.len() {
                lemma_insert_heavier(self.value().subs, index as int, header, contents, weight);
            }
        }
        self.subsegments.insert_header(index, header, contents)
    }
}

/// A document: front matter `contents`, then the top-level segments.
#[verifier::reject_recursive_types(C)]
#[derive(Debug)]
pub struct Document<C> {
    pub contents: C,
    pub segments: DocSegmentList<C>,
}

impl<C> Document<C> {
    /// A document with the given front matter and no segments.
    pub fn empty(contents: C) -> (r: Self)
        ensures
            r.contents == contents,
            r.segments.value() == Seq::<SegView<C>>::empty(),
    {
        Document { contents, segments: DocSegmentList::empty() }
    }

    /// A document with the given front matter and segments, which must never increase in weight
    /// ([DocSegmentError::NotDescending] for the first that is lighter than the one after it).
    pub fn new(contents: C, segments: Vec<DocSegment<C>>) -> (r: Result<Self, DocSegmentError>)
        ensures
            match r {
                Ok(d) => weights_non_increasing(segs_value(segments@)) && d.segments.value()
                    == segs_value(segments@) && d.contents == contents,
                Err(e) => ascent_error(segs_value(segments@), e),
            },
    {
        match DocSegmentList::new(segments) {
            Ok(segments) => Ok(Document { contents, segments }),
            Err(e) => Err(e),
        }
    }

    /// The front matter.
    pub fn contents(&self) -> (r: &C)
        ensures
            *r == self.contents,
    {
        &self.contents
    }

    /// The top-level segments.
    pub fn segments(&self) -> (r: &Vec<DocSegment<C>>)
        ensures
            segs_value(r@) == self.segments.value(),
    {
        &self.segments.segments
    }

    /// Appends a segment for `header` (see [DocSegmentList::append_header]).
    pub fn append_header(&mut self, header: Header, contents: C) -> (path: Vec<usize>)
        ensures
            final(self).contents == old(self).contents,
            final(self).segments.value() == append_spec(old(self).segments.value(), leaf(header, contents)),
            path_view(path@) == append_path(old(self).segments.value(), leaf(header, contents)),
            headers_in_order(final(self).segments.value()) == headers_in_order(old(self).segments.value()).push(header),
            list_wf(old(self).segments.value()) ==> list_wf(final(self).segments.value()),
    {
        self.segments.append_header(header, contents)
    }

    /// Inserts a segment for `header` before index `index` (see [DocSegmentList::insert_header]).
    pub fn insert_header(&mut self, index: usize, header: Header, contents: C) -> (r: Result<
        Vec<usize>,
        DocSegmentError,
    >)
        ensures
            final(self).contents == old(self).contents,
            index <= old(self).segments.value().len() ==> {
                &&& r matches Ok(path)
                &&& path_view(path@) == insert_path(old(self).segments.value(), index as int, header, contents)
                &&& final(self).segments.value() == insert_spec(old(self).segments.value(), index as int, header, contents)
                &&& list_wf(old(self).segments.value()) ==> list_wf(final(self).segments.value())
            },
            index > old(self).segments.value().len() ==> {
                &&& r == Err::<Vec<usize>, DocSegmentError>(
                    DocSegmentError::IndexOutOfRange { index, len: old(self).segments.value().len() as usize },
                )
                &&& final(self).segments == old(self).segments
            },
    {
        self.segments.insert_header(index, header, contents)
    }
}


} // verus!
