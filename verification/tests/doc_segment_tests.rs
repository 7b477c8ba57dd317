use turnip_text::doc_segment::{DocSegment, DocSegmentError, DocSegmentList, Document, Header};

fn h(weight: i64, id: u64) -> Header {
    Header { weight, id }
}

fn leaf(weight: i64, id: u64) -> DocSegment<u32> {
    DocSegment::new_no_header_subsegments(h(weight, id), 0)
}

/// The tree of segments as (header id, subtrees), for comparing shapes.
#[derive(Debug, PartialEq)]
struct Shape(u64, Vec<Shape>);

fn shape(segs: &Vec<DocSegment<u32>>) -> Vec<Shape> {
    segs.iter().map(|s| Shape(s.header().id, shape(s.subsegments()))).collect()
}

/// A document holding the top-level segments A, B, C with the given weights (ids 1, 2, 3).
fn doc_abc(a: i64, b: i64, c: i64) -> Document<u32> {
    Document::new(0, vec![leaf(a, 1), leaf(b, 2), leaf(c, 3)]).unwrap()
}

#[test]
fn append_lighter_or_equal_header_is_a_sibling() {
    let mut doc: Document<u32> = Document::empty(0);
    let p0 = doc.append_header(h(1, 1), 10);
    let p1 = doc.append_header(h(1, 2), 20);
    let p2 = doc.append_header(h(0, 3), 30);
    assert_eq!(p0, vec![0]);
    assert_eq!(p1, vec![1]);
    assert_eq!(p2, vec![2]);
    assert_eq!(shape(doc.segments()), vec![Shape(1, vec![]), Shape(2, vec![]), Shape(3, vec![])]);
    assert_eq!(*doc.segments()[1].contents(), 20);
}

#[test]
fn append_heavier_header_goes_into_the_last_segment() {
    let mut doc: Document<u32> = Document::empty(0);
    doc.append_header(h(1, 1), 0);
    let p = doc.append_header(h(2, 2), 0);
    let q = doc.append_header(h(3, 3), 0);
    let r = doc.append_header(h(2, 4), 0);
    assert_eq!(p, vec![0, 0]);
    assert_eq!(q, vec![0, 0, 0]);
    assert_eq!(r, vec![0, 1]);
    assert_eq!(
        shape(doc.segments()),
        vec![Shape(1, vec![Shape(2, vec![Shape(3, vec![])]), Shape(4, vec![])])]
    );
}

#[test]
fn insert_heavier_than_previous_merges_into_it() {
    // A = 100, X = 101: [A.append(X), B, C]
    let mut doc = doc_abc(100, 50, 5);
    let path = doc.insert_header(1, h(101, 9), 0).unwrap();
    assert_eq!(path, vec![0, 0]);
    assert_eq!(
        shape(doc.segments()),
        vec![Shape(1, vec![Shape(9, vec![])]), Shape(2, vec![]), Shape(3, vec![])]
    );
}

#[test]
fn insert_between_lighter_and_heavier_stands_alone() {
    // A = 100, X = 10, B = 5: [A, X, B, C]
    let mut doc = doc_abc(100, 5, 1);
    let path = doc.insert_header(1, h(10, 9), 0).unwrap();
    assert_eq!(path, vec![1]);
    assert_eq!(
        shape(doc.segments()),
        vec![Shape(1, vec![]), Shape(9, vec![]), Shape(2, vec![]), Shape(3, vec![])]
    );
}

#[test]
fn insert_takes_one_heavier_segment() {
    // A = 100, X = 10, B = 75, C = 5: [A, X.append(B), C]
    let mut doc = doc_abc(100, 75, 5);
    let path = doc.insert_header(1, h(10, 9), 0).unwrap();
    assert_eq!(path, vec![1]);
    assert_eq!(
        shape(doc.segments()),
        vec![Shape(1, vec![]), Shape(9, vec![Shape(2, vec![])]), Shape(3, vec![])]
    );
}

#[test]
fn insert_takes_the_run_of_heavier_segments() {
    // A = 100, X = 10, B = 75, C = 50: [A, X.append(B, C)]
    let mut doc = doc_abc(100, 75, 50);
    let path = doc.insert_header(1, h(10, 9), 0).unwrap();
    assert_eq!(path, vec![1]);
    assert_eq!(
        shape(doc.segments()),
        vec![Shape(1, vec![]), Shape(9, vec![Shape(2, vec![]), Shape(3, vec![])])]
    );
}

#[test]
fn insert_at_front_and_at_end() {
    let mut doc = doc_abc(10, 5, 1);
    assert_eq!(doc.insert_header(0, h(7, 8), 0).unwrap(), vec![0]);
    assert_eq!(
        shape(doc.segments()),
        vec![Shape(8, vec![Shape(1, vec![])]), Shape(2, vec![]), Shape(3, vec![])]
    );
    assert_eq!(doc.insert_header(3, h(0, 9), 0).unwrap(), vec![3]);
    assert_eq!(doc.segments().len(), 4);
}

#[test]
fn insert_beyond_the_end_is_refused() {
    let mut doc = doc_abc(3, 2, 1);
    let r = doc.insert_header(4, h(0, 9), 0);
    assert_eq!(r, Err(DocSegmentError::IndexOutOfRange { index: 4, len: 3 }));
    assert_eq!(doc.segments().len(), 3);
}

#[test]
fn list_that_gets_heavier_is_refused() {
    let r = DocSegmentList::new(vec![leaf(5, 1), leaf(3, 2), leaf(4, 3)]);
    assert_eq!(r.err(), Some(DocSegmentError::NotDescending { earlier: 3, later: 4 }));
    let ok = DocSegmentList::new(vec![leaf(5, 1), leaf(5, 2), leaf(4, 3)]).unwrap();
    assert_eq!(ok.len(), 3);
    assert_eq!(shape(ok.list()), vec![Shape(1, vec![]), Shape(2, vec![]), Shape(3, vec![])]);
}

#[test]
fn segment_with_lighter_subsegment_is_refused() {
    let r = DocSegment::new(h(5, 1), 0u32, vec![leaf(7, 2), leaf(5, 3)]);
    assert_eq!(r.err(), Some(DocSegmentError::SubsegmentNotHeavier { weight: 5, subweight: 5 }));
    let r = DocSegment::new(h(5, 1), 0u32, vec![leaf(6, 2), leaf(7, 3)]);
    assert_eq!(r.err(), Some(DocSegmentError::NotDescending { earlier: 6, later: 7 }));
    let seg = DocSegment::new(h(5, 1), 0u32, vec![leaf(7, 2), leaf(6, 3)]).unwrap();
    assert_eq!(shape(seg.subsegments()), vec![Shape(2, vec![]), Shape(3, vec![])]);
}

#[test]
fn segment_refuses_headers_that_are_not_heavier() {
    let mut seg = leaf(5, 1);
    assert_eq!(seg.append_header(h(5, 2), 0), Err(DocSegmentError::SubsegmentNotHeavier { weight: 5, subweight: 5 }));
    assert_eq!(seg.append_header(h(6, 2), 0), Ok(vec![0]));
    assert_eq!(seg.insert_header(0, h(4, 3), 0), Err(DocSegmentError::SubsegmentNotHeavier { weight: 5, subweight: 4 }));
    assert_eq!(seg.insert_header(0, h(8, 3), 0), Ok(vec![0]));
    assert_eq!(shape(seg.subsegments()), vec![Shape(3, vec![]), Shape(2, vec![])]);
}

#[test]
fn document_new_checks_its_segments() {
    let r = Document::new(0u32, vec![leaf(1, 1), leaf(2, 2)]);
    assert_eq!(r.err().map(|e| e), Some(DocSegmentError::NotDescending { earlier: 1, later: 2 }));
}

/// The header ids of all segments, at any depth, in document order.
fn ids_in_order(segs: &Vec<DocSegment<u32>>) -> Vec<u64> {
    let mut out = Vec::new();
    for s in segs {
        out.push(s.header().id);
        out.extend(ids_in_order(s.subsegments()));
    }
    out
}

#[test]
fn insert_keeps_every_segment_once_and_adds_only_the_new_one() {
    let mut doc: Document<u32> = Document::empty(0);
    doc.append_header(h(1, 1), 0);
    doc.append_header(h(5, 2), 0);
    doc.append_header(h(0, 3), 0);
    doc.append_header(h(6, 4), 0);
    assert_eq!(ids_in_order(doc.segments()), vec![1, 2, 3, 4]);
    doc.insert_header(1, h(4, 9), 0).unwrap();
    // The segments before index 1 (1 and its subsegment 2), then the new one, then 3 and its subsegment 4.
    assert_eq!(ids_in_order(doc.segments()), vec![1, 2, 9, 3, 4]);
    assert_eq!(
        shape(doc.segments()),
        vec![Shape(1, vec![Shape(2, vec![]), Shape(9, vec![])]), Shape(3, vec![Shape(4, vec![])])]
    );
}
