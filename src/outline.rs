//! The structural model of a parsed document and the extraction of split points.
use vstd::prelude::*;

verus! {

/// A node of a parsed document tree, reduced to what splitting reads.
///
/// A `Root` holds block-level children in document order; a `Heading`
/// carries the byte offset at which it starts, when the parser recorded
/// one; every other kind of node is `Other`.
pub enum Element {
    Root(Vec<Element>),
    Heading(Option<usize>),
    Other,
}

/// The start offsets of the positioned headings in `n`, in document order.
pub open spec fn node_offsets(n: Element) -> Seq<usize>
    decreases n, 0int,
{
    match n {
        Element::Root(children) => forest_offsets(children@, children@.len() as int),
        Element::Heading(Some(start)) => seq![start],
        _ => Seq::empty(),
    }
}

/// The start offsets of the positioned headings in the first `k` trees of `s`.
pub open spec fn forest_offsets(s: Seq<Element>, k: int) -> Seq<usize>
    decreases s, k,
{
    if k <= 0 || k > s.len() {
        Seq::empty()
    } else {
        forest_offsets(s, k - 1) + node_offsets(s[k - 1])
    }
}

/// The split points of `n`: its heading offsets, led by zero where the first
/// heading does not start the document. No heading gives no split point.
pub open spec fn split_points(n: Element) -> Seq<usize> {
    let h = node_offsets(n);
    if h.len() > 0 && h[0] != 0 {
        seq![0usize] + h
    } else {
        h
    }
}

fn collect_headings(node: &Element, points: &mut Vec<usize>)
    ensures
        final(points)@ == old(points)@ + node_offsets(*node),
    decreases node,
{
    match node {
        Element::Root(children) => {
            let ghost start = points@;
            let mut i: usize = 0;
            while i < children.len()
                invariant
                    i <= children@.len(),
                    *node == Element::Root(*children),
                    points@ == start + forest_offsets(children@, i as int),
                decreases children@.len() - i,
            {
                proof {
                    let kids = node->Root_0;
                    assert(decreases_to!(*node => node->Root_0));
                    assert(decreases_to!(kids => kids@));
                    assert(decreases_to!(kids@ => kids@[i as int]));
                }
                collect_headings(&children[i], points);
                i = i + 1;
            }
        },
        Element::Heading(Some(start)) => {
            points.push(*start);
        },
        _ => {},
    }
}

/// The split points of a parsed tree: the start offset of each positioned
/// heading in document order, with a leading zero inserted where the first
/// heading does not start at offset zero.
pub fn find_split_points(node: &Element) -> (r: Vec<usize>)
    ensures
        r@ == split_points(*node),
{
    let mut points: Vec<usize> = Vec::new();
    collect_headings(node, &mut points);
    if points.len() > 0 && points[0] != 0 {
        points.insert(0, 0);
    }
    points
}

} // verus!
