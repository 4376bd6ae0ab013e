//! What holds of every split: the sections rebuild the document, there is at
//! least one, and they correspond to the headings.
use vstd::prelude::*;
use vstd::string::StringSliceAdditionalSpecFns;
use vstd::utf8::*;

use crate::outline::{node_offsets, split_points, Element};
use crate::sections::{
    boundaries, cut_result, joined, lemma_cuts_in_bounds, lemma_joined_pieces, pieces, well_cut,
};

verus! {

broadcast use vstd::utf8::group_utf8_lib;

/// The sections that splitting `text` at the headings of `tree` gives, where
/// the tree's offsets cut the text well.
pub open spec fn sections_of(text: &str, tree: Element) -> Seq<Seq<u8>> {
    cut_result(text.spec_bytes(), split_points(tree))->Some_0
}

/// The cuts made at the headings of `tree` start at zero and end at the end
/// of the text.
proof fn lemma_cuts_span_text(text: &str, tree: Element)
    ensures
        ({
            let c = boundaries(split_points(tree), text.spec_bytes().len() as int);
            &&& c.len() >= 2
            &&& c[0] == 0
            &&& c[c.len() - 1] == text.spec_bytes().len()
            &&& c.len() == if node_offsets(tree).len() == 0 {
                2
            } else if node_offsets(tree)[0] == 0 {
                node_offsets(tree).len() + 1
            } else {
                node_offsets(tree).len() + 2
            }
        }),
{
}

/// Concatenating the sections in order gives back the text, byte for byte.
pub proof fn lemma_sections_rebuild_text(text: &str, tree: Element)
    requires
        cut_result(text.spec_bytes(), split_points(tree)) is Some,
    ensures
        joined(sections_of(text, tree)) == text.spec_bytes(),
{
    let bytes = text.spec_bytes();
    let c = boundaries(split_points(tree), bytes.len() as int);
    lemma_cuts_span_text(text, tree);
    lemma_cuts_in_bounds(bytes, c);
    lemma_joined_pieces(bytes, c, c.len() - 1);
    assert(c.subrange(0, c.len() as int) =~= c);
    assert(bytes.subrange(0, bytes.len() as int) =~= bytes);
}

/// Splitting gives at least one section.
pub proof fn lemma_sections_not_empty(text: &str, tree: Element)
    requires
        cut_result(text.spec_bytes(), split_points(tree)) is Some,
    ensures
        sections_of(text, tree).len() >= 1,
{
    lemma_cuts_span_text(text, tree);
}

/// A tree without a positioned heading splits the text into one section,
/// the whole text.
pub proof fn lemma_no_heading_one_section(text: &str, tree: Element)
    requires
        node_offsets(tree).len() == 0,
    ensures
        cut_result(text.spec_bytes(), split_points(tree)) == Some(seq![text.spec_bytes()]),
{
    let bytes = text.spec_bytes();
    let c = boundaries(split_points(tree), bytes.len() as int);
    is_char_boundary_start_end_of_seq(bytes);
    assert(c =~= seq![0int, bytes.len() as int]);
    assert(well_cut(bytes, c));
    assert(bytes.subrange(0, bytes.len() as int) =~= bytes);
    assert(pieces(bytes, c) =~= seq![bytes]);
}

/// Where the first heading starts the text, the first section starts with
/// that heading and runs to the next heading or the end, and there is one
/// section per heading: no empty section comes first.
pub proof fn lemma_leading_heading(text: &str, tree: Element)
    requires
        cut_result(text.spec_bytes(), split_points(tree)) is Some,
        node_offsets(tree).len() > 0,
        node_offsets(tree)[0] == 0,
    ensures
        ({
            let h = node_offsets(tree);
            let bytes = text.spec_bytes();
            let end = if h.len() > 1 {
                h[1] as int
            } else {
                bytes.len() as int
            };
            &&& sections_of(text, tree).len() == h.len()
            &&& sections_of(text, tree)[0] == bytes.subrange(0, end)
        }),
{
    lemma_cuts_span_text(text, tree);
}

/// Where content precedes the first heading, the first section is exactly
/// that content, up to the first heading's start.
pub proof fn lemma_front_matter(text: &str, tree: Element)
    requires
        cut_result(text.spec_bytes(), split_points(tree)) is Some,
        node_offsets(tree).len() > 0,
        node_offsets(tree)[0] != 0,
    ensures
        sections_of(text, tree)[0] == text.spec_bytes().subrange(0, node_offsets(tree)[0] as int),
{
    lemma_cuts_span_text(text, tree);
}

/// There is one section per positioned heading, one more where content
/// precedes the first heading, and one in all where there is no heading.
pub proof fn lemma_section_count(text: &str, tree: Element)
    requires
        cut_result(text.spec_bytes(), split_points(tree)) is Some,
    ensures
        sections_of(text, tree).len() == if node_offsets(tree).len() == 0 {
            1
        } else if node_offsets(tree)[0] == 0 {
            node_offsets(tree).len()
        } else {
            node_offsets(tree).len() + 1
        },
{
    lemma_cuts_span_text(text, tree);
}

} // verus!
