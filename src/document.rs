//! Splitting a markdown document: parsing through the `markdown` crate, and
//! cutting the text at the headings of the parsed tree.
use vstd::prelude::*;
use vstd::string::StringSliceAdditionalSpecFns;

use crate::error::SplitError;
use crate::outline::{find_split_points, split_points, Element};
use crate::laws::{lemma_sections_not_empty, lemma_sections_rebuild_text};
use crate::sections::{cut_result, joined, section_bytes, slice_sections};

verus! {

/// A parsed markdown tree of the `markdown` crate, carried through opaquely.
#[verifier::external_type_specification]
#[verifier::external_body]
pub struct ExMdastNode(markdown::mdast::Node);

/// The configuration of the `markdown` parser.
#[verifier::external_type_specification]
#[verifier::external_body]
pub struct ExParseOptions(markdown::ParseOptions);

/// The diagnostic that the `markdown` parser fails with.
#[verifier::external_type_specification]
#[verifier::external_body]
pub struct ExMessage(markdown::message::Message);

/// Relies on markdown::to_mdast, which turns a text into a syntax tree or
/// fails with a message; nothing is promised of the tree.
pub assume_specification[ markdown::to_mdast ](
    value: &str,
    options: &markdown::ParseOptions,
) -> Result<markdown::mdast::Node, markdown::message::Message>;

/// The model of the tree that markdown::to_mdast builds for `text` under
/// GitHub flavored markdown: its root and, for each child of the root, its
/// kind and, for a heading, the byte offset at which it starts.
pub uninterp spec fn gfm_outline(text: Seq<char>) -> Element;

/// Relies on markdown::to_mdast with markdown::ParseOptions::gfm (tables,
/// strikethrough, autolink literals, footnotes, task lists): the tree depends
/// on the text alone, and parsing never fails where MDX is off. The root's
/// children are read one level deep, as the crate builds a root only at the
/// top of a tree.
#[verifier::external_body]
fn parse_gfm_outline(text: &str) -> (r: Result<Element, String>)
    ensures
        r is Ok,
        r->Ok_0 == gfm_outline(text@),
{
    match markdown::to_mdast(text, &markdown::ParseOptions::gfm()) {
        Ok(markdown::mdast::Node::Root(root)) => Ok(Element::Root(root.children.iter().map(
            |child| match child {
                markdown::mdast::Node::Heading(h) => Element::Heading(
                    h.position.as_ref().map(|p| p.start.offset),
                ),
                _ => Element::Other,
            },
        ).collect())),
        Ok(_) => Ok(Element::Other),
        Err(message) => Err(message.to_string()),
    }
}

/// What splitting reads of one node of a `markdown` syntax tree.
enum Shape<'a> {
    /// The document root, with its children in document order.
    Root(&'a Vec<markdown::mdast::Node>),
    /// A heading, with the byte offset at which it starts where known.
    Heading(Option<usize>),
    /// Any other kind of node.
    Other,
}

/// Relies on the variants of markdown::mdast::Node: a root's children, and
/// a heading's position, whose start offset counts bytes of the source.
#[verifier::external_body]
fn shape_of(node: &markdown::mdast::Node) -> (r: Shape<'_>) {
    match node {
        markdown::mdast::Node::Root(root) => Shape::Root(&root.children),
        markdown::mdast::Node::Heading(heading) => Shape::Heading(
            heading.position.as_ref().map(|p| p.start.offset),
        ),
        _ => Shape::Other,
    }
}

/// Relies on the Display impl of markdown::message::Message: the place,
/// reason and rule of the diagnostic as text.
#[verifier::external_body]
fn message_text(message: &markdown::message::Message) -> (r: String) {
    message.to_string()
}

/// The model of a child of the root. The `markdown` crate builds a root
/// only at the top of a tree, so a child is never itself a root.
fn block_of(node: &markdown::mdast::Node) -> (r: Element)
    ensures
        r is Heading || r is Other,
{
    match shape_of(node) {
        Shape::Heading(start) => Element::Heading(start),
        _ => Element::Other,
    }
}

/// The model of a `markdown` syntax tree: its root with the kind, and for a
/// heading the start offset, of each child.
fn outline_of(tree: &markdown::mdast::Node) -> (r: Element)
    ensures
        r matches Element::Root(blocks) ==> forall|j: int|
            0 <= j < blocks@.len() ==> (#[trigger] blocks@[j] is Heading || blocks@[j] is Other),
{
    match shape_of(tree) {
        Shape::Root(children) => {
            let mut blocks: Vec<Element> = Vec::new();
            let mut i: usize = 0;
            while i < children.len()
                invariant
                    i <= children@.len(),
                    forall|j: int|
                        0 <= j < blocks@.len() ==> (#[trigger] blocks@[j] is Heading
                            || blocks@[j] is Other),
                decreases children@.len() - i,
            {
                blocks.push(block_of(&children[i]));
                i = i + 1;
            }
            Element::Root(blocks)
        },
        Shape::Heading(start) => Element::Heading(start),
        Shape::Other => Element::Other,
    }
}

/// Cuts `text` at the split points of a parsed tree: one section per
/// positioned heading, and one for any content before the first heading;
/// the whole text where there is no heading. Fails only where the tree's
/// offsets do not cut the text well.
pub fn split_outline<'a>(text: &'a str, tree: &Element) -> (r: Result<Vec<&'a str>, SplitError>)
    ensures
        r is Ok <==> cut_result(text.spec_bytes(), split_points(*tree)) is Some,
        r matches Ok(s) ==> Some(section_bytes(s@)) == cut_result(
            text.spec_bytes(),
            split_points(*tree),
        ),
        r matches Err(e) ==> e == SplitError::MalformedPositions,
{
    let points = find_split_points(tree);
    slice_sections(text, &points)
}

/// Splits a markdown document into sections, one per heading, parsing it with
/// `options` or, where none are given, with GitHub flavored markdown.
/// Fails with the parser's diagnostic where the parser rejects the text, and
/// where the parsed offsets do not cut the text well.
pub fn split<'a>(text: &'a str, options: Option<&markdown::ParseOptions>) -> (r: Result<
    Vec<&'a str>,
    SplitError,
>)
    ensures
        options is None ==> (r is Ok <==> cut_result(
            text.spec_bytes(),
            split_points(gfm_outline(text@)),
        ) is Some),
        options is None ==> (r matches Ok(s) ==> Some(section_bytes(s@)) == cut_result(
            text.spec_bytes(),
            split_points(gfm_outline(text@)),
        )),
        r matches Err(SplitError::ParseFailure(_)) ==> options is Some,
        r matches Ok(s) ==> exists|tree: Element|
            Some(section_bytes(s@)) == cut_result(text.spec_bytes(), split_points(tree)),
        r matches Ok(s) ==> joined(section_bytes(s@)) == text.spec_bytes(),
        r matches Ok(s) ==> s@.len() >= 1,
{
    let tree = match options {
        None => match parse_gfm_outline(text) {
            Ok(tree) => tree,
            Err(message) => return Err(SplitError::ParseFailure(message)),
        },
        Some(options) => match markdown::to_mdast(text, options) {
            Ok(ast) => outline_of(&ast),
            Err(message) => return Err(SplitError::ParseFailure(message_text(&message))),
        },
    };
    let r = split_outline(text, &tree);
    proof {
        if r is Ok {
            lemma_sections_rebuild_text(text, tree);
            lemma_sections_not_empty(text, tree);
        }
    }
    r
}

} // verus!
