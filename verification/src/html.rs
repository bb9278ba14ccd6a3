//! Parsing of a fetched document, which `html5ever` does.

use html5ever::rcdom::{Handle, RcDom};
use html5ever::tendril::TendrilSink;
use html5ever::ParseOpts;
use vstd::prelude::*;

use crate::dom::{Attribute, DocumentTree, NodeKind, Tree};

verus! {

/// A node of the tree that `html5ever` builds, `html5ever::rcdom::Node`.
/// Nothing is known of it here: it only passes from the parser to `node_of`.
#[verifier::external_type_specification]
#[verifier::external_body]
pub struct ExDomNode(html5ever::rcdom::Node);

/// The document tree that `html5ever` builds from `bytes`, read as UTF-8 with
/// ill-formed sequences replaced, under its default options: for each node
/// of the tree, whether it is an element, and then its local name and its
/// attributes (local name and value, in the order in which the parser kept
/// them), and its children in document order.
pub uninterp spec fn html_tree(bytes: Seq<u8>) -> Tree;

/// Copies the tree under a node of `html5ever::rcdom` into a `DocumentTree`:
/// the fields `data` and `children` of the node are read; an element gives
/// its local name and its attributes in their order, any other kind of node
/// gives `NodeKind::Other`, and the children follow in their order. The
/// contents of a `template` element, which the parser keeps apart from the
/// children, are not copied.
///
/// Nothing is claimed of the result. The only caller is `parse_html`, which
/// hands in the root of the tree that the parser has just built.
#[verifier::external_body]
fn node_of(handle: &Handle) -> DocumentTree {
    let children = handle.children.borrow().iter().map(node_of).collect();
    let kind = match handle.data {
        html5ever::rcdom::NodeData::Element { ref name, ref attrs, .. } => NodeKind::Element {
            name: name.local.to_string(),
            attrs: attrs.borrow().iter().map(|a| Attribute {
                name: a.name.local.to_string(),
                value: a.value.to_string(),
            }).collect(),
        },
        _ => NodeKind::Other,
    };
    DocumentTree { kind, children }
}

/// The longest body, in bytes, that is handed to the parser.
///
/// The parser keeps each piece of text in a buffer of `tendril`, whose
/// capacity is a power of two that must fit in 32 bits and be allocated in
/// one piece. A body can grow threefold on its way into one buffer: each
/// byte that is no UTF-8, and in places each zero byte, becomes a
/// replacement character of three bytes. Three times this bound is less
/// than `2^30`, so that no buffer is asked to hold more than that.
pub const MAX_BODY_LEN: usize = 0x1000_0000;

/// Parses `bytes` as an HTML document: `html5ever::parse_document` with an
/// `RcDom` as its sink and the default options, fed the bytes at once
/// through `Parser::from_utf8` and `TendrilSink::one`; the tree under the
/// document node is then copied by `node_of`.
///
/// The contract gives the result its name and no more: the tree depends on
/// the bytes alone, and what it is for given bytes is not stated.
///
/// The parser does not take every sequence of bytes. `tendril` panics on a
/// slice of more than `u32::MAX` bytes, and where one of its buffers would
/// have to grow beyond `2^31` bytes, which a shorter body can bring about
/// with text that is no UTF-8. Bodies longer than `MAX_BODY_LEN` are
/// therefore left out. Within the bound the parser panics only where it
/// finds itself in a state that its authors hold to be impossible; no input
/// is known to lead there. The parser's sink and the copy use memory, and
/// the copy stack, in proportion to the depth of the tree.
#[verifier::external_body]
pub(crate) fn parse_html(bytes: &[u8]) -> (tree: DocumentTree)
    requires
        bytes@.len() <= MAX_BODY_LEN,
    ensures
        tree@ == html_tree(bytes@),
{
    let dom = html5ever::parse_document(RcDom::default(), ParseOpts::default())
        .from_utf8()
        .one(bytes);
    node_of(&dom.document)
}

} // verus!
