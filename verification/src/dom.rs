//! The document tree that links are extracted from.

use vstd::prelude::*;

verus! {

broadcast use vstd::std_specs::vec::axiom_vec_index_decreases;

/// One attribute of an element, as the characters of its name and value.
pub struct AttributeView {
    pub name: Seq<char>,
    pub value: Seq<char>,
}

/// What a node is, as plain values.
pub enum NodeKindView {
    Element { name: Seq<char>, attrs: Seq<AttributeView> },
    Other,
}

/// A document tree as a plain value.
pub struct Tree {
    pub kind: NodeKindView,
    pub children: Seq<Tree>,
}

/// One attribute of an element: its local name and its value.
#[derive(Debug)]
pub struct Attribute {
    pub name: String,
    pub value: String,
}

/// What a node is: an element with its local name and its attributes in
/// source order, or anything else (the document itself, text, a comment, a
/// doctype, a processing instruction).
#[derive(Debug)]
pub enum NodeKind {
    Element { name: String, attrs: Vec<Attribute> },
    Other,
}

/// A node of a document tree with its children in document order.
#[derive(Debug)]
pub struct DocumentTree {
    pub kind: NodeKind,
    pub children: Vec<DocumentTree>,
}

impl View for Attribute {
    type V = AttributeView;

    open spec fn view(&self) -> AttributeView {
        AttributeView { name: self.name@, value: self.value@ }
    }
}

/// The attributes of an element as plain values, in the same order.
pub open spec fn attrs_view(attrs: Seq<Attribute>) -> Seq<AttributeView> {
    Seq::new(attrs.len(), |i: int| attrs[i]@)
}

impl View for NodeKind {
    type V = NodeKindView;

    open spec fn view(&self) -> NodeKindView {
        match self {
            NodeKind::Element { name, attrs } => NodeKindView::Element {
                name: name@,
                attrs: attrs_view(attrs@),
            },
            NodeKind::Other => NodeKindView::Other,
        }
    }
}

impl View for DocumentTree {
    type V = Tree;

    open spec fn view(&self) -> Tree
        decreases self,
    {
        Tree {
            kind: self.kind@,
            children: Seq::new(
                self.children@.len(),
                |i: int|
                    if 0 <= i < self.children@.len() {
                        self.children@[i]@
                    } else {
                        Tree { kind: NodeKindView::Other, children: Seq::empty() }
                    },
            ),
        }
    }
}

} // verus!
