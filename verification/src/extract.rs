//! The link extractor: from a document tree to the links of its anchors.

use vstd::prelude::*;

use crate::dom::{attrs_view, Attribute, AttributeView, DocumentTree, NodeKind, NodeKindView, Tree};
use crate::url::{is_link, keeps, link_of, normalize, starts_with};

verus! {

broadcast use {
    vstd::std_specs::vec::axiom_vec_index_decreases,
    vstd::seq::axiom_seq_index_decreases,
    vstd::seq::axiom_seq_subrange_decreases,
};

/// The local name of an anchor element: `a`.
pub open spec fn anchor_name() -> Seq<char> {
    seq!['a']
}

/// The name of the attribute that holds an anchor's reference: `href`.
pub open spec fn href_name() -> Seq<char> {
    seq!['h', 'r', 'e', 'f']
}

/// The value of the last attribute named `href`, if there is one.
pub open spec fn last_href(attrs: Seq<AttributeView>) -> Option<Seq<char>>
    decreases attrs.len(),
{
    if attrs.len() == 0 {
        None
    } else if attrs.last().name == href_name() {
        Some(attrs.last().value)
    } else {
        last_href(attrs.drop_last())
    }
}

/// The links that a node contributes by itself: for an anchor, the link that
/// its last `href` attribute stands for, if it stands for one; for any other
/// node, none.
pub open spec fn own_links(kind: NodeKindView) -> Seq<Seq<char>> {
    match kind {
        NodeKindView::Element { name, attrs } => {
            if name == anchor_name() {
                match last_href(attrs) {
                    Some(href) => match link_of(href) {
                        Some(url) => seq![url],
                        None => Seq::empty(),
                    },
                    None => Seq::empty(),
                }
            } else {
                Seq::empty()
            }
        },
        NodeKindView::Other => Seq::empty(),
    }
}

/// The links of a tree in document order: those of the node itself, then
/// those of its children from first to last.
pub open spec fn links_of(tree: Tree) -> Seq<Seq<char>>
    decreases tree,
{
    own_links(tree.kind) + links_in(tree.children)
}

/// The links of a sequence of trees, from the first tree to the last.
pub open spec fn links_in(forest: Seq<Tree>) -> Seq<Seq<char>>
    decreases forest,
{
    if forest.len() == 0 {
        Seq::empty()
    } else {
        links_in(forest.drop_last()) + links_of(forest.last())
    }
}

/// Whether the attribute at `at` is the last that is named `href`.
pub open spec fn is_last_href(attrs: Seq<AttributeView>, at: int) -> bool {
    &&& 0 <= at < attrs.len()
    &&& attrs[at].name == href_name()
    &&& forall|later: int| at < later < attrs.len() ==> (#[trigger] attrs[later]).name != href_name()
}

/// Of several attributes named `href` the last one in source order wins,
/// whatever the others hold.
pub proof fn lemma_last_href_is_last(attrs: Seq<AttributeView>)
    ensures
        match last_href(attrs) {
            Some(value) => exists|at: int| #[trigger]
                is_last_href(attrs, at) && attrs[at].value == value,
            None => forall|at: int| 0 <= at < attrs.len() ==> (#[trigger] attrs[at]).name != href_name(),
        },
    decreases attrs.len(),
{
    if attrs.len() == 0 {
    } else if attrs.last().name == href_name() {
        assert(is_last_href(attrs, attrs.len() - 1));
    } else {
        let rest = attrs.drop_last();
        lemma_last_href_is_last(rest);
        match last_href(rest) {
            Some(value) => {
                let at = choose|at: int| #[trigger] is_last_href(rest, at) && rest[at].value == value;
                assert forall|later: int| at < later < attrs.len() implies (#[trigger] attrs[later]).name
                    != href_name() by {
                    if later < rest.len() {
                        assert(rest[later] == attrs[later]);
                    }
                }
                assert(is_last_href(attrs, at));
            },
            None => {
                assert forall|at: int| 0 <= at < attrs.len() implies (#[trigger] attrs[at]).name
                    != href_name() by {
                    if at < rest.len() {
                        assert(rest[at] == attrs[at]);
                    }
                }
            },
        }
    }
}

/// The number of anchors in a tree.
pub open spec fn anchors_of(tree: Tree) -> nat
    decreases tree,
{
    (if tree.kind matches NodeKindView::Element { name, .. } && name == anchor_name() {
        1nat
    } else {
        0nat
    }) + anchors_in(tree.children)
}

/// The number of anchors in a sequence of trees.
pub open spec fn anchors_in(forest: Seq<Tree>) -> nat
    decreases forest,
{
    if forest.len() == 0 {
        0
    } else {
        anchors_in(forest.drop_last()) + anchors_of(forest.last())
    }
}

/// A node contributes at most one link, and none unless it is an anchor
/// with an attribute named `href`.
pub proof fn lemma_own_links_at_most_one(kind: NodeKindView)
    ensures
        own_links(kind).len() <= 1,
        own_links(kind).len() == 1 ==> (kind matches NodeKindView::Element { name, attrs }
            && name == anchor_name() && last_href(attrs) is Some),
{
}

/// At most one link for each anchor: a tree has no more links than
/// anchors.
pub proof fn lemma_at_most_one_link_per_anchor(tree: Tree)
    ensures
        links_of(tree).len() <= anchors_of(tree),
    decreases tree,
{
    lemma_forest_at_most_one_link_per_anchor(tree.children);
}

/// A sequence of trees has no more links than anchors.
pub proof fn lemma_forest_at_most_one_link_per_anchor(forest: Seq<Tree>)
    ensures
        links_in(forest).len() <= anchors_in(forest),
    decreases forest,
{
    if forest.len() > 0 {
        lemma_forest_at_most_one_link_per_anchor(forest.drop_last());
        lemma_at_most_one_link_per_anchor(forest.last());
    }
}

/// Every link of a tree begins with `http`: what an anchor refers to
/// otherwise (a relative path, `mailto:`, `javascript:`, a fragment) is left
/// out.
pub proof fn lemma_links_are_kept(tree: Tree)
    ensures
        forall|i: int| 0 <= i < links_of(tree).len() ==> is_link(#[trigger] links_of(tree)[i]),
    decreases tree,
{
    lemma_forest_links_are_kept(tree.children);
    let own = own_links(tree.kind);
    let below = links_in(tree.children);
    assert forall|i: int| 0 <= i < links_of(tree).len() implies is_link(
        #[trigger] links_of(tree)[i],
    ) by {
        if i < own.len() {
            assert(links_of(tree)[i] == own[i]);
        } else {
            assert(links_of(tree)[i] == below[i - own.len()]);
        }
    }
}

/// Every link of a sequence of trees begins with `http`.
pub proof fn lemma_forest_links_are_kept(forest: Seq<Tree>)
    ensures
        forall|i: int| 0 <= i < links_in(forest).len() ==> is_link(#[trigger] links_in(forest)[i]),
    decreases forest,
{
    if forest.len() > 0 {
        lemma_forest_links_are_kept(forest.drop_last());
        lemma_links_are_kept(forest.last());
        let first = links_in(forest.drop_last());
        let last = links_of(forest.last());
        assert forall|i: int| 0 <= i < links_in(forest).len() implies is_link(
            #[trigger] links_in(forest)[i],
        ) by {
            if i < first.len() {
                assert(links_in(forest)[i] == first[i]);
            } else {
                assert(links_in(forest)[i] == last[i - first.len()]);
            }
        }
    }
}

/// Whether two strings hold the same characters.
pub fn same_chars(a: &str, b: &str) -> (same: bool)
    ensures
        same == (a@ == b@),
{
    if a.unicode_len() != b.unicode_len() {
        return false;
    }
    let same = starts_with(a, b);
    assert(a@.subrange(0, a@.len() as int) =~= a@);
    same
}

/// The value of the last attribute named `href`, if there is one.
pub fn find_href(attrs: &Vec<Attribute>) -> (found: Option<&String>)
    ensures
        match found {
            Some(value) => last_href(attrs_view(attrs@)) == Some(value@),
            None => last_href(attrs_view(attrs@)) is None,
        },
{
    proof {
        reveal_strlit("href");
        assert("href"@ =~= href_name());
    }
    let ghost all = attrs_view(attrs@);
    let mut i: usize = attrs.len();
    assert(all.take(i as int) =~= all);
    while i > 0
        invariant
            i <= attrs.len(),
            all == attrs_view(attrs@),
            "href"@ == href_name(),
            last_href(all) == last_href(all.take(i as int)),
        decreases i,
    {
        assert(all.take(i as int).drop_last() =~= all.take(i - 1));
        if same_chars(attrs[i - 1].name.as_str(), "href") {
            return Some(&attrs[i - 1].value);
        }
        i -= 1;
    }
    None
}

/// Appends to `acc` the links of the tree under `node`, in document order.
///
/// An anchor contributes the value of its last `href` attribute, made
/// absolute where it is protocol-relative, if that begins with `http`.
/// Nothing is removed from `acc` and no link is left out because it occurs
/// twice. What is returned is `acc` as it then stands.
pub fn extract_links<'a>(node: &DocumentTree, acc: &'a mut Vec<String>) -> (all: &'a Vec<String>)
    ensures
        final(acc).deep_view() == old(acc).deep_view() + links_of(node@),
        *all == *final(acc),
    decreases node,
{
    let ghost before = acc.deep_view();
    proof {
        reveal_strlit("a");
        assert("a"@ =~= anchor_name());
    }
    match &node.kind {
        NodeKind::Element { name, attrs } => {
            if same_chars(name.as_str(), "a") {
                match find_href(attrs) {
                    Some(value) => {
                        let url = normalize(value.clone());
                        if keeps(url.as_str()) {
                            acc.push(url);
                        }
                    },
                    None => {},
                }
            }
        },
        NodeKind::Other => {},
    }
    assert(acc.deep_view() =~= before + own_links(node@.kind));
    let mut i: usize = 0;
    assert(node@.children.take(0) =~= Seq::<Tree>::empty());
    while i < node.children.len()
        invariant
            i <= node.children.len(),
            acc.deep_view() == before + own_links(node@.kind) + links_in(
                node@.children.take(i as int),
            ),
        decreases node.children.len() - i,
    {
        extract_links(&node.children[i], acc);
        proof {
            let next = node@.children.take(i + 1);
            assert(next.drop_last() =~= node@.children.take(i as int));
            assert(next.last() == node.children[i as int]@);
            assert(acc.deep_view() =~= before + own_links(node@.kind) + links_in(next));
        }
        i += 1;
    }
    assert(node@.children.take(i as int) =~= node@.children);
    assert(acc.deep_view() =~= before + links_of(node@));
    acc
}

/// The links of the document under `root`, in document order.
pub fn extract(root: &DocumentTree) -> (links: Vec<String>)
    ensures
        links.deep_view() == links_of(root@),
{
    let mut links: Vec<String> = Vec::new();
    assert(links.deep_view() =~= Seq::<Seq<char>>::empty());
    extract_links(root, &mut links);
    links
}

} // verus!
