//! Page content: the nodes that a page is made of.

use vstd::prelude::*;

verus! {

/// The element kinds that generated pages are made of.
#[derive(Clone, Copy, Debug, PartialEq, Eq, Structural)]
pub enum Tag {
    A,
    Img,
    P,
}

/// The attributes of an element.
pub struct NodeElementAttr {
    pub src: Option<String>,
    pub href: Option<String>,
}

/// An element with its attributes and children.
pub struct NodeElement {
    pub tag: Tag,
    pub attrs: Option<NodeElementAttr>,
    pub children: Option<Vec<Node>>,
}

/// A piece of page content: a text or an element.
pub enum Node {
    Text(String),
    NodeElement(NodeElement),
}

/// What an element's attributes hold.
pub struct AttrView {
    pub src: Option<Seq<char>>,
    pub href: Option<Seq<char>>,
}

/// What a node shows.
pub enum NodeView {
    Text(Seq<char>),
    Element { tag: Tag, attrs: Option<AttrView>, children: Option<Seq<NodeView>> },
}

/// The characters of a text that may be absent.
pub open spec fn opt_text(s: Option<String>) -> Option<Seq<char>> {
    match s {
        Some(t) => Some(t@),
        None => None,
    }
}

impl View for NodeElementAttr {
    type V = AttrView;

    open spec fn view(&self) -> AttrView {
        AttrView { src: opt_text(self.src), href: opt_text(self.href) }
    }
}

/// What a node shows, its children included.
pub open spec fn node_view(n: Node) -> NodeView
    decreases n,
{
    match n {
        Node::Text(t) => NodeView::Text(t@),
        Node::NodeElement(e) => NodeView::Element {
            tag: e.tag,
            attrs: match e.attrs {
                Some(a) => Some(a@),
                None => None,
            },
            children: match e.children {
                Some(c) => Some(
                    Seq::new(
                        c@.len(),
                        |i: int|
                            if 0 <= i < c@.len() {
                                node_view(c@[i])
                            } else {
                                arbitrary()
                            },
                    ),
                ),
                None => None,
            },
        },
    }
}

impl View for Node {
    type V = NodeView;

    open spec fn view(&self) -> NodeView {
        node_view(*self)
    }
}

/// What a sequence of nodes shows.
pub open spec fn nodes_view(nodes: Seq<Node>) -> Seq<NodeView> {
    nodes.map_values(|n: Node| n@)
}

/// A paragraph of the given nodes.
pub open spec fn paragraph_view(children: Seq<NodeView>) -> NodeView {
    NodeView::Element { tag: Tag::P, attrs: None, children: Some(children) }
}

/// A text that links to `href`.
pub open spec fn anchor_view(href: Seq<char>, text: Seq<char>) -> NodeView {
    NodeView::Element {
        tag: Tag::A,
        attrs: Some(AttrView { src: None, href: Some(href) }),
        children: Some(seq![NodeView::Text(text)]),
    }
}

/// The image at `src`.
pub open spec fn image_view(src: Seq<char>) -> NodeView {
    NodeView::Element {
        tag: Tag::Img,
        attrs: Some(AttrView { src: Some(src), href: None }),
        children: None,
    }
}

impl Node {
    /// A text node.
    pub fn new_text(text: &str) -> (r: Node)
        ensures
            r@ == NodeView::Text(text@),
    {
        Node::Text(text.to_string())
    }

    /// A node that shows the image at `src`.
    pub fn new_image(src: &str) -> (r: Node)
        ensures
            r@ == image_view(src@),
    {
        Node::NodeElement(
            NodeElement {
                tag: Tag::Img,
                attrs: Some(NodeElementAttr { src: Some(src.to_string()), href: None }),
                children: None,
            },
        )
    }

    /// A text that links to `href`.
    pub fn new_anchor(href: &str, text: &str) -> (r: Node)
        ensures
            r@ == anchor_view(href@, text@),
    {
        let mut children: Vec<Node> = Vec::new();
        children.push(Node::new_text(text));
        let r = Node::NodeElement(
            NodeElement {
                tag: Tag::A,
                attrs: Some(NodeElementAttr { src: None, href: Some(href.to_string()) }),
                children: Some(children),
            },
        );
        assert(r@->children->Some_0 =~= seq![NodeView::Text(text@)]);
        r
    }

    /// A paragraph of the given nodes.
    pub fn new_paragraph(children: Vec<Node>) -> (r: Node)
        ensures
            r@ == paragraph_view(nodes_view(children@)),
    {
        let r = Node::NodeElement(
            NodeElement { tag: Tag::P, attrs: None, children: Some(children) },
        );
        assert(r@->children->Some_0 =~= nodes_view(children@));
        r
    }
}

/// Each kind of node shows what it is made of and nothing else.
pub proof fn law_nodes(src: Seq<char>, text: Seq<char>, children: Seq<NodeView>)
    ensures
        image_view(src) == (NodeView::Element {
            tag: Tag::Img,
            attrs: Some(AttrView { src: Some(src), href: None }),
            children: None,
        }),
        anchor_view(src, text) == (NodeView::Element {
            tag: Tag::A,
            attrs: Some(AttrView { src: None, href: Some(src) }),
            children: Some(seq![NodeView::Text(text)]),
        }),
        paragraph_view(children) == (NodeView::Element {
            tag: Tag::P,
            attrs: None,
            children: Some(children),
        }),
{
}

} // verus!
