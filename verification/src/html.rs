use std::rc::Rc;

use html5ever::tendril::TendrilSink;
use markup5ever_rcdom::{NodeData, RcDom};
use vstd::prelude::*;

verus! {

/// An attribute of an element: its local name and its value.
#[derive(Debug, PartialEq, Eq)]
pub struct Attribute {
    pub name: String,
    pub value: String,
}

/// What a node of a parsed page is.
#[derive(Debug, PartialEq, Eq)]
pub enum NodeKind {
    Document,
    Doctype,
    Text(String),
    Comment(String),
    Element { name: String, attrs: Vec<Attribute> },
    ProcessingInstruction,
}

/// A node of a parsed page, with its children in document order.
#[derive(Debug, PartialEq, Eq)]
pub struct HtmlNode {
    pub kind: NodeKind,
    pub children: Vec<HtmlNode>,
}

/// An attribute, as the contracts see it.
pub struct SpecAttribute {
    pub name: Seq<char>,
    pub value: Seq<char>,
}

/// What a node is, as the contracts see it.
pub enum SpecKind {
    Document,
    Doctype,
    Text(Seq<char>),
    Comment(Seq<char>),
    Element { name: Seq<char>, attrs: Seq<SpecAttribute> },
    ProcessingInstruction,
}

/// A node and the tree below it, as the contracts see them.
pub struct SpecNode {
    pub kind: SpecKind,
    pub children: Seq<SpecNode>,
}

impl View for Attribute {
    type V = SpecAttribute;

    open spec fn view(&self) -> SpecAttribute {
        SpecAttribute { name: self.name@, value: self.value@ }
    }
}

impl View for NodeKind {
    type V = SpecKind;

    open spec fn view(&self) -> SpecKind {
        match self {
            NodeKind::Document => SpecKind::Document,
            NodeKind::Doctype => SpecKind::Doctype,
            NodeKind::Text(t) => SpecKind::Text(t@),
            NodeKind::Comment(t) => SpecKind::Comment(t@),
            NodeKind::Element { name, attrs } => SpecKind::Element {
                name: name@,
                attrs: attrs@.map_values(|a: Attribute| a@),
            },
            NodeKind::ProcessingInstruction => SpecKind::ProcessingInstruction,
        }
    }
}

impl View for HtmlNode {
    type V = SpecNode;

    open spec fn view(&self) -> SpecNode
        decreases self,
    {
        SpecNode {
            kind: self.kind@,
            children: Seq::new(
                self.children.len() as nat,
                |i: int|
                    if 0 <= i < self.children.len() {
                        self.children@[i]@
                    } else {
                        arbitrary()
                    },
            ),
        }
    }
}

/// The node reached from `n` by taking, at each step, the child at the next
/// index of `path`; `None` where an index is out of range.
pub open spec fn child_at(n: SpecNode, path: Seq<int>) -> Option<SpecNode>
    decreases path.len(),
{
    if path.len() == 0 {
        Some(n)
    } else if 0 <= path[0] < n.children.len() {
        child_at(n.children[path[0]], path.drop_first())
    } else {
        None
    }
}

/// The text of a text node.
pub open spec fn text_of(n: SpecNode) -> Option<Seq<char>> {
    match n.kind {
        SpecKind::Text(t) => Some(t),
        _ => None,
    }
}

/// Whether `n` is an element.
pub open spec fn is_element(n: SpecNode) -> bool {
    n.kind is Element
}

/// The value of the first attribute of an element, where it has one.
pub open spec fn first_attr_value(n: SpecNode) -> Option<Seq<char>> {
    match n.kind {
        SpecKind::Element { attrs, .. } => if attrs.len() > 0 {
            Some(attrs[0].value)
        } else {
            None
        },
        _ => None,
    }
}

/// The document tree that html5ever builds from `text`.
pub uninterp spec fn html_document(text: Seq<char>) -> SpecNode;

#[verifier::external_type_specification]
#[verifier::external_body]
pub struct ExDomNode(markup5ever_rcdom::Node);

/// A node of the tree that html5ever built, with the part of the parsed
/// document that lies below it. Each handle also holds the document node, so
/// that the tree is not taken apart (`Drop for Node` empties the children of
/// every node below a document that is dropped) while a handle lives.
pub struct DomHandle {
    document: Rc<markup5ever_rcdom::Node>,
    node: Rc<markup5ever_rcdom::Node>,
    tree: Ghost<SpecNode>,
}

impl View for DomHandle {
    type V = SpecNode;

    closed spec fn view(&self) -> SpecNode {
        self.tree@
    }
}

/// Parses `text` with `html5ever::parse_document` into an `RcDom`, feeding
/// its bytes in pieces (`read_from`, which reading from memory cannot make
/// fail), and hands out its document node. What is claimed: the tree below that node is the
/// one that `html_document` names for `text`; what that tree is (the HTML
/// parsing algorithm) is left unsaid.
#[verifier::external_body]
fn dom_parse(text: &str) -> (h: DomHandle)
    ensures
        h@ == html_document(text@),
{
    let parser = html5ever::parse_document(RcDom::default(), Default::default()).from_utf8();
    let dom = parser.read_from(&mut std::io::Cursor::new(text.as_bytes())).unwrap_or_default();
    DomHandle { document: dom.document.clone(), node: dom.document, tree: Ghost(arbitrary()) }
}

/// Reads what a node of html5ever's tree is (`Node::data`, a `NodeData`),
/// converting its strings (`StrTendril`, the local part of a `QualName`) to
/// `String`. What is claimed: it is the kind at the root of the node's tree.
#[verifier::external_body]
fn dom_kind(h: &DomHandle) -> (k: NodeKind)
    ensures
        k@ == h@.kind,
{
    match &h.node.data {
        NodeData::Document => NodeKind::Document,
        NodeData::Doctype { .. } => NodeKind::Doctype,
        NodeData::Text { contents } => NodeKind::Text(contents.borrow().to_string()),
        NodeData::Comment { contents } => NodeKind::Comment(contents.to_string()),
        NodeData::Element { name, attrs, .. } => NodeKind::Element {
            name: name.local.to_string(),
            attrs: attrs.borrow().iter().map(|a| Attribute { name: a.name.local.to_string(), value: a.value.to_string() }).collect(),
        },
        NodeData::ProcessingInstruction { .. } => NodeKind::ProcessingInstruction,
    }
}

/// Hands out the children of a node of html5ever's tree (`Node::children`),
/// in order, each with the document node that keeps the tree whole. What is
/// claimed: they are as many as the subtrees below the root of the node's
/// tree, and each one's tree is the subtree in its place.
#[verifier::external_body]
fn dom_children(h: &DomHandle) -> (cs: Vec<DomHandle>)
    ensures
        cs.len() == h@.children.len(),
        forall|i: int| 0 <= i < cs.len() ==> #[trigger] cs[i]@ == h@.children[i],
{
    h.node.children.borrow().iter().map(
        |c| DomHandle { document: h.document.clone(), node: c.clone(), tree: Ghost(arbitrary()) },
    ).collect()
}

/// Copies the subtree below `h` into a plain `HtmlNode`.
fn copy_subtree(h: &DomHandle) -> (n: HtmlNode)
    ensures
        n@ == h@,
    decreases h@,
{
    let kind = dom_kind(h);
    let kids = dom_children(h);
    let mut children: Vec<HtmlNode> = Vec::new();
    let mut i: usize = 0;
    while i < kids.len()
        invariant
            i <= kids.len(),
            kids.len() == h@.children.len(),
            forall|j: int| 0 <= j < kids.len() ==> #[trigger] kids[j]@ == h@.children[j],
            children.len() == i,
            forall|j: int| 0 <= j < i ==> (#[trigger] children@[j])@ == h@.children[j],
        decreases kids.len() - i,
    {
        assert(decreases_to!(h@ => h@.children[i as int]));
        let c = copy_subtree(&kids[i]);
        children.push(c);
        i = i + 1;
    }
    let n = HtmlNode { kind, children };
    assert(n@.children =~= h@.children);
    n
}

/// The view of a node is made of the views of its kind and its children.
pub proof fn lemma_view_children(n: HtmlNode)
    ensures
        n@.children.len() == n.children.len(),
        forall|i: int| 0 <= i < n.children.len() ==> n@.children[i] == (#[trigger] n.children@[i])@,
        n@.kind == n.kind@,
{
    reveal_with_fuel(<HtmlNode as View>::view, 2);
}

/// The node reached from `n` along `path`.
pub fn node_at<'a>(n: &'a HtmlNode, path: &[usize]) -> (r: Option<&'a HtmlNode>)
    ensures
        r matches Some(m) ==> child_at(n@, path@.map_values(|i: usize| i as int)) == Some(m@),
        r is None ==> child_at(n@, path@.map_values(|i: usize| i as int)) is None,
{
    let mut cur = n;
    let mut k: usize = 0;
    let ghost p = path@.map_values(|i: usize| i as int);
    assert(p.skip(0) =~= p);
    while k < path.len()
        invariant
            k <= path.len(),
            p == path@.map_values(|i: usize| i as int),
            child_at(n@, p) == child_at(cur@, p.skip(k as int)),
        decreases path.len() - k,
    {
        let i = path[k];
        assert(p.skip(k as int)[0] == i as int);
        assert(p.skip(k as int).drop_first() =~= p.skip(k + 1));
        proof {
            lemma_view_children(*cur);
        }
        if i >= cur.children.len() {
            return None;
        }
        cur = &cur.children[i];
        k = k + 1;
    }
    assert(p.skip(k as int).len() == 0);
    Some(cur)
}

/// The text of `n`, where it is a text node.
pub fn node_text(n: &HtmlNode) -> (r: Option<&String>)
    ensures
        r matches Some(t) ==> text_of(n@) == Some(t@),
        r is None ==> text_of(n@) is None,
{
    match &n.kind {
        NodeKind::Text(t) => Some(t),
        _ => None,
    }
}

/// The value of the first attribute of `n`, where it is an element with an
/// attribute.
pub fn node_first_attr(n: &HtmlNode) -> (r: Option<&String>)
    ensures
        r matches Some(t) ==> first_attr_value(n@) == Some(t@),
        r is None ==> first_attr_value(n@) is None,
{
    match &n.kind {
        NodeKind::Element { attrs, .. } => {
            if attrs.len() > 0 {
                Some(&attrs[0].value)
            } else {
                None
            }
        },
        _ => None,
    }
}

/// Whether `n` is an element.
pub fn node_is_element(n: &HtmlNode) -> (r: bool)
    ensures
        r == is_element(n@),
{
    match &n.kind {
        NodeKind::Element { .. } => true,
        _ => false,
    }
}

/// Parses an HTML page into its document tree.
pub fn parse_html(text: &str) -> (doc: HtmlNode)
    ensures
        doc@ == html_document(text@),
{
    let h = dom_parse(text);
    copy_subtree(&h)
}

} // verus!
