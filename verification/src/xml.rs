use vstd::prelude::*;

use crate::opml::{opml_file_text, opml_shapes, readable_subscriptions};
use crate::subscriptions::SubscriptionView;
use crate::summary::utf8_len;
use crate::text::same_text;

verus! {

/// An attribute of an XML element: its namespace URI, if any, its local
/// name and its value.
#[derive(Clone, Debug)]
pub struct XmlAttribute {
    pub namespace: Option<String>,
    pub name: String,
    pub value: String,
}

/// A node of a parsed XML document, held as plain values. A document is the
/// list of its nodes in document order, the root first; each node names its
/// parent by its position in that list, and the children of a node are the
/// nodes that name it, in the order of the list.
#[derive(Clone, Debug)]
pub struct XmlNode {
    /// The position of the parent node; `None` for the root.
    pub parent: Option<usize>,
    /// Whether the node is an element.
    pub is_element: bool,
    /// The local name of an element; empty for other nodes.
    pub name: String,
    /// roxmltree's `text()`: for an element the text of its first child when
    /// that child is a text node, for a text or comment node its own text.
    pub text: Option<String>,
    /// The attributes of an element, in document order.
    pub attributes: Vec<XmlAttribute>,
}

/// An attribute as plain sequences.
pub struct AttrView {
    pub namespace: Option<Seq<char>>,
    pub name: Seq<char>,
    pub value: Seq<char>,
}

/// A node as plain sequences.
pub struct NodeView {
    pub parent: Option<usize>,
    pub is_element: bool,
    pub name: Seq<char>,
    pub text: Option<Seq<char>>,
    pub attributes: Seq<AttrView>,
}

/// The view of an optional string.
pub open spec fn opt_text(o: Option<String>) -> Option<Seq<char>> {
    match o {
        Some(s) => Some(s@),
        None => None,
    }
}

impl View for XmlAttribute {
    type V = AttrView;

    open spec fn view(&self) -> AttrView {
        AttrView { namespace: opt_text(self.namespace), name: self.name@, value: self.value@ }
    }
}

impl View for XmlNode {
    type V = NodeView;

    open spec fn view(&self) -> NodeView {
        NodeView {
            parent: self.parent,
            is_element: self.is_element,
            name: self.name@,
            text: opt_text(self.text),
            attributes: self.attributes@.map_values(|a: XmlAttribute| a@),
        }
    }
}

/// The view of a document's node list.
pub open spec fn doc_view(nodes: Seq<XmlNode>) -> Seq<NodeView> {
    nodes.map_values(|n: XmlNode| n@)
}

/// The view of what parsing a text gave: the nodes, or the error message.
pub open spec fn parsed_view(r: Result<Vec<XmlNode>, String>) -> Result<Seq<NodeView>, Seq<char>> {
    match r {
        Ok(v) => Ok(doc_view(v@)),
        Err(e) => Err(e@),
    }
}

/// What roxmltree's `Document::parse` makes of a text: the document's nodes
/// in document order, or the message of its error.
pub uninterp spec fn xml_document(text: Seq<char>) -> Result<Seq<NodeView>, Seq<char>>;

/// The elements of a document in document order, each as its local name and
/// attributes.
pub open spec fn element_shapes(doc: Seq<NodeView>) -> Seq<(Seq<char>, Seq<AttrView>)>
    decreases doc.len(),
{
    if doc.len() == 0 {
        Seq::empty()
    } else {
        let before = element_shapes(doc.drop_last());
        if doc.last().is_element {
            before.push((doc.last().name, doc.last().attributes))
        } else {
            before
        }
    }
}

/// Calls roxmltree's `Document::parse` and copies the document into plain
/// values: each node of `descendants()` (document order, the root first, in
/// the order of the node ids), with its parent's id, whether it is an
/// element, its local name, `text()` and attributes; on failure the error's
/// message. The contract names the result, XML parsing is not restated.
/// Two facts are stated besides. A document that roxmltree parses always
/// has a root element: the first node is the document's root, and the parse
/// fails without an element among its children. And of the OPML text that
/// xml_builder writes for a list of subscriptions it says what XML requires
/// a parser to report: the text is well formed (simple tags, distinct
/// attribute names, values escaped), so where it is within roxmltree's size
/// limit of `u32::MAX` bytes the parse succeeds, and its elements come in
/// document order with their local names and their attributes, without
/// namespace, the escaped values read back as they were. Values with a tab
/// or a line break are left out, as attribute-value normalisation would turn
/// those into spaces.
#[verifier::external_body]
pub(crate) fn parse_xml(text: &str) -> (r: Result<Vec<XmlNode>, String>)
    ensures
        parsed_view(r) == xml_document(text@),
        r is Ok ==> first_element_child(doc_view(r->Ok_0@), 0) is Some,
        forall|subs: Seq<SubscriptionView>|
            #[trigger] opml_file_text(subs) == text@ && readable_subscriptions(subs) && utf8_len(
                text@,
            ) <= u32::MAX ==> r is Ok && element_shapes(doc_view(r->Ok_0@)) == opml_shapes(subs),
{
    match roxmltree::Document::parse(text) {
        Ok(doc) => Ok(doc.descendants().map(|n| XmlNode {
            parent: n.parent().map(|p| p.id().get_usize()),
            is_element: n.is_element(),
            name: n.tag_name().name().to_string(),
            text: n.text().map(|t| t.to_string()),
            attributes: n.attributes().iter().map(|a| XmlAttribute {
                namespace: a.namespace().map(|u| u.to_string()),
                name: a.name().to_string(),
                value: a.value().to_string(),
            }).collect(),
        }).collect()),
        Err(e) => Err(e.to_string()),
    }
}

/// Node `j` of the document is a child of node `p`.
pub open spec fn is_child(doc: Seq<NodeView>, j: int, p: int) -> bool {
    0 <= j < doc.len() && doc[j].parent == Some(p as usize)
}

/// roxmltree's `has_tag_name` with a plain name: the node is an element
/// whose local name is `tag`.
pub open spec fn tagged(node: NodeView, tag: Seq<char>) -> bool {
    node.is_element && node.name == tag
}

/// The first of the nodes before position `n` that is an element child of
/// `p`.
pub open spec fn first_element_child_upto(doc: Seq<NodeView>, p: int, n: int) -> Option<int>
    decreases n,
{
    if n <= 0 {
        None
    } else {
        match first_element_child_upto(doc, p, n - 1) {
            Some(j) => Some(j),
            None => if is_child(doc, n - 1, p) && doc[n - 1].is_element {
                Some(n - 1)
            } else {
                None
            },
        }
    }
}

/// roxmltree's `first_element_child`.
pub open spec fn first_element_child(doc: Seq<NodeView>, p: int) -> Option<int> {
    first_element_child_upto(doc, p, doc.len() as int)
}

/// The first of the nodes before position `n` that is a child of `p` with
/// the tag `tag`.
pub open spec fn first_tagged_child_upto(doc: Seq<NodeView>, p: int, tag: Seq<char>, n: int) -> Option<int>
    decreases n,
{
    if n <= 0 {
        None
    } else {
        match first_tagged_child_upto(doc, p, tag, n - 1) {
            Some(j) => Some(j),
            None => if is_child(doc, n - 1, p) && tagged(doc[n - 1], tag) {
                Some(n - 1)
            } else {
                None
            },
        }
    }
}

/// The first child of `p` with the tag `tag`.
pub open spec fn first_tagged_child(doc: Seq<NodeView>, p: int, tag: Seq<char>) -> Option<int> {
    first_tagged_child_upto(doc, p, tag, doc.len() as int)
}

/// The first of the first `n` attributes without a namespace whose name is
/// `name`.
pub open spec fn attribute_upto(attrs: Seq<AttrView>, name: Seq<char>, n: int) -> Option<Seq<char>>
    decreases n,
{
    if n <= 0 {
        None
    } else {
        match attribute_upto(attrs, name, n - 1) {
            Some(v) => Some(v),
            None => if attrs[n - 1].namespace is None && attrs[n - 1].name == name {
                Some(attrs[n - 1].value)
            } else {
                None
            },
        }
    }
}

/// roxmltree's `attribute` with a plain name: the value of the first
/// attribute without a namespace whose local name is `name`.
pub open spec fn attribute(node: NodeView, name: Seq<char>) -> Option<Seq<char>> {
    attribute_upto(node.attributes, name, node.attributes.len() as int)
}

/// roxmltree's `text()` of a node, or the empty text where there is none.
pub open spec fn text_or_empty(node: NodeView) -> Seq<char> {
    match node.text {
        Some(t) => t,
        None => Seq::empty(),
    }
}

/// Once found, the first element child stays the first one.
proof fn lemma_first_element_child_stable(doc: Seq<NodeView>, p: int, k: int, n: int)
    requires
        k <= n,
        first_element_child_upto(doc, p, k) is Some,
    ensures
        first_element_child_upto(doc, p, n) == first_element_child_upto(doc, p, k),
    decreases n - k,
{
    if k < n {
        lemma_first_element_child_stable(doc, p, k, n - 1);
    }
}

/// Once found, the first tagged child stays the first one.
proof fn lemma_first_tagged_child_stable(doc: Seq<NodeView>, p: int, tag: Seq<char>, k: int, n: int)
    requires
        k <= n,
        first_tagged_child_upto(doc, p, tag, k) is Some,
    ensures
        first_tagged_child_upto(doc, p, tag, n) == first_tagged_child_upto(doc, p, tag, k),
    decreases n - k,
{
    if k < n {
        lemma_first_tagged_child_stable(doc, p, tag, k, n - 1);
    }
}

/// Once found, the first matching attribute stays the first one.
proof fn lemma_attribute_stable(attrs: Seq<AttrView>, name: Seq<char>, k: int, n: int)
    requires
        k <= n,
        attribute_upto(attrs, name, k) is Some,
    ensures
        attribute_upto(attrs, name, n) == attribute_upto(attrs, name, k),
    decreases n - k,
{
    if k < n {
        lemma_attribute_stable(attrs, name, k, n - 1);
    }
}

impl XmlNode {
    /// Whether the node is an element with the local name `tag`.
    pub fn has_tag_name(&self, tag: &str) -> (r: bool)
        ensures
            r == tagged(self@, tag@),
    {
        self.is_element && same_text(self.name.as_str(), tag)
    }

    /// The value of the attribute without a namespace named `name`.
    pub fn attribute(&self, name: &str) -> (r: Option<String>)
        ensures
            opt_text(r) == attribute(self@, name@),
    {
        let ghost attrs = self@.attributes;
        let mut i: usize = 0;
        while i < self.attributes.len()
            invariant
                i <= self.attributes.len(),
                attrs == self.attributes@.map_values(|a: XmlAttribute| a@),
                attribute_upto(attrs, name@, i as int) is None,
            decreases self.attributes.len() - i,
        {
            let a = &self.attributes[i];
            assert(attrs[i as int] == a@);
            if a.namespace.is_none() && same_text(a.name.as_str(), name) {
                proof {
                    lemma_attribute_stable(attrs, name@, i + 1, attrs.len() as int);
                }
                return Some(a.value.clone());
            }
            i = i + 1;
        }
        None
    }

    /// Whether the node has an attribute without a namespace named `name`.
    pub fn has_attribute(&self, name: &str) -> (r: bool)
        ensures
            r == (attribute(self@, name@) is Some),
    {
        self.attribute(name).is_some()
    }

    /// The node's text, or the empty text where there is none.
    pub fn text_or_empty(&self) -> (r: String)
        ensures
            r@ == text_or_empty(self@),
    {
        match &self.text {
            Some(t) => t.clone(),
            None => String::new(),
        }
    }
}

/// Whether node `j` is a child of node `p`.
pub fn is_child_exec(nodes: &Vec<XmlNode>, j: usize, p: usize) -> (r: bool)
    requires
        j < nodes.len(),
    ensures
        r == is_child(doc_view(nodes@), j as int, p as int),
{
    match nodes[j].parent {
        Some(q) => q == p,
        None => false,
    }
}

/// roxmltree's `first_element_child` of node `p`.
pub fn first_element_child_exec(nodes: &Vec<XmlNode>, p: usize) -> (r: Option<usize>)
    ensures
        match r {
            Some(j) => first_element_child(doc_view(nodes@), p as int) == Some(j as int),
            None => first_element_child(doc_view(nodes@), p as int) is None,
        },
        r matches Some(j) ==> j < nodes.len(),
{
    let ghost doc = doc_view(nodes@);
    let mut j: usize = 0;
    while j < nodes.len()
        invariant
            j <= nodes.len(),
            doc == doc_view(nodes@),
            first_element_child_upto(doc, p as int, j as int) is None,
        decreases nodes.len() - j,
    {
        if is_child_exec(nodes, j, p) && nodes[j].is_element {
            proof {
                lemma_first_element_child_stable(doc, p as int, j + 1, doc.len() as int);
            }
            return Some(j);
        }
        j = j + 1;
    }
    None
}

/// The first child of node `p` with the tag `tag`.
pub fn first_tagged_child_exec(nodes: &Vec<XmlNode>, p: usize, tag: &str) -> (r: Option<usize>)
    ensures
        match r {
            Some(j) => first_tagged_child(doc_view(nodes@), p as int, tag@) == Some(j as int),
            None => first_tagged_child(doc_view(nodes@), p as int, tag@) is None,
        },
        r matches Some(j) ==> j < nodes.len(),
{
    let ghost doc = doc_view(nodes@);
    let mut j: usize = 0;
    while j < nodes.len()
        invariant
            j <= nodes.len(),
            doc == doc_view(nodes@),
            first_tagged_child_upto(doc, p as int, tag@, j as int) is None,
        decreases nodes.len() - j,
    {
        if is_child_exec(nodes, j, p) && nodes[j].has_tag_name(tag) {
            proof {
                lemma_first_tagged_child_stable(doc, p as int, tag@, j + 1, doc.len() as int);
            }
            return Some(j);
        }
        j = j + 1;
    }
    None
}

} // verus!
