//! A parsed XML document as a flat list of nodes in document order, the way
//! `roxmltree` stores it, with the queries the JNLP reader needs.

use vstd::prelude::*;

use crate::text::str_eq;

verus! {

/// One attribute of an element.
pub struct XmlAttr {
    pub namespace: Option<String>,
    pub name: String,
    pub value: String,
}

/// One node of a document: the root, an element, a text, a comment or a
/// processing instruction. `parent` is the index of the parent node.
pub struct XmlNode {
    pub element: bool,
    /// Local tag name of an element; empty for other nodes.
    pub tag: String,
    pub parent: Option<usize>,
    pub attributes: Vec<XmlAttr>,
    /// For an element, the text of its first child when that child is text;
    /// for a text or comment node, its own text.
    pub text: Option<String>,
}

/// The mathematical value of an attribute: namespace, local name, value.
pub type AttrView = (Option<Seq<char>>, Seq<char>, Seq<char>);

/// The mathematical value of an [`XmlNode`].
pub struct NodeView {
    pub element: bool,
    pub tag: Seq<char>,
    pub parent: Option<usize>,
    pub attributes: Seq<AttrView>,
    pub text: Option<Seq<char>>,
}

impl View for XmlAttr {
    type V = AttrView;

    open spec fn view(&self) -> AttrView {
        (
            match self.namespace {
                Some(n) => Some(n@),
                None => None,
            },
            self.name@,
            self.value@,
        )
    }
}

impl View for XmlNode {
    type V = NodeView;

    open spec fn view(&self) -> NodeView {
        NodeView {
            element: self.element,
            tag: self.tag@,
            parent: self.parent,
            attributes: self.attributes@.map_values(|a: XmlAttr| a@),
            text: match self.text {
                Some(t) => Some(t@),
                None => None,
            },
        }
    }
}

/// The views of a node list.
pub open spec fn node_views(v: Seq<XmlNode>) -> Seq<NodeView> {
    v.map_values(|n: XmlNode| n@)
}

/// The node list `roxmltree::Document::parse` builds for `text`, or `None`
/// when `text` is not well-formed XML.
pub uninterp spec fn xml_nodes(text: Seq<char>) -> Option<Seq<NodeView>>;

/// The shape every parsed document has: the root comes first and has no
/// parent, and every other node's parent comes before it.
pub open spec fn tree_shaped(ns: Seq<NodeView>) -> bool {
    &&& ns.len() >= 1
    &&& ns[0].parent is None
    &&& forall|i: int|
        1 <= i < ns.len() ==> (#[trigger] ns[i]).parent is Some && ns[i].parent->0 < i
}

/// Calls `roxmltree::Document::parse` and lists `descendants()` of the
/// document (all nodes, in document order, each node's index being its
/// `NodeId`), keeping of each node what the reader uses. The list is named
/// [`xml_nodes`] of the input; its tree shape is what the crate's parser
/// builds (the root first, each node appended after its parent). An error
/// (carried as its message) comes exactly when the name is `None`.
#[verifier::external_body]
pub(crate) fn parse_xml(text: &str) -> (r: Result<Vec<XmlNode>, String>)
    ensures
        match r {
            Ok(v) => xml_nodes(text@) == Some(node_views(v@)) && tree_shaped(node_views(v@)),
            Err(_) => xml_nodes(text@) is None,
        },
{
    let doc = roxmltree::Document::parse(text).map_err(|e| e.to_string())?;
    Ok(doc.descendants().map(|n| XmlNode {
        element: n.is_element(),
        tag: n.tag_name().name().to_string(),
        parent: n.parent().map(|p| p.id().get_usize()),
        attributes: n.attributes().map(|a| XmlAttr {
            namespace: a.namespace().map(|s| s.to_string()),
            name: a.name().to_string(),
            value: a.value().to_string(),
        }).collect(),
        text: n.text().map(|t| t.to_string()),
    }).collect())
}

/// `Node::has_tag_name` with a plain name: an element with that local name.
pub open spec fn has_tag(n: NodeView, name: Seq<char>) -> bool {
    n.element && n.tag == name
}

/// Whether node `j` is node `r` or lies under it, following parents that
/// point backwards.
pub open spec fn under(ns: Seq<NodeView>, j: int, r: int) -> bool
    decreases j,
{
    if j == r {
        true
    } else if 0 <= j < ns.len() && j > r && ns[j].parent is Some && ns[j].parent->0 < j {
        under(ns, ns[j].parent->0 as int, r)
    } else {
        false
    }
}

/// The first index in `[from, ns.len())` of a node under `r` tagged `name`.
pub open spec fn first_tagged(ns: Seq<NodeView>, r: int, name: Seq<char>, from: int) -> Option<int>
    decreases ns.len() - from,
{
    if from < 0 || from >= ns.len() {
        None
    } else if under(ns, from, r) && has_tag(ns[from], name) {
        Some(from)
    } else {
        first_tagged(ns, r, name, from + 1)
    }
}

/// `get_node`: the first node of `r`'s descendants (itself included, in
/// document order) tagged `name`.
pub open spec fn find_tagged(ns: Seq<NodeView>, r: int, name: Seq<char>) -> Option<int> {
    first_tagged(ns, r, name, r)
}

/// Executable [`under`].
pub fn is_under(nodes: &Vec<XmlNode>, j: usize, r: usize) -> (b: bool)
    requires
        j < nodes.len(),
    ensures
        b == under(node_views(nodes@), j as int, r as int),
{
    let ghost ns = node_views(nodes@);
    let mut k: usize = j;
    while k != r
        invariant
            k < nodes.len(),
            ns == node_views(nodes@),
            under(ns, j as int, r as int) == under(ns, k as int, r as int),
        decreases k,
    {
        assert(ns[k as int] == nodes@[k as int]@);
        if k < r {
            return false;
        }
        match nodes[k].parent {
            Some(p) => {
                if p < k {
                    k = p;
                } else {
                    return false;
                }
            },
            None => {
                return false;
            },
        }
    }
    true
}

/// Whether `n` is an element named `name`.
pub fn node_has_tag(n: &XmlNode, name: &str) -> (b: bool)
    ensures
        b == has_tag(n@, name@),
{
    n.element && str_eq(n.tag.as_str(), name)
}

/// Executable [`find_tagged`].
pub fn get_node(nodes: &Vec<XmlNode>, r: usize, name: &str) -> (res: Option<usize>)
    ensures
        match res {
            Some(j) => find_tagged(node_views(nodes@), r as int, name@) == Some(j as int) && j
                < nodes.len(),
            None => find_tagged(node_views(nodes@), r as int, name@) is None,
        },
{
    let ghost ns = node_views(nodes@);
    if r >= nodes.len() {
        return None;
    }
    let mut j: usize = r;
    while j < nodes.len()
        invariant
            r <= j <= nodes.len(),
            ns == node_views(nodes@),
            find_tagged(ns, r as int, name@) == first_tagged(ns, r as int, name@, j as int),
        decreases nodes.len() - j,
    {
        assert(ns[j as int] == nodes@[j as int]@);
        if is_under(nodes, j, r) && node_has_tag(&nodes[j], name) {
            return Some(j);
        }
        j = j + 1;
    }
    None
}

/// `Node::attribute` with a plain name: the value of the first attribute
/// with no namespace and that local name.
pub open spec fn attr_value(attrs: Seq<AttrView>, name: Seq<char>) -> Option<Seq<char>>
    decreases attrs.len(),
{
    if attrs.len() == 0 {
        None
    } else if attrs[0].0 is None && attrs[0].1 == name {
        Some(attrs[0].2)
    } else {
        attr_value(attrs.drop_first(), name)
    }
}

/// Executable [`attr_value`].
pub fn attribute<'a>(n: &'a XmlNode, name: &str) -> (r: Option<&'a String>)
    ensures
        match r {
            Some(v) => attr_value(n@.attributes, name@) == Some(v@),
            None => attr_value(n@.attributes, name@) is None,
        },
{
    let ghost all = n@.attributes;
    let mut i: usize = 0;
    assert(all.skip(0) == all);
    while i < n.attributes.len()
        invariant
            i <= n.attributes.len(),
            all == n@.attributes,
            attr_value(all, name@) == attr_value(all.skip(i as int), name@),
        decreases n.attributes.len() - i,
    {
        let a = &n.attributes[i];
        assert(all.skip(i as int)[0] == a@);
        assert(all.skip(i as int).drop_first() == all.skip(i + 1));
        if a.namespace.is_none() && str_eq(a.name.as_str(), name) {
            return Some(&a.value);
        }
        i = i + 1;
    }
    None
}

} // verus!
