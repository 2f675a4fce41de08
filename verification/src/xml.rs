//! A parsed XML document as a list of nodes in document order, and the ways
//! importers walk it: children by tag name, the first element of a subtree
//! with a given name, and attribute lookup.
use vstd::prelude::*;

use crate::text::str_eq;

verus! {

/// An attribute of an XML element.
#[derive(Debug, Clone, PartialEq, Eq)]
pub struct XmlAttribute {
    /// Namespace URI of the attribute's prefix, if it has one.
    pub namespace: Option<String>,
    /// Local name.
    pub name: String,
    /// Value, with entities resolved.
    pub value: String,
}

/// One node of a parsed document. Nodes are listed in document order; the
/// first is the document root and a node's index is its position.
#[derive(Debug, Clone, PartialEq, Eq)]
pub struct XmlNode {
    /// Whether the node is an element.
    pub element: bool,
    /// Local tag name of an element.
    pub name: String,
    /// Index of the parent node.
    pub parent: Option<usize>,
    /// Attributes of an element, in document order.
    pub attributes: Vec<XmlAttribute>,
    /// Text of the node: for an element, that of its first child when that
    /// child is text.
    pub text: Option<String>,
}

pub struct XmlAttributeView {
    pub namespace: Option<Seq<char>>,
    pub name: Seq<char>,
    pub value: Seq<char>,
}

pub struct XmlNodeView {
    pub element: bool,
    pub name: Seq<char>,
    pub parent: Option<usize>,
    pub attributes: Seq<XmlAttributeView>,
    pub text: Option<Seq<char>>,
}

impl View for XmlAttribute {
    type V = XmlAttributeView;

    open spec fn view(&self) -> XmlAttributeView {
        XmlAttributeView {
            namespace: match self.namespace {
                Some(n) => Some(n@),
                None => None,
            },
            name: self.name@,
            value: self.value@,
        }
    }
}

impl View for XmlNode {
    type V = XmlNodeView;

    open spec fn view(&self) -> XmlNodeView {
        XmlNodeView {
            element: self.element,
            name: self.name@,
            parent: self.parent,
            attributes: self.attributes@.map_values(|a: XmlAttribute| a@),
            text: match self.text {
                Some(t) => Some(t@),
                None => None,
            },
        }
    }
}

pub open spec fn node_views(v: Seq<XmlNode>) -> Seq<XmlNodeView> {
    v.map_values(|n: XmlNode| n@)
}

/// The nodes of the XML document `text` in document order, or the parser's
/// error message when `text` is not well-formed XML.
pub uninterp spec fn xml_document(text: Seq<char>) -> Result<Seq<XmlNodeView>, Seq<char>>;

/// `roxmltree::Document::parse` on `text`: on success the document's nodes
/// (`Document::descendants`, which walks the node arena in document order,
/// so that a node's position is its `NodeId`), each with its kind, local tag
/// name, parent id, attributes and `Node::text`; on failure the error's
/// display text. The contract names that result and says nothing more of it.
#[verifier::external_body]
pub(crate) fn parse_xml(text: &str) -> (r: Result<Vec<XmlNode>, String>)
    ensures
        match r {
            Ok(nodes) => xml_document(text@) == Ok::<Seq<XmlNodeView>, Seq<char>>(node_views(nodes@)),
            Err(e) => xml_document(text@) == Err::<Seq<XmlNodeView>, Seq<char>>(e@),
        },
{
    let doc = roxmltree::Document::parse(text).map_err(|e| e.to_string())?;
    Ok(doc.descendants().map(|n| XmlNode {
        element: n.is_element(),
        name: n.tag_name().name().to_string(),
        parent: n.parent().map(|p| p.id().get_usize()),
        attributes: n.attributes().map(|a| XmlAttribute {
            namespace: a.namespace().map(str::to_string),
            name: a.name().to_string(),
            value: a.value().to_string(),
        }).collect(),
        text: n.text().map(str::to_string),
    }).collect())
}

/// Whether node `i` is an element named `name`.
pub open spec fn named_element(nodes: Seq<XmlNodeView>, i: int, name: Seq<char>) -> bool {
    0 <= i < nodes.len() && nodes[i].element && nodes[i].name == name
}

/// Whether node `c` is an element named `name` whose parent is `p`.
pub open spec fn child_named(nodes: Seq<XmlNodeView>, p: int, name: Seq<char>, c: int) -> bool {
    named_element(nodes, c, name) && nodes[c].parent == Some(p as usize) && 0 <= p
}

/// The children of `p` that are elements named `name`, among the first `n`
/// nodes, in document order.
pub open spec fn children_named_upto(nodes: Seq<XmlNodeView>, p: int, name: Seq<char>, n: int) -> Seq<
    usize,
>
    decreases n,
{
    if n <= 0 {
        Seq::empty()
    } else {
        let prev = children_named_upto(nodes, p, name, n - 1);
        if child_named(nodes, p, name, n - 1) {
            prev.push((n - 1) as usize)
        } else {
            prev
        }
    }
}

/// The children of `p` that are elements named `name`, in document order.
pub open spec fn children_named(nodes: Seq<XmlNodeView>, p: int, name: Seq<char>) -> Seq<usize> {
    children_named_upto(nodes, p, name, nodes.len() as int)
}

/// The first child of `p` that is an element named `name`, searching from `k`.
pub open spec fn first_child_from(nodes: Seq<XmlNodeView>, p: int, name: Seq<char>, k: int) -> Option<
    usize,
>
    decreases nodes.len() - k,
{
    if k < 0 || k >= nodes.len() {
        None
    } else if child_named(nodes, p, name, k) {
        Some(k as usize)
    } else {
        first_child_from(nodes, p, name, k + 1)
    }
}

/// The first child of `p` that is an element named `name`.
pub open spec fn first_child_named(nodes: Seq<XmlNodeView>, p: int, name: Seq<char>) -> Option<usize> {
    first_child_from(nodes, p, name, 0)
}

/// Whether node `j` is node `i` or lies below it.
pub open spec fn descends(nodes: Seq<XmlNodeView>, j: int, i: int) -> bool
    decreases j,
{
    if j == i {
        true
    } else if 0 <= j < nodes.len() {
        match nodes[j].parent {
            Some(q) => q < j && descends(nodes, q as int, i),
            None => false,
        }
    } else {
        false
    }
}

/// The first node at or after `k` in the subtree of `i` that is an element
/// named `name`.
pub open spec fn find_named_from(nodes: Seq<XmlNodeView>, i: int, name: Seq<char>, k: int) -> Option<
    usize,
>
    decreases nodes.len() - k,
{
    if k < 0 || k >= nodes.len() {
        None
    } else if descends(nodes, k, i) && named_element(nodes, k, name) {
        Some(k as usize)
    } else {
        find_named_from(nodes, i, name, k + 1)
    }
}

/// Node `i` when it is an element named `name`, else its first descendant
/// element with that name, in document order.
pub open spec fn find_named(nodes: Seq<XmlNodeView>, i: int, name: Seq<char>) -> Option<usize> {
    find_named_from(nodes, i, name, i)
}

/// The namespace of the `xml:` prefix.
pub open spec fn xml_namespace() -> Seq<char> {
    "http://www.w3.org/XML/1998/namespace"@
}

/// The value of the first attribute from `k` on named `name`, in the `xml:`
/// namespace when `in_xml_ns`, in any namespace otherwise.
pub open spec fn attribute_from(
    attrs: Seq<XmlAttributeView>,
    name: Seq<char>,
    in_xml_ns: bool,
    k: int,
) -> Option<Seq<char>>
    decreases attrs.len() - k,
{
    if k < 0 || k >= attrs.len() {
        None
    } else if attrs[k].name == name && (!in_xml_ns || attrs[k].namespace == Some(xml_namespace())) {
        Some(attrs[k].value)
    } else {
        attribute_from(attrs, name, in_xml_ns, k + 1)
    }
}

/// Attribute `name` of a node: `xml:name` when present, else the first
/// attribute with that local name.
pub open spec fn attribute(node: XmlNodeView, name: Seq<char>) -> Option<Seq<char>> {
    match attribute_from(node.attributes, name, true, 0) {
        Some(v) => Some(v),
        None => attribute_from(node.attributes, name, false, 0),
    }
}

/// The children of node `p` that are elements named `name`, in document order.
pub fn matching_children(nodes: &Vec<XmlNode>, p: usize, name: &str) -> (r: Vec<usize>)
    ensures
        r@ == children_named(node_views(nodes@), p as int, name@),
{
    let ghost v = node_views(nodes@);
    let mut r: Vec<usize> = Vec::new();
    let mut i: usize = 0;
    while i < nodes.len()
        invariant
            i <= nodes.len(),
            v == node_views(nodes@),
            r@ == children_named_upto(v, p as int, name@, i as int),
        decreases nodes.len() - i,
    {
        let n = &nodes[i];
        assert(v[i as int] == n@);
        let hit = n.element && str_eq(n.name.as_str(), name) && match n.parent {
            Some(q) => q == p,
            None => false,
        };
        if hit {
            r.push(i);
        }
        i += 1;
    }
    r
}

/// The first child of node `p` that is an element named `name`.
pub fn matching_child(nodes: &Vec<XmlNode>, p: usize, name: &str) -> (r: Option<usize>)
    ensures
        r == first_child_named(node_views(nodes@), p as int, name@),
{
    let ghost v = node_views(nodes@);
    let mut i: usize = 0;
    while i < nodes.len()
        invariant
            i <= nodes.len(),
            v == node_views(nodes@),
            first_child_named(v, p as int, name@) == first_child_from(v, p as int, name@, i as int),
        decreases nodes.len() - i,
    {
        let n = &nodes[i];
        assert(v[i as int] == n@);
        let hit = n.element && str_eq(n.name.as_str(), name) && match n.parent {
            Some(q) => q == p,
            None => false,
        };
        if hit {
            return Some(i);
        }
        i += 1;
    }
    None
}

/// Whether node `j` is node `i` or lies below it.
pub fn descends_from(nodes: &Vec<XmlNode>, j: usize, i: usize) -> (r: bool)
    ensures
        r == descends(node_views(nodes@), j as int, i as int),
{
    let ghost v = node_views(nodes@);
    let mut k = j;
    loop
        invariant
            v == node_views(nodes@),
            descends(v, j as int, i as int) == descends(v, k as int, i as int),
        decreases k,
    {
        if k == i {
            return true;
        }
        if k >= nodes.len() {
            return false;
        }
        assert(v[k as int] == nodes@[k as int]@);
        match nodes[k].parent {
            Some(q) => {
                if q < k {
                    k = q;
                } else {
                    return false;
                }
            },
            None => {
                return false;
            },
        }
    }
}

/// Node `i` when it is an element named `name`, else its first descendant
/// element with that name.
pub fn find_first_by_local_name(nodes: &Vec<XmlNode>, i: usize, name: &str) -> (r: Option<usize>)
    ensures
        r == find_named(node_views(nodes@), i as int, name@),
{
    let ghost v = node_views(nodes@);
    let mut k = i;
    while k < nodes.len()
        invariant
            i <= k,
            v == node_views(nodes@),
            find_named(v, i as int, name@) == find_named_from(v, i as int, name@, k as int),
        decreases nodes.len() - k,
    {
        let n = &nodes[k];
        assert(v[k as int] == n@);
        if n.element && str_eq(n.name.as_str(), name) && descends_from(nodes, k, i) {
            return Some(k);
        }
        k += 1;
    }
    None
}

fn attribute_scan(attrs: &Vec<XmlAttribute>, name: &str, in_xml_ns: bool) -> (r: Option<String>)
    ensures
        match r {
            Some(s) => attribute_from(attrs@.map_values(|a: XmlAttribute| a@), name@, in_xml_ns, 0)
                == Some(s@),
            None => attribute_from(attrs@.map_values(|a: XmlAttribute| a@), name@, in_xml_ns, 0) is None,
        },
{
    let ghost v = attrs@.map_values(|a: XmlAttribute| a@);
    let mut k: usize = 0;
    while k < attrs.len()
        invariant
            k <= attrs.len(),
            v == attrs@.map_values(|a: XmlAttribute| a@),
            attribute_from(v, name@, in_xml_ns, 0) == attribute_from(v, name@, in_xml_ns, k as int),
        decreases attrs.len() - k,
    {
        let a = &attrs[k];
        assert(v[k as int] == a@);
        let ns_ok = if in_xml_ns {
            match &a.namespace {
                Some(n) => str_eq(n.as_str(), "http://www.w3.org/XML/1998/namespace"),
                None => false,
            }
        } else {
            true
        };
        if str_eq(a.name.as_str(), name) && ns_ok {
            return Some(a.value.clone());
        }
        k += 1;
    }
    None
}

/// Attribute `name` of node `i`: `xml:name` when present, else the first
/// attribute with that local name.
pub fn attribute_value(nodes: &Vec<XmlNode>, i: usize, name: &str) -> (r: Option<String>)
    requires
        i < nodes.len(),
    ensures
        match r {
            Some(s) => attribute(node_views(nodes@)[i as int], name@) == Some(s@),
            None => attribute(node_views(nodes@)[i as int], name@) is None,
        },
{
    let n = &nodes[i];
    assert(node_views(nodes@)[i as int] == n@);
    match attribute_scan(&n.attributes, name, true) {
        Some(s) => Some(s),
        None => attribute_scan(&n.attributes, name, false),
    }
}


/// Indices found by [`find_named_from`] lie in the document.
pub proof fn lemma_find_named_bound(nodes: Seq<XmlNodeView>, i: int, name: Seq<char>, k: int)
    requires
        nodes.len() <= usize::MAX,
    ensures
        find_named_from(nodes, i, name, k) matches Some(j) ==> k <= j < nodes.len(),
    decreases nodes.len() - k,
{
    if 0 <= k < nodes.len() && !(descends(nodes, k, i) && named_element(nodes, k, name)) {
        lemma_find_named_bound(nodes, i, name, k + 1);
    }
}

/// Indices found by [`first_child_from`] lie in the document.
pub proof fn lemma_first_child_bound(nodes: Seq<XmlNodeView>, p: int, name: Seq<char>, k: int)
    requires
        nodes.len() <= usize::MAX,
    ensures
        first_child_from(nodes, p, name, k) matches Some(j) ==> k <= j < nodes.len(),
    decreases nodes.len() - k,
{
    if 0 <= k < nodes.len() && !child_named(nodes, p, name, k) {
        lemma_first_child_bound(nodes, p, name, k + 1);
    }
}

/// Children listed by [`children_named_upto`] lie below the bound.
pub proof fn lemma_children_upto_bound(nodes: Seq<XmlNodeView>, p: int, name: Seq<char>, n: int)
    requires
        n <= usize::MAX,
    ensures
        forall|j: int|
            0 <= j < children_named_upto(nodes, p, name, n).len() ==> (#[trigger] children_named_upto(
                nodes,
                p,
                name,
                n,
            )[j]) < n,
    decreases n,
{
    if n > 0 {
        lemma_children_upto_bound(nodes, p, name, n - 1);
        let prev = children_named_upto(nodes, p, name, n - 1);
        let cur = children_named_upto(nodes, p, name, n);
        assert forall|j: int| 0 <= j < cur.len() implies #[trigger] cur[j] < n by {
            if j < prev.len() {
                assert(cur[j] == prev[j]);
            }
        }
    }
}

/// The `i`-th listed child lies in the document.
pub proof fn lemma_children_bound(nodes: Seq<XmlNodeView>, p: int, name: Seq<char>, i: int)
    requires
        0 <= i < children_named(nodes, p, name).len(),
        nodes.len() <= usize::MAX,
    ensures
        children_named(nodes, p, name)[i] < nodes.len(),
{
    lemma_children_upto_bound(nodes, p, name, nodes.len() as int);
}

} // verus!
