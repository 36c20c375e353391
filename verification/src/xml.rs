//! XML documents as the list of their nodes.

use vstd::prelude::*;

use crate::text::same_text;

verus! {

/// An attribute of an element.
#[derive(Debug)]
pub struct XmlAttribute {
    /// The URI of its namespace, where it has one.
    pub namespace: Option<String>,
    /// Its name without a prefix.
    pub name: String,
    pub value: String,
}

/// A node of a document.
#[derive(Debug)]
pub struct XmlNode {
    /// The place of the parent in the list; the root has none.
    pub parent: Option<usize>,
    pub is_element: bool,
    /// The name of an element without a prefix; empty for any other node.
    pub name: String,
    /// Of an element the text that it begins with, of a text or a comment its own.
    pub text: Option<String>,
    pub attributes: Vec<XmlAttribute>,
}

/// What an attribute holds.
pub struct AttributeView {
    pub namespace: Option<Seq<char>>,
    pub name: Seq<char>,
    pub value: Seq<char>,
}

/// What a node holds.
pub struct NodeView {
    pub parent: Option<usize>,
    pub is_element: bool,
    pub name: Seq<char>,
    pub text: Option<Seq<char>>,
    pub attributes: Seq<AttributeView>,
}

/// The text of a string that may be absent.
pub open spec fn text_of(s: Option<String>) -> Option<Seq<char>> {
    match s {
        Some(t) => Some(t@),
        None => None,
    }
}

impl View for XmlAttribute {
    type V = AttributeView;

    open spec fn view(&self) -> AttributeView {
        AttributeView {
            namespace: text_of(self.namespace),
            name: self.name@,
            value: self.value@,
        }
    }
}

impl View for XmlNode {
    type V = NodeView;

    open spec fn view(&self) -> NodeView {
        NodeView {
            parent: self.parent,
            is_element: self.is_element,
            name: self.name@,
            text: text_of(self.text),
            attributes: Seq::new(self.attributes@.len(), |i: int| self.attributes@[i]@),
        }
    }
}

/// What each node of a list holds.
pub open spec fn nodes_of(nodes: Seq<XmlNode>) -> Seq<NodeView> {
    Seq::new(nodes.len(), |i: int| nodes[i]@)
}

/// What a parse of XML gave: the nodes, or the text of the error.
pub open spec fn tree_of(r: Result<Vec<XmlNode>, String>) -> Result<Seq<NodeView>, Seq<char>> {
    match r {
        Ok(nodes) => Ok(nodes_of(nodes@)),
        Err(e) => Err(e@),
    }
}

/// Whether the node at `k` is below the node at `i`: its child, or below a child.
pub open spec fn is_below(ns: Seq<NodeView>, i: int, k: int) -> bool
    decreases k,
{
    ns[k].parent matches Some(p) && p < k && (p == i || is_below(ns, i, p as int))
}

/// Whether the nodes stand in document order: each behind its parent, with nothing between but
/// what is below the parent too.
pub open spec fn in_document_order(ns: Seq<NodeView>) -> bool {
    forall|k: int|
        0 < k < ns.len() ==> (#[trigger] ns[k].parent matches Some(p) && p < k && (p == k - 1
            || is_below(ns, p as int, k - 1)))
}

/// The nodes of the XML document that a text holds, or the text of the parser's error, as
/// `roxmltree::Document::parse` gives them.
pub uninterp spec fn xml_tree(xml: Seq<char>) -> Result<Seq<NodeView>, Seq<char>>;

/// `roxmltree::Document::parse`, its nodes in document order as `Document::descendants` walks
/// them, each with the place of its parent in that order (the parent's `NodeId`). What comes out
/// is a function of the text alone; the parser adds each node to the element that is open, so the
/// nodes stand in document order.
#[verifier::external_body]
pub(crate) fn parse_xml(xml: &str) -> (r: Result<Vec<XmlNode>, String>)
    ensures
        tree_of(r) == xml_tree(xml@),
        r matches Ok(nodes) ==> in_document_order(nodes_of(nodes@)),
{
    let doc = roxmltree::Document::parse(xml).map_err(|e| e.to_string())?;
    Ok(doc.descendants().map(|n| XmlNode {
        parent: n.parent().map(|p| p.id().get_usize()),
        is_element: n.is_element(),
        name: n.tag_name().name().to_string(),
        text: n.text().map(|t| t.to_string()),
        attributes: n.attributes().map(|a| XmlAttribute {
            namespace: a.namespace().map(|s| s.to_string()),
            name: a.name().to_string(),
            value: a.value().to_string(),
        }).collect(),
    }).collect())
}

/// Whether the node at `j` has its parent at `i` or behind it.
pub open spec fn parent_from(ns: Seq<NodeView>, i: int, j: int) -> bool {
    ns[j].parent matches Some(p) && p >= i
}

/// The end of the run of nodes from `j` on with parents at `i` or behind it.
pub open spec fn run_end(ns: Seq<NodeView>, i: int, j: int) -> int
    decreases ns.len() - j,
{
    if j < ns.len() && parent_from(ns, i, j) {
        run_end(ns, i, j + 1)
    } else {
        j
    }
}

/// Where the subtree of the node at `i` ends: a node and all below it stand together, the node
/// first.
pub open spec fn end_of(ns: Seq<NodeView>, i: int) -> int {
    run_end(ns, i, i + 1)
}

/// Whether the node at `k` is a child of the node at `i`.
pub open spec fn is_child(ns: Seq<NodeView>, i: int, k: int) -> bool {
    i < k < end_of(ns, i) && ns[k].parent == Some(i as usize)
}

proof fn lemma_run_end(ns: Seq<NodeView>, i: int, j: int)
    requires
        0 <= j <= ns.len(),
    ensures
        j <= run_end(ns, i, j) <= ns.len(),
        forall|k: int| j <= k < run_end(ns, i, j) ==> #[trigger] parent_from(ns, i, k),
        run_end(ns, i, j) < ns.len() ==> !parent_from(ns, i, run_end(ns, i, j)),
    decreases ns.len() - j,
{
    if j < ns.len() && parent_from(ns, i, j) {
        lemma_run_end(ns, i, j + 1);
    }
}

/// A subtree holds its root, and ends within the list.
pub proof fn lemma_end_of(ns: Seq<NodeView>, i: int)
    requires
        0 <= i < ns.len(),
    ensures
        i < end_of(ns, i) <= ns.len(),
        forall|k: int| i < k < end_of(ns, i) ==> #[trigger] parent_from(ns, i, k),
{
    lemma_run_end(ns, i, i + 1);
}

/// The subtree of a node ends before, or where, a later node begins whose parent stands before it.
pub proof fn lemma_end_before(ns: Seq<NodeView>, i: int, k: int)
    requires
        0 <= i < k < ns.len(),
        !parent_from(ns, i, k),
    ensures
        end_of(ns, i) <= k,
{
    lemma_run_end(ns, i, i + 1);
    if k < end_of(ns, i) {
        assert(parent_from(ns, i, k));
    }
}

/// Where the subtree of a node ends.
pub fn subtree_end(nodes: &Vec<XmlNode>, i: usize) -> (r: usize)
    requires
        i < nodes@.len(),
    ensures
        i < r <= nodes@.len(),
        r == end_of(nodes_of(nodes@), i as int),
{
    let n: usize = nodes.len();
    let mut j: usize = i + 1;
    while j < n
        invariant
            n == nodes@.len(),
            i < j <= n,
            run_end(nodes_of(nodes@), i as int, i + 1) == run_end(
                nodes_of(nodes@),
                i as int,
                j as int,
            ),
        decreases n - j,
    {
        assert(nodes_of(nodes@)[j as int] == nodes@[j as int]@);
        match nodes[j].parent {
            Some(p) => {
                if p < i {
                    return j;
                }
            },
            None => {
                return j;
            },
        }
        j = j + 1;
    }
    j
}

/// The first place from `from` on, before `to`, with a node of the name; `to` where there is none.
pub open spec fn first_named(ns: Seq<NodeView>, name: Seq<char>, from: int, to: int) -> int
    decreases to - from,
{
    if from >= to || ns[from].name == name {
        from
    } else {
        first_named(ns, name, from + 1, to)
    }
}

/// The first node of the name between two places.
pub fn find_node(nodes: &Vec<XmlNode>, name: &str, from: usize, to: usize) -> (r: usize)
    requires
        from <= to <= nodes@.len(),
    ensures
        from <= r <= to,
        r == first_named(nodes_of(nodes@), name@, from as int, to as int),
        r < to ==> nodes@[r as int].name@ == name@,
        forall|k: int| from <= k < r ==> (#[trigger] nodes@[k]).name@ != name@,
{
    let mut i: usize = from;
    while i < to
        invariant
            from <= i <= to <= nodes@.len(),
            first_named(nodes_of(nodes@), name@, from as int, to as int) == first_named(
                nodes_of(nodes@),
                name@,
                i as int,
                to as int,
            ),
            forall|k: int| from <= k < i ==> (#[trigger] nodes@[k]).name@ != name@,
        decreases to - i,
    {
        assert(nodes_of(nodes@)[i as int] == nodes@[i as int]@);
        if same_text(nodes[i].name.as_str(), name) {
            return i;
        }
        i = i + 1;
    }
    i
}

/// The value of the first attribute with one of two names, whatever its namespace.
pub open spec fn value_named(
    attributes: Seq<AttributeView>,
    name: Seq<char>,
    other: Seq<char>,
) -> Option<Seq<char>>
    decreases attributes.len(),
{
    if attributes.len() == 0 {
        None
    } else if attributes[0].name == name || attributes[0].name == other {
        Some(attributes[0].value)
    } else {
        value_named(attributes.drop_first(), name, other)
    }
}

/// The value of the first attribute with the name that is in no namespace.
pub open spec fn plain_value(attributes: Seq<AttributeView>, name: Seq<char>) -> Option<Seq<char>>
    decreases attributes.len(),
{
    if attributes.len() == 0 {
        None
    } else if attributes[0].namespace is None && attributes[0].name == name {
        Some(attributes[0].value)
    } else {
        plain_value(attributes.drop_first(), name)
    }
}

impl XmlNode {
    /// The value of the first attribute with one of two names.
    pub fn attribute_named(&self, name: &str, other: &str) -> (r: Option<String>)
        ensures
            text_of(r) == value_named(self@.attributes, name@, other@),
    {
        let ghost all = self@.attributes;
        let mut i: usize = 0;
        assert(all.skip(0) == all);
        while i < self.attributes.len()
            invariant
                i <= self.attributes@.len() == all.len(),
                all == self@.attributes,
                value_named(all, name@, other@) == value_named(all.skip(i as int), name@, other@),
            decreases self.attributes.len() - i,
        {
            assert(all.skip(i as int)[0] == self.attributes@[i as int]@);
            assert(all.skip(i as int).drop_first() == all.skip(i + 1));
            if same_text(self.attributes[i].name.as_str(), name) || same_text(
                self.attributes[i].name.as_str(),
                other,
            ) {
                return Some(self.attributes[i].value.clone());
            }
            i = i + 1;
        }
        None
    }

    /// The value of the attribute with the name that is in no namespace.
    pub fn attribute(&self, name: &str) -> (r: Option<String>)
        ensures
            text_of(r) == plain_value(self@.attributes, name@),
    {
        let ghost all = self@.attributes;
        let mut i: usize = 0;
        assert(all.skip(0) == all);
        while i < self.attributes.len()
            invariant
                i <= self.attributes@.len() == all.len(),
                all == self@.attributes,
                plain_value(all, name@) == plain_value(all.skip(i as int), name@),
            decreases self.attributes.len() - i,
        {
            assert(all.skip(i as int)[0] == self.attributes@[i as int]@);
            assert(all.skip(i as int).drop_first() == all.skip(i + 1));
            if self.attributes[i].namespace.is_none() && same_text(
                self.attributes[i].name.as_str(),
                name,
            ) {
                return Some(self.attributes[i].value.clone());
            }
            i = i + 1;
        }
        None
    }
}

} // verus!
