//! What a paragraph of a word-processing document says and is.

use vstd::prelude::*;

use crate::number::{parse_usize, parsed};
use crate::text::{begins_with, same_text, strip_prefix};
use crate::xml::{
    end_of,
    find_node,
    first_named,
    nodes_of,
    subtree_end,
    value_named,
    NodeView,
    XmlNode,
};

verus! {

// ---------------------------------------------------------------------------------------------
// The text of a paragraph
// ---------------------------------------------------------------------------------------------

/// What a node adds to the text of the paragraph that it stands in.
pub open spec fn text_piece(n: NodeView) -> Seq<char> {
    if n.name == "t"@ {
        match n.text {
            Some(t) => t,
            None => seq![],
        }
    } else if n.name == "tab"@ {
        seq!['\t']
    } else if n.name == "br"@ {
        seq!['\n']
    } else {
        seq![]
    }
}

/// The text of the nodes from `from` on, before `to`.
pub open spec fn text_between(ns: Seq<NodeView>, from: int, to: int) -> Seq<char>
    decreases to - from,
{
    if to <= from {
        seq![]
    } else {
        text_between(ns, from, to - 1) + text_piece(ns[to - 1])
    }
}

/// The text of a paragraph, or of any other subtree.
pub open spec fn text_in(ns: Seq<NodeView>, para: int) -> Seq<char> {
    text_between(ns, para, end_of(ns, para))
}

/// The text of a paragraph.
pub fn paragraph_text(nodes: &Vec<XmlNode>, para: usize) -> (r: String)
    requires
        para < nodes@.len(),
    ensures
        r@ == text_in(nodes_of(nodes@), para as int),
{
    let end = subtree_end(nodes, para);
    let mut text = String::new();
    let mut i: usize = para;
    while i < end
        invariant
            para <= i <= end <= nodes@.len(),
            text@ == text_between(nodes_of(nodes@), para as int, i as int),
        decreases end - i,
    {
        let node = &nodes[i];
        assert(nodes_of(nodes@)[i as int] == node@);
        let ghost was = text@;
        if same_text(node.name.as_str(), "t") {
            match &node.text {
                Some(t) => text.append(t.as_str()),
                None => {},
            }
        } else if same_text(node.name.as_str(), "tab") {
            text.push('\t');
        } else if same_text(node.name.as_str(), "br") {
            text.push('\n');
        }
        assert(text@ == was + text_piece(node@));
        i = i + 1;
    }
    text
}

// ---------------------------------------------------------------------------------------------
// Headings and list items
// ---------------------------------------------------------------------------------------------

/// The level that a paragraph style stands for: `Heading1` to `Heading6`.
pub open spec fn style_level(style: Seq<char>) -> Option<int> {
    if begins_with(style, "Heading"@) {
        match parsed(style.skip("Heading"@.len() as int)) {
            Some(n) if 1 <= n <= 6 => Some(n as int),
            _ => None,
        }
    } else {
        None
    }
}

/// The level of the heading that a paragraph is, by its first style.
pub open spec fn level_of(ns: Seq<NodeView>, para: int) -> Option<int> {
    let at = first_named(ns, "pStyle"@, para, end_of(ns, para));
    if at < end_of(ns, para) {
        match value_named(ns[at].attributes, "val"@, "w:val"@) {
            Some(style) => style_level(style),
            None => None,
        }
    } else {
        None
    }
}

/// The level of the heading that a paragraph is.
pub fn heading_level(nodes: &Vec<XmlNode>, para: usize) -> (r: Option<usize>)
    requires
        para < nodes@.len(),
    ensures
        r is Some <==> level_of(nodes_of(nodes@), para as int) is Some,
        r matches Some(n) ==> level_of(nodes_of(nodes@), para as int) == Some(n as int) && 1 <= n
            <= 6,
{
    let end = subtree_end(nodes, para);
    let at = find_node(nodes, "pStyle", para, end);
    if at == end {
        return None;
    }
    assert(nodes_of(nodes@)[at as int] == nodes@[at as int]@);
    match nodes[at].attribute_named("val", "w:val") {
        Some(style) => match strip_prefix(style.as_str(), "Heading") {
            Some(rest) => match parse_usize(rest.as_str()) {
                Some(n) => {
                    if 1 <= n && n <= 6 {
                        Some(n)
                    } else {
                        None
                    }
                },
                None => None,
            },
            None => None,
        },
        None => None,
    }
}

/// Whether a paragraph is an item of a list: it has numbering properties.
pub open spec fn is_item(ns: Seq<NodeView>, para: int) -> bool {
    exists|k: int| para <= k < end_of(ns, para) && (#[trigger] ns[k]).name == "numPr"@
}

/// Whether a paragraph is an item of a list.
pub fn is_list_paragraph(nodes: &Vec<XmlNode>, para: usize) -> (r: bool)
    requires
        para < nodes@.len(),
    ensures
        r == is_item(nodes_of(nodes@), para as int),
{
    let end = subtree_end(nodes, para);
    let at = find_node(nodes, "numPr", para, end);
    let ghost ns = nodes_of(nodes@);
    proof {
        if at < end {
            assert(ns[at as int] == nodes@[at as int]@);
        } else {
            assert forall|k: int| para <= k < end implies (#[trigger] ns[k]).name != "numPr"@ by {
                assert(ns[k] == nodes@[k]@);
            }
        }
    }
    at < end
}

} // verus!
