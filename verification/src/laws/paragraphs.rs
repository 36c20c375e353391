//! Paragraphs: what each says, and what becomes of it.

use vstd::prelude::*;

use crate::document::with_paragraph;
use crate::draft::DraftView;
use crate::entries::ImageView;
use crate::images::{images_in, lemma_images_between};
use crate::number::parsed;
use crate::paragraph::{is_item, level_of, text_between, text_in, text_piece};
use crate::text::trimmed;
use crate::xml::{end_of, first_named, lemma_end_of, value_named, AttributeView, NodeView};

verus! {

/// Whether a text is made of what nodes say, one after the other: node `from + k` says what stands
/// between the places `at[k]` and `at[k + 1]`. A node of the name `t` says its whole text, `tab` a
/// tab, `br` a line feed, and any other node nothing.
pub open spec fn is_said_by(
    text: Seq<char>,
    ns: Seq<NodeView>,
    from: int,
    to: int,
    at: Seq<int>,
) -> bool {
    &&& at.len() == to - from + 1
    &&& at[0] == 0
    &&& at[to - from] == text.len()
    &&& forall|k: int|
        0 <= k < to - from ==> 0 <= #[trigger] at[k] <= at[k + 1] <= text.len()
    &&& forall|k: int| #![trigger ns[from + k]]
        0 <= k < to - from ==> {
            let said = text.subrange(at[k], at[k + 1]);
            let n = ns[from + k];
            &&& n.name == "t"@ ==> said == (match n.text {
                Some(t) => t,
                None => Seq::<char>::empty(),
            })
            &&& n.name == "tab"@ ==> said == seq!['\t']
            &&& n.name == "br"@ ==> said == seq!['\n']
            &&& n.name != "t"@ && n.name != "tab"@ && n.name != "br"@ ==> said.len() == 0
        }
}

proof fn lemma_said(ns: Seq<NodeView>, from: int, to: int) -> (at: Seq<int>)
    requires
        from <= to,
    ensures
        is_said_by(text_between(ns, from, to), ns, from, to, at),
    decreases to - from,
{
    reveal_strlit("t");
    reveal_strlit("tab");
    reveal_strlit("br");
    assert("t"@.len() == 1 && "tab"@.len() == 3 && "br"@.len() == 2);
    if from == to {
        seq![0int]
    } else {
        let was = lemma_said(ns, from, to - 1);
        let earlier = text_between(ns, from, to - 1);
        let text = text_between(ns, from, to);
        let at = was.push(text.len() as int);
        assert forall|k: int| #![trigger ns[from + k]] 0 <= k < to - from implies {
            let said = text.subrange(at[k], at[k + 1]);
            let n = ns[from + k];
            &&& n.name == "t"@ ==> said == (match n.text {
                Some(t) => t,
                None => Seq::<char>::empty(),
            })
            &&& n.name == "tab"@ ==> said == seq!['\t']
            &&& n.name == "br"@ ==> said == seq!['\n']
            &&& n.name != "t"@ && n.name != "tab"@ && n.name != "br"@ ==> said.len() == 0
        } by {
            if k < to - from - 1 {
                assert(at[k] == was[k] && at[k + 1] == was[k + 1]);
                assert(text.subrange(at[k], at[k + 1]) == earlier.subrange(was[k], was[k + 1]));
            } else {
                assert(text.subrange(at[k], at[k + 1]) == text_piece(ns[to - 1]));
            }
        }
        assert forall|k: int| 0 <= k < to - from implies 0 <= #[trigger] at[k] <= at[k + 1]
            <= text.len() by {
            if k < to - from - 1 {
                assert(at[k] == was[k] && at[k + 1] == was[k + 1]);
            } else {
                assert(at[k] == was[k]);
            }
        }
        at
    }
}

/// The text of a paragraph is all that its nodes say, in the order of the document: no character
/// of a text node is left out, and none is added.
pub proof fn text_is_said_in_order(ns: Seq<NodeView>, para: int) -> (at: Seq<int>)
    requires
        0 <= para < ns.len(),
    ensures
        is_said_by(text_in(ns, para), ns, para, end_of(ns, para), at),
{
    lemma_end_of(ns, para);
    lemma_said(ns, para, end_of(ns, para))
}

/// What nodes say goes on: the text of neighbouring nodes is that of the first ones, and behind it
/// that of the others.
pub proof fn text_goes_on(ns: Seq<NodeView>, from: int, mid: int, to: int)
    requires
        from <= mid <= to,
    ensures
        text_between(ns, from, to) == text_between(ns, from, mid) + text_between(ns, mid, to),
    decreases to - mid,
{
    if mid < to {
        text_goes_on(ns, from, mid, to - 1);
        assert(text_between(ns, from, to) == text_between(ns, from, mid) + text_between(
            ns,
            mid,
            to,
        ));
    } else {
        assert(text_between(ns, from, to) == text_between(ns, from, mid) + text_between(
            ns,
            mid,
            to,
        ));
    }
}

/// Two runs with the texts `a` and `b`, and nothing else that says anything, say `a` and `b`: white
/// space between them stays.
pub proof fn runs_are_joined(
    ns: Seq<NodeView>,
    para: int,
    i: int,
    j: int,
    a: Seq<char>,
    b: Seq<char>,
)
    requires
        0 <= para < ns.len(),
        para <= i < j < end_of(ns, para),
        ns[i].name == "t"@,
        ns[i].text == Some(a),
        ns[j].name == "t"@,
        ns[j].text == Some(b),
        forall|k: int|
            para <= k < end_of(ns, para) && k != i && k != j ==> (#[trigger] ns[k]).name != "t"@
                && ns[k].name != "tab"@ && ns[k].name != "br"@,
    ensures
        text_in(ns, para) == a + b,
{
    let end = end_of(ns, para);
    lemma_silent(ns, para, i);
    lemma_silent(ns, i + 1, j);
    lemma_silent(ns, j + 1, end);
    text_goes_on(ns, para, i, end);
    text_goes_on(ns, i, i + 1, end);
    text_goes_on(ns, i + 1, j, end);
    text_goes_on(ns, j, j + 1, end);
    assert(text_between(ns, i, i + 1) == text_between(ns, i, i) + text_piece(ns[i]));
    assert(text_between(ns, j, j + 1) == text_between(ns, j, j) + text_piece(ns[j]));
    assert(text_in(ns, para) == a + b);
}

proof fn lemma_silent(ns: Seq<NodeView>, from: int, to: int)
    requires
        from <= to,
        forall|k: int|
            from <= k < to ==> (#[trigger] ns[k]).name != "t"@ && ns[k].name != "tab"@
                && ns[k].name != "br"@,
    ensures
        text_between(ns, from, to).len() == 0,
    decreases to - from,
{
    if from < to {
        lemma_silent(ns, from, to - 1);
    }
}

/// The first node of a name is of the name, and no node before it is.
pub proof fn first_named_is_first(ns: Seq<NodeView>, name: Seq<char>, from: int, to: int)
    requires
        from <= to,
    ensures
        from <= first_named(ns, name, from, to) <= to,
        first_named(ns, name, from, to) < to ==> ns[first_named(ns, name, from, to)].name == name,
        forall|k: int|
            from <= k < first_named(ns, name, from, to) ==> (#[trigger] ns[k]).name != name,
    decreases to - from,
{
    if from < to && ns[from].name != name {
        first_named_is_first(ns, name, from + 1, to);
    }
}

/// The value at one of two names is that of the first attribute with such a name.
pub proof fn value_is_the_first(
    attributes: Seq<AttributeView>,
    name: Seq<char>,
    other: Seq<char>,
    i: int,
)
    requires
        0 <= i < attributes.len(),
        attributes[i].name == name || attributes[i].name == other,
        forall|k: int|
            0 <= k < i ==> (#[trigger] attributes[k]).name != name && attributes[k].name != other,
    ensures
        value_named(attributes, name, other) == Some(attributes[i].value),
    decreases i,
{
    if i > 0 {
        let rest = attributes.drop_first();
        assert(attributes[0].name != name && attributes[0].name != other);
        assert forall|k: int| 0 <= k < i - 1 implies (#[trigger] rest[k]).name != name
            && rest[k].name != other by {
            assert(rest[k] == attributes[k + 1]);
        }
        assert(rest[i - 1] == attributes[i]);
        value_is_the_first(rest, name, other, i - 1);
    }
}

/// Without an attribute of one of two names there is no value.
pub proof fn value_is_absent(attributes: Seq<AttributeView>, name: Seq<char>, other: Seq<char>)
    requires
        forall|k: int|
            0 <= k < attributes.len() ==> (#[trigger] attributes[k]).name != name
                && attributes[k].name != other,
    ensures
        value_named(attributes, name, other) is None,
    decreases attributes.len(),
{
    if attributes.len() > 0 {
        let rest = attributes.drop_first();
        assert(attributes[0].name != name);
        assert forall|k: int| 0 <= k < rest.len() implies (#[trigger] rest[k]).name != name
            && rest[k].name != other by {
            assert(rest[k] == attributes[k + 1]);
        }
        value_is_absent(rest, name, other);
    }
}

/// Whether a paragraph has the style of a heading of the level: its first style names `Heading` and
/// the level.
pub open spec fn has_heading_style(ns: Seq<NodeView>, para: int, level: int) -> bool {
    exists|at: int, rest: Seq<char>|
        #[trigger] is_first(ns, para, at, "pStyle"@) && value_named(
            ns[at].attributes,
            "val"@,
            "w:val"@,
        ) == Some("Heading"@ + rest) && #[trigger] parsed(rest) == Some(level as nat) && 1
            <= level <= 6
}

/// Whether the node at `at` is the first of the name in the subtree of the node at `para`.
pub open spec fn is_first(ns: Seq<NodeView>, para: int, at: int, name: Seq<char>) -> bool {
    &&& para <= at < end_of(ns, para)
    &&& ns[at].name == name
    &&& forall|k: int| para <= k < at ==> (#[trigger] ns[k]).name != name
}

/// The line of Markdown that a paragraph with a text becomes, by what its nodes are named: marks
/// and the text for a heading, a dash and the text for a paragraph with numbering that is no
/// heading, whatever other style it has, and the text alone for any other.
pub open spec fn is_line_of(line: Seq<char>, ns: Seq<NodeView>, para: int, text: Seq<char>) -> bool {
    &&& forall|level: int| #[trigger]
        has_heading_style(ns, para, level) ==> line == Seq::new(level as nat, |i: int| '#') + seq![
            ' ',
        ] + text
    &&& (forall|level: int| !has_heading_style(ns, para, level)) && (exists|k: int|
        para <= k < end_of(ns, para) && (#[trigger] ns[k]).name == "numPr"@) ==> line == seq![
        '-',
        ' ',
    ] + text
    &&& (forall|level: int| !has_heading_style(ns, para, level)) && (forall|k: int|
        para <= k < end_of(ns, para) ==> (#[trigger] ns[k]).name != "numPr"@) ==> line == text
}

proof fn lemma_level(ns: Seq<NodeView>, para: int, level: int)
    requires
        0 <= para < ns.len(),
    ensures
        has_heading_style(ns, para, level) <==> level_of(ns, para) == Some(level),
{
    lemma_end_of(ns, para);
    let end = end_of(ns, para);
    let first = first_named(ns, "pStyle"@, para, end);
    first_named_is_first(ns, "pStyle"@, para, end);
    let k = "Heading"@.len() as int;
    if has_heading_style(ns, para, level) {
        let (at, rest) = choose|at: int, rest: Seq<char>|
            #[trigger] is_first(ns, para, at, "pStyle"@) && value_named(
                ns[at].attributes,
                "val"@,
                "w:val"@,
            ) == Some("Heading"@ + rest) && #[trigger] parsed(rest) == Some(level as nat) && 1
                <= level <= 6;
        assert(at == first) by {
            if at < first {
                assert(ns[at].name != "pStyle"@);
            } else if first < at {
                assert(ns[first].name != "pStyle"@);
            }
        }
        let style = "Heading"@ + rest;
        assert(style.take(k) == "Heading"@);
        assert(style.skip(k) == rest);
    }
    if level_of(ns, para) == Some(level) {
        let style = value_named(ns[first].attributes, "val"@, "w:val"@).unwrap();
        let rest = style.skip(k);
        assert(style == "Heading"@ + rest);
        assert(is_first(ns, para, first, "pStyle"@));
    }
}

/// A paragraph that says something becomes a line, by what its nodes are named, with an empty line
/// behind it unless it is an item of a list; below it stand its images, with an empty line behind
/// them. It is counted as a paragraph, and as a heading or an item where it is one.
pub proof fn paragraph_becomes_line(
    d: DraftView,
    ns: Seq<NodeView>,
    para: int,
    rels: Map<Seq<char>, Seq<char>>,
    entries: spec_fn(Seq<char>) -> Option<ImageView>,
    text: Seq<char>,
)
    requires
        0 <= para < ns.len(),
        text == trimmed(text_in(ns, para)),
        text.len() > 0,
    ensures
        ({
            let after = with_paragraph(d, ns, para, rels, entries);
            let n = d.lines.len() as int;
            let images = images_in(d, ns, para, rels, entries).lines;
            let heading = exists|level: int| has_heading_style(ns, para, level);
            let numbered = exists|k: int|
                para <= k < end_of(ns, para) && (#[trigger] ns[k]).name == "numPr"@;
            let item = !heading && numbered;
            let worded = if item {
                n + 1
            } else {
                n + 2
            };
            &&& after.lines.len() == worded + if images.len() > 0 {
                images.len() + 1
            } else {
                0
            }
            &&& after.lines.take(n) == d.lines
            &&& is_line_of(after.lines[n], ns, para, text)
            &&& !item ==> after.lines[n + 1].len() == 0
            &&& images.len() > 0 ==> after.lines.subrange(worded, worded + images.len()) == images
                && after.lines.last().len() == 0
            &&& after.stats.paragraphs == d.stats.paragraphs + 1
            &&& after.stats.headings == d.stats.headings + if heading {
                1int
            } else {
                0
            }
            &&& after.stats.list_items == d.stats.list_items + if item {
                1int
            } else {
                0
            }
        }),
{
    reveal_strlit(" ");
    reveal_strlit("- ");
    assert(" "@ == seq![' ']);
    assert("- "@ == seq!['-', ' ']);
    lemma_end_of(ns, para);
    lemma_images_between(d, ns, para, end_of(ns, para), rels, entries);
    let after = with_paragraph(d, ns, para, rels, entries);
    let n = d.lines.len() as int;
    let images = images_in(d, ns, para, rels, entries).lines;
    assert forall|level: int| has_heading_style(ns, para, level) <==> level_of(ns, para) == Some(
        level,
    ) by {
        lemma_level(ns, para, level);
    }
    let heading = exists|level: int| has_heading_style(ns, para, level);
    if let Some(level) = level_of(ns, para) {
        assert(has_heading_style(ns, para, level));
    }
    assert(heading <==> level_of(ns, para) is Some);
    assert(after.lines.take(n) == d.lines);
    if let Some(level) = level_of(ns, para) {
        assert(after.lines[n] == Seq::new(level as nat, |i: int| '#') + seq![' '] + text);
        assert(is_line_of(after.lines[n], ns, para, text));
    }
    let item = level_of(ns, para) is None && is_item(ns, para);
    let worded = if item {
        n + 1
    } else {
        n + 2
    };
    if images.len() > 0 {
        assert(after.lines.subrange(worded, worded + images.len()) == images);
    }
}

/// A paragraph that says nothing becomes its images, with an empty line behind them, or without
/// images an empty line; it is not counted.
pub proof fn silent_paragraph_becomes_images(
    d: DraftView,
    ns: Seq<NodeView>,
    para: int,
    rels: Map<Seq<char>, Seq<char>>,
    entries: spec_fn(Seq<char>) -> Option<ImageView>,
)
    requires
        0 <= para < ns.len(),
        trimmed(text_in(ns, para)).len() == 0,
    ensures
        ({
            let after = with_paragraph(d, ns, para, rels, entries);
            let images = images_in(d, ns, para, rels, entries).lines;
            &&& after.lines == d.lines + images + seq![Seq::<char>::empty()]
            &&& after.stats == d.stats
        }),
{
    lemma_end_of(ns, para);
    lemma_images_between(d, ns, para, end_of(ns, para), rels, entries);
    let images = images_in(d, ns, para, rels, entries).lines;
    let after = with_paragraph(d, ns, para, rels, entries);
    assert(after.lines == d.lines + images + seq![Seq::<char>::empty()]);
}

/// What a paragraph adds besides lines and counts of text is what its images add.
pub proof fn paragraph_takes_its_images(
    d: DraftView,
    ns: Seq<NodeView>,
    para: int,
    rels: Map<Seq<char>, Seq<char>>,
    entries: spec_fn(Seq<char>) -> Option<ImageView>,
)
    requires
        0 <= para < ns.len(),
    ensures
        ({
            let after = with_paragraph(d, ns, para, rels, entries);
            let run = images_in(d, ns, para, rels, entries).draft;
            &&& after.assets == run.assets
            &&& after.image_index == run.image_index
            &&& after.unsupported == run.unsupported
            &&& after.stats.lines == d.stats.lines
        }),
{
    lemma_end_of(ns, para);
    lemma_images_between(d, ns, para, end_of(ns, para), rels, entries);
}

} // verus!
