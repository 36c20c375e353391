//! Documents: how the blocks of a body follow each other, and what is counted.

use vstd::prelude::*;

use crate::document::{
    body_before,
    conversion,
    converted,
    count_named,
    with_paragraph,
    without_blank_end,
};
use crate::draft::DraftView;
use crate::entries::ImageView;
use crate::errors::{ErrorKind, ErrorView};
use crate::summary::{ParsedView, StatsView, UnsupportedView};
use crate::table::with_table;
use crate::text::{joined, line_texts};
use crate::xml::{end_of, first_named, lemma_end_of, xml_tree, NodeView};
use super::markdown::blank_end_is_cut;
use super::paragraphs::first_named_is_first;
use super::places::{lemma_one_more, lists};

verus! {

/// Where the blocks of a body stand: its child elements of the names `p` and `tbl`.
pub open spec fn blocks_at(ns: Seq<NodeView>, body: int) -> spec_fn(int) -> bool {
    |k: int|
        body < k < end_of(ns, body) && ns[k].parent == Some(body as usize) && ns[k].is_element && (
        ns[k].name == "p"@ || ns[k].name == "tbl"@)
}

/// Whether drafts follow each other: the first is empty, and each has one block more than the one
/// before it.
pub open spec fn are_drafts_of(
    ds: Seq<DraftView>,
    ns: Seq<NodeView>,
    ps: Seq<int>,
    rels: Map<Seq<char>, Seq<char>>,
    entries: spec_fn(Seq<char>) -> Option<ImageView>,
) -> bool {
    &&& ds.len() == ps.len() + 1
    &&& is_empty(ds[0])
    &&& forall|i: int|
        #![trigger ps[i]]
        0 <= i < ps.len() ==> {
            &&& ns[ps[i]].name == "p"@ ==> ds[i + 1] == with_paragraph(
                ds[i],
                ns,
                ps[i],
                rels,
                entries,
            )
            &&& ns[ps[i]].name == "tbl"@ ==> ds[i + 1] == with_table(ds[i], ns, ps[i])
        }
}

/// Whether a draft holds nothing, and its first image will have the number one.
pub open spec fn is_empty(d: DraftView) -> bool {
    &&& d.lines.len() == 0
    &&& d.stats == StatsView { lines: 0, paragraphs: 0, headings: 0, list_items: 0 }
    &&& d.unsupported == UnsupportedView {
        tables_converted: 0,
        tables_degraded: 0,
        images_exported: 0,
        images_unresolved: 0,
        footnotes_ignored: 0,
        equations_ignored: 0,
    }
    &&& d.assets.len() == 0
    &&& d.image_index == 1
}

proof fn lemma_blocks(
    ns: Seq<NodeView>,
    body: int,
    to: int,
    rels: Map<Seq<char>, Seq<char>>,
    entries: spec_fn(Seq<char>) -> Option<ImageView>,
) -> (r: (Seq<int>, Seq<DraftView>))
    requires
        body + 1 <= to,
    ensures
        lists(r.0, body + 1, to, blocks_at(ns, body)),
        are_drafts_of(r.1, ns, r.0, rels, entries),
        body_before(ns, body, to, rels, entries) == r.1.last(),
    decreases to - body,
{
    if to == body + 1 {
        (Seq::empty(), seq![body_before(ns, body, to, rels, entries)])
    } else {
        let (ps, ds) = lemma_blocks(ns, body, to - 1, rels, entries);
        lemma_one_more(ps, body + 1, to - 1, blocks_at(ns, body));
        if blocks_at(ns, body)(to - 1) {
            let all = ps.push(to - 1);
            let drafts = ds.push(body_before(ns, body, to, rels, entries));
            reveal_strlit("p");
            reveal_strlit("tbl");
            assert("p"@.len() == 1 && "tbl"@.len() == 3);
            assert forall|i: int| #![trigger all[i]] 0 <= i < all.len() implies {
                &&& ns[all[i]].name == "p"@ ==> drafts[i + 1] == with_paragraph(
                    drafts[i],
                    ns,
                    all[i],
                    rels,
                    entries,
                )
                &&& ns[all[i]].name == "tbl"@ ==> drafts[i + 1] == with_table(
                    drafts[i],
                    ns,
                    all[i],
                )
            } by {
                if i < ps.len() {
                    assert(all[i] == ps[i]);
                    assert(drafts[i] == ds[i] && drafts[i + 1] == ds[i + 1]);
                } else {
                    assert(drafts[i] == ds.last());
                }
            }
            (all, drafts)
        } else {
            (ps, ds)
        }
    }
}

/// Where a number of nodes of one of two names stand.
pub open spec fn named_at(ns: Seq<NodeView>, name: Seq<char>, other: Seq<char>) -> spec_fn(
    int,
) -> bool {
    |k: int| ns[k].name == name || ns[k].name == other
}

/// A count of nodes is the number of the places at which they stand.
pub proof fn nodes_are_counted(ns: Seq<NodeView>, name: Seq<char>, other: Seq<char>, to: int) -> (ps:
    Seq<int>)
    requires
        0 <= to,
    ensures
        lists(ps, 0, to, named_at(ns, name, other)),
        count_named(ns, name, other, to) == ps.len(),
    decreases to,
{
    if to == 0 {
        Seq::empty()
    } else {
        let was = nodes_are_counted(ns, name, other, to - 1);
        lemma_one_more(was, 0, to - 1, named_at(ns, name, other));
        if named_at(ns, name, other)(to - 1) {
            was.push(to - 1)
        } else {
            was
        }
    }
}

/// What a conversion is made of.
pub struct Making {
    /// The place of the body.
    pub body: int,
    /// The places of its blocks.
    pub blocks: Seq<int>,
    /// The draft after each number of blocks.
    pub drafts: Seq<DraftView>,
    /// How many lines there are without the empty ones at the end.
    pub lines: int,
    /// The places of notes.
    pub notes: Seq<int>,
    /// The places of equations.
    pub equations: Seq<int>,
}

/// Whether a conversion is the one of a document: the blocks of the first body, one after the
/// other, as lines with line feeds between them and no empty line at the end, with the counts and
/// images of the blocks, and the numbers of lines, notes and equations.
pub open spec fn is_conversion_of(
    parsed: ParsedView,
    ns: Seq<NodeView>,
    rels: Map<Seq<char>, Seq<char>>,
    entries: spec_fn(Seq<char>) -> Option<ImageView>,
    m: Making,
) -> bool {
    let d = m.drafts.last();
    let n = ns.len() as int;
    &&& 0 <= m.body < n
    &&& ns[m.body].name == "body"@
    &&& forall|k: int| 0 <= k < m.body ==> (#[trigger] ns[k]).name != "body"@
    &&& lists(m.blocks, m.body + 1, end_of(ns, m.body), blocks_at(ns, m.body))
    &&& are_drafts_of(m.drafts, ns, m.blocks, rels, entries)
    &&& 0 <= m.lines <= d.lines.len()
    &&& forall|i: int| m.lines <= i < d.lines.len() ==> (#[trigger] d.lines[i]).len() == 0
    &&& m.lines > 0 ==> d.lines[m.lines - 1].len() > 0
    &&& parsed.markdown == joined(d.lines.take(m.lines), seq!['\n'])
    &&& parsed.assets == d.assets
    &&& parsed.stats == StatsView { lines: line_texts(parsed.markdown).len() as int, ..d.stats }
    &&& lists(m.notes, 0, n, named_at(ns, "footnoteReference"@, "endnoteReference"@))
    &&& lists(m.equations, 0, n, named_at(ns, "oMath"@, "oMathPara"@))
    &&& parsed.unsupported == UnsupportedView {
        footnotes_ignored: d.unsupported.footnotes_ignored + m.notes.len(),
        equations_ignored: d.unsupported.equations_ignored + m.equations.len(),
        ..d.unsupported
    }
}

/// A document with a body is converted, block by block in the order of the document.
pub proof fn blocks_follow_each_other(
    ns: Seq<NodeView>,
    rels: Map<Seq<char>, Seq<char>>,
    entries: spec_fn(Seq<char>) -> Option<ImageView>,
) -> (m: Making)
    ensures
        converted(ns, rels, entries) is Some <==> exists|k: int|
            0 <= k < ns.len() && (#[trigger] ns[k]).name == "body"@,
        converted(ns, rels, entries) matches Some(parsed) ==> is_conversion_of(
            parsed,
            ns,
            rels,
            entries,
            m,
        ),
{
    let n = ns.len() as int;
    let body = first_named(ns, "body"@, 0, n);
    first_named_is_first(ns, "body"@, 0, n);
    let notes = nodes_are_counted(ns, "footnoteReference"@, "endnoteReference"@, n);
    let equations = nodes_are_counted(ns, "oMath"@, "oMathPara"@, n);
    if body < n {
        lemma_end_of(ns, body);
        let (blocks, drafts) = lemma_blocks(ns, body, end_of(ns, body), rels, entries);
        let d = drafts.last();
        blank_end_is_cut(d.lines);
        reveal_strlit("\n");
        assert("\n"@ == seq!['\n']);
        let lines = without_blank_end(d.lines).len() as int;
        assert(lines > 0 ==> d.lines[lines - 1] == without_blank_end(d.lines).last());
        Making { body, blocks, drafts, lines, notes, equations }
    } else {
        Making {
            body,
            blocks: Seq::empty(),
            drafts: Seq::empty(),
            lines: 0,
            notes,
            equations,
        }
    }
}

/// A text is converted just where it is XML with a body; what comes out is the conversion of its
/// nodes. Otherwise parsing has failed.
pub proof fn texts_are_converted(
    xml: Seq<char>,
    rels: Map<Seq<char>, Seq<char>>,
    entries: spec_fn(Seq<char>) -> Option<ImageView>,
) -> (m: Making)
    ensures
        conversion(xml, rels, entries) is Ok <==> (xml_tree(xml) is Ok && exists|k: int|
            0 <= k < xml_tree(xml)->Ok_0.len() && (#[trigger] xml_tree(xml)->Ok_0[k]).name
                == "body"@),
        conversion(xml, rels, entries) matches Ok(parsed) ==> is_conversion_of(
            parsed,
            xml_tree(xml)->Ok_0,
            rels,
            entries,
            m,
        ),
        conversion(xml, rels, entries) matches Err(e) ==> e.kind == ErrorKind::ParseFailed,
        xml_tree(xml) matches Err(reason) ==> conversion(xml, rels, entries) == Err::<
            ParsedView,
            ErrorView,
        >(ErrorView { kind: ErrorKind::ParseFailed, message: "XML 解析失败: "@ + reason }),
{
    blocks_follow_each_other(xml_tree(xml)->Ok_0, rels, entries)
}

} // verus!
