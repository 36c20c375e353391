//! From the nodes of a word-processing document to Markdown.

use vstd::prelude::*;

use crate::draft::{Draft, DraftView};
use crate::entries::{EntryReader, ImageView, NoEntries};
use crate::errors::{outcome, AppError, AppResult, ErrorKind, ErrorView};
use crate::images::{extract_images_from_paragraph, images_in, lemma_images_between};
use crate::paragraph::{
    heading_level,
    is_item,
    is_list_paragraph,
    level_of,
    paragraph_text,
    text_in,
};
use crate::summary::{ParsedMarkdown, ParsedView, StatsView, UnsupportedSummary, UnsupportedView};
use crate::table::{parse_table_block, with_table};
use crate::text::{join, joined, line_texts, lines, same_text, texts, trim, trimmed};
use crate::text_map::TextMap;
use crate::xml::{
    end_of,
    find_node,
    first_named,
    is_child,
    lemma_end_before,
    lemma_end_of,
    nodes_of,
    parse_xml,
    subtree_end,
    xml_tree,
    NodeView,
    XmlNode,
};

verus! {

/// The marks of a heading of the level.
pub open spec fn marks(level: int) -> Seq<char> {
    Seq::new(level as nat, |i: int| '#')
}

/// The draft with the text of a paragraph: a heading, an item of a list, or plain text.
pub open spec fn with_text(
    d: DraftView,
    ns: Seq<NodeView>,
    para: int,
    text: Seq<char>,
) -> DraftView {
    let counted = StatsView { paragraphs: d.stats.paragraphs + 1, ..d.stats };
    match level_of(ns, para) {
        Some(level) => DraftView {
            lines: d.lines.push(marks(level) + " "@ + text).push(seq![]),
            stats: StatsView { headings: d.stats.headings + 1, ..counted },
            ..d
        },
        None => if is_item(ns, para) {
            DraftView {
                lines: d.lines.push("- "@ + text),
                stats: StatsView { list_items: d.stats.list_items + 1, ..counted },
                ..d
            }
        } else {
            DraftView { lines: d.lines.push(text).push(seq![]), stats: counted, ..d }
        },
    }
}

/// The draft with a paragraph: its text, and below it its images. A paragraph with neither is an
/// empty line.
pub open spec fn with_paragraph(
    d: DraftView,
    ns: Seq<NodeView>,
    para: int,
    rels: Map<Seq<char>, Seq<char>>,
    entries: spec_fn(Seq<char>) -> Option<ImageView>,
) -> DraftView {
    let text = trimmed(text_in(ns, para));
    let run = images_in(d, ns, para, rels, entries);
    let with_words = if text.len() > 0 {
        with_text(run.draft, ns, para, text)
    } else {
        run.draft
    };
    if run.lines.len() > 0 {
        DraftView { lines: (with_words.lines + run.lines).push(seq![]), ..with_words }
    } else if text.len() == 0 {
        with_words.line(seq![])
    } else {
        with_words
    }
}

/// A paragraph adds no more to a count than it has nodes.
proof fn lemma_paragraph_within(
    d: DraftView,
    ns: Seq<NodeView>,
    para: int,
    rels: Map<Seq<char>, Seq<char>>,
    entries: spec_fn(Seq<char>) -> Option<ImageView>,
    n: int,
)
    requires
        0 <= para < ns.len(),
        d.within(n),
    ensures
        with_paragraph(d, ns, para, rels, entries).within(n + end_of(ns, para) - para),
{
    lemma_end_of(ns, para);
    lemma_images_between(d, ns, para, end_of(ns, para), rels, entries);
}

fn heading_marks(level: usize) -> (r: String)
    ensures
        r@ == marks(level as int),
{
    let mut r = String::new();
    let mut i: usize = 0;
    while i < level
        invariant
            i <= level,
            r@ == marks(i as int),
        decreases level - i,
    {
        r.push('#');
        i = i + 1;
        assert(r@ == marks(i as int));
    }
    r
}

/// Adds a paragraph to the draft.
pub fn parse_paragraph_block<R: EntryReader>(
    nodes: &Vec<XmlNode>,
    para: usize,
    rel_map: &TextMap,
    reader: &mut R,
    draft: &mut Draft,
)
    requires
        para < nodes@.len(),
        with_paragraph(
            old(draft)@,
            nodes_of(nodes@),
            para as int,
            rel_map@,
            old(reader).entries(),
        ).fits(),
    ensures
        final(draft)@ == with_paragraph(
            old(draft)@,
            nodes_of(nodes@),
            para as int,
            rel_map@,
            old(reader).entries(),
        ),
        final(reader).entries() == old(reader).entries(),
{
    let ghost ns = nodes_of(nodes@);
    let ghost d = draft@;
    let ghost run = images_in(d, ns, para as int, rel_map@, reader.entries());
    proof {
        lemma_end_of(ns, para as int);
        lemma_images_between(
            d,
            ns,
            para as int,
            end_of(ns, para as int),
            rel_map@,
            reader.entries(),
        );
    }
    let text = trim(paragraph_text(nodes, para).as_str());
    let images = extract_images_from_paragraph(nodes, para, rel_map, reader, draft);
    assert(images@.len() == texts(images@).len());
    if text.as_str().is_empty() && images.len() == 0 {
        draft.push_blank();
        return;
    }
    if !text.as_str().is_empty() {
        draft.stats.paragraphs = draft.stats.paragraphs + 1;
        if let Some(level) = heading_level(nodes, para) {
            let mut line = heading_marks(level);
            line.append(" ");
            line.append(text.as_str());
            draft.push_line(line);
            draft.push_blank();
            draft.stats.headings = draft.stats.headings + 1;
        } else if is_list_paragraph(nodes, para) {
            let mut line = "- ".to_owned();
            line.append(text.as_str());
            draft.push_line(line);
            draft.stats.list_items = draft.stats.list_items + 1;
        } else {
            draft.push_line(text.clone());
            draft.push_blank();
        }
        assert(draft@ =~= with_text(run.draft, ns, para as int, text@));
    }
    if images.len() > 0 {
        let ghost worded = draft@;
        let mut i: usize = 0;
        assert(worded.lines + run.lines.take(0) == worded.lines);
        while i < images.len()
            invariant
                i <= images@.len(),
                texts(images@) == run.lines,
                draft@ == (DraftView { lines: worded.lines + run.lines.take(i as int), ..worded }),
            decreases images.len() - i,
        {
            assert(run.lines[i as int] == images@[i as int]@);
            draft.push_line(images[i].clone());
            assert((worded.lines + run.lines.take(i as int)).push(run.lines[i as int])
                == worded.lines + run.lines.take(i + 1));
            i = i + 1;
        }
        assert(run.lines.take(i as int) == run.lines);
        draft.push_blank();
    }
}

/// The draft of the paragraphs and tables of a body that stand before `to`.
pub open spec fn body_before(
    ns: Seq<NodeView>,
    body: int,
    to: int,
    rels: Map<Seq<char>, Seq<char>>,
    entries: spec_fn(Seq<char>) -> Option<ImageView>,
) -> DraftView
    decreases to - body,
{
    if to <= body + 1 {
        DraftView::empty()
    } else {
        let earlier = body_before(ns, body, to - 1, rels, entries);
        let n = ns[to - 1];
        if is_child(ns, body, to - 1) && n.is_element && n.name == "p"@ {
            with_paragraph(earlier, ns, to - 1, rels, entries)
        } else if is_child(ns, body, to - 1) && n.is_element && n.name == "tbl"@ {
            with_table(earlier, ns, to - 1)
        } else {
            earlier
        }
    }
}

/// Lines without the empty ones at their end.
pub open spec fn without_blank_end(lines: Seq<Seq<char>>) -> Seq<Seq<char>>
    decreases lines.len(),
{
    if lines.len() > 0 && lines.last().len() == 0 {
        without_blank_end(lines.drop_last())
    } else {
        lines
    }
}

/// How many of the first `to` nodes have one of two names.
pub open spec fn count_named(ns: Seq<NodeView>, name: Seq<char>, other: Seq<char>, to: int) -> int
    decreases to,
{
    if to <= 0 {
        0
    } else {
        count_named(ns, name, other, to - 1) + if ns[to - 1].name == name || ns[to - 1].name
            == other {
            1int
        } else {
            0
        }
    }
}

/// A count only grows along the nodes, by at most one for each.
proof fn lemma_count_named(
    ns: Seq<NodeView>,
    name: Seq<char>,
    other: Seq<char>,
    from: int,
    to: int,
)
    requires
        0 <= from <= to,
    ensures
        0 <= count_named(ns, name, other, to) - count_named(ns, name, other, from) <= to - from,
    decreases to - from,
{
    if from < to {
        lemma_count_named(ns, name, other, from, to - 1);
    }
}

/// The counts of notes and equations in a document.
pub open spec fn with_ignored(u: UnsupportedView, ns: Seq<NodeView>) -> UnsupportedView {
    let n = ns.len() as int;
    UnsupportedView {
        footnotes_ignored: u.footnotes_ignored + count_named(
            ns,
            "footnoteReference"@,
            "endnoteReference"@,
            n,
        ),
        equations_ignored: u.equations_ignored + count_named(ns, "oMath"@, "oMathPara"@, n),
        ..u
    }
}

/// The conversion of a document; there is none where it has no body.
pub open spec fn converted(
    ns: Seq<NodeView>,
    rels: Map<Seq<char>, Seq<char>>,
    entries: spec_fn(Seq<char>) -> Option<ImageView>,
) -> Option<ParsedView> {
    let body = first_named(ns, "body"@, 0, ns.len() as int);
    if body < ns.len() {
        let d = body_before(ns, body, end_of(ns, body), rels, entries);
        let markdown = joined(without_blank_end(d.lines), "\n"@);
        Some(
            ParsedView {
                markdown,
                stats: StatsView { lines: line_texts(markdown).len() as int, ..d.stats },
                unsupported: with_ignored(d.unsupported, ns),
                assets: d.assets,
            },
        )
    } else {
        None
    }
}

/// Counts the notes and equations of a document.
pub fn collect_ignored_features(nodes: &Vec<XmlNode>, unsupported: &mut UnsupportedSummary)
    requires
        with_ignored(old(unsupported)@, nodes_of(nodes@)).fits(),
    ensures
        final(unsupported)@ == with_ignored(old(unsupported)@, nodes_of(nodes@)),
{
    let ghost ns = nodes_of(nodes@);
    let ghost was = unsupported@;
    let mut i: usize = 0;
    while i < nodes.len()
        invariant
            i <= nodes@.len(),
            ns == nodes_of(nodes@),
            with_ignored(was, ns).fits(),
            unsupported@ == (UnsupportedView {
                footnotes_ignored: was.footnotes_ignored + count_named(
                    ns,
                    "footnoteReference"@,
                    "endnoteReference"@,
                    i as int,
                ),
                equations_ignored: was.equations_ignored + count_named(
                    ns,
                    "oMath"@,
                    "oMathPara"@,
                    i as int,
                ),
                ..was
            }),
        decreases nodes.len() - i,
    {
        let name = nodes[i].name.as_str();
        proof {
            assert(ns[i as int] == nodes@[i as int]@);
            let n = ns.len() as int;
            lemma_count_named(ns, "footnoteReference"@, "endnoteReference"@, i + 1, n);
            lemma_count_named(ns, "oMath"@, "oMathPara"@, i + 1, n);
        }
        if same_text(name, "footnoteReference") || same_text(name, "endnoteReference") {
            unsupported.footnotes_ignored = unsupported.footnotes_ignored + 1;
        }
        if same_text(name, "oMath") || same_text(name, "oMathPara") {
            unsupported.equations_ignored = unsupported.equations_ignored + 1;
        }
        i = i + 1;
    }
}

/// Converts the nodes of a document.
pub fn convert_nodes<R: EntryReader>(
    nodes: &Vec<XmlNode>,
    rel_map: &TextMap,
    reader: &mut R,
) -> (r: AppResult<ParsedMarkdown>)
    ensures
        outcome(r) == match converted(nodes_of(nodes@), rel_map@, old(reader).entries()) {
            Some(parsed) => Ok(parsed),
            None => Err(
                ErrorView {
                    kind: ErrorKind::ParseFailed,
                    message: "document.xml 缺少 body 节点"@,
                },
            ),
        },
        final(reader).entries() == old(reader).entries(),
{
    let ghost ns = nodes_of(nodes@);
    let ghost rels = rel_map@;
    let ghost entries = reader.entries();
    let n: usize = nodes.len();
    let body = find_node(nodes, "body", 0, n);
    if body == n {
        return Err(
            AppError::new(ErrorKind::ParseFailed, "document.xml 缺少 body 节点".to_owned()),
        );
    }
    let end = subtree_end(nodes, body);
    let mut draft = Draft::new();
    let mut i: usize = body + 1;
    let ghost mut seen: int = body + 1;
    while i < end
        invariant
            body < i <= end <= n,
            n == nodes@.len(),
            ns == nodes_of(nodes@),
            rels == rel_map@,
            reader.entries() == entries,
            end == end_of(ns, body as int),
            draft@ == body_before(ns, body as int, i as int, rels, entries),
            body < seen <= n,
            draft@.within(seen - body - 1),
            forall|k: int| i <= k && #[trigger] is_child(ns, body as int, k) ==> seen <= k,
            draft@.unsupported.footnotes_ignored == 0,
            draft@.unsupported.equations_ignored == 0,
        decreases end - i,
    {
        assert(ns[i as int] == nodes@[i as int]@);
        let of_body = match nodes[i].parent {
            Some(p) => p == body,
            None => false,
        };
        proof {
            lemma_end_of(ns, i as int);
            assert forall|k: int| i < k && #[trigger] is_child(ns, body as int, k) implies end_of(
                ns,
                i as int,
            ) <= k by {
                lemma_end_of(ns, body as int);
                lemma_end_before(ns, i as int, k);
            }
        }
        if of_body && nodes[i].is_element {
            assert(is_child(ns, body as int, i as int));
            if same_text(nodes[i].name.as_str(), "p") {
                proof {
                    lemma_paragraph_within(
                        draft@,
                        ns,
                        i as int,
                        rels,
                        entries,
                        seen - body - 1,
                    );
                    lemma_images_between(
                        draft@,
                        ns,
                        i as int,
                        end_of(ns, i as int),
                        rels,
                        entries,
                    );
                    seen = end_of(ns, i as int);
                }
                parse_paragraph_block(nodes, i, rel_map, reader, &mut draft);
            } else if same_text(nodes[i].name.as_str(), "tbl") {
                proof {
                    seen = end_of(ns, i as int);
                }
                parse_table_block(nodes, i, &mut draft);
            }
        }
        i = i + 1;
    }
    let mut unsupported = draft.unsupported;
    proof {
        lemma_count_named(ns, "footnoteReference"@, "endnoteReference"@, 0, n as int);
        lemma_count_named(ns, "oMath"@, "oMathPara"@, 0, n as int);
    }
    collect_ignored_features(nodes, &mut unsupported);
    let ghost all = draft@.lines;
    let mut out_lines = draft.lines;
    while out_lines.len() > 0 && out_lines[out_lines.len() - 1].as_str().is_empty()
        invariant
            without_blank_end(texts(out_lines@)) == without_blank_end(all),
        decreases out_lines.len(),
    {
        let ghost now = texts(out_lines@);
        out_lines.pop();
        assert(texts(out_lines@) == now.drop_last());
    }
    assert(out_lines@.len() > 0 ==> texts(out_lines@).last() == out_lines@.last()@);
    assert(texts(out_lines@) == without_blank_end(all));
    let markdown = join(&out_lines, "\n");
    let mut stats = draft.stats;
    let counted = lines(markdown.as_str());
    assert(counted@.len() == texts(counted@).len());
    stats.lines = counted.len();
    Ok(ParsedMarkdown { markdown, stats, unsupported, assets: draft.assets })
}

/// What a conversion of XML text gives.
pub open spec fn conversion(
    xml: Seq<char>,
    rels: Map<Seq<char>, Seq<char>>,
    entries: spec_fn(Seq<char>) -> Option<ImageView>,
) -> Result<ParsedView, ErrorView> {
    match xml_tree(xml) {
        Ok(ns) => match converted(ns, rels, entries) {
            Some(parsed) => Ok(parsed),
            None => Err(
                ErrorView {
                    kind: ErrorKind::ParseFailed,
                    message: "document.xml 缺少 body 节点"@,
                },
            ),
        },
        Err(e) => Err(
            ErrorView { kind: ErrorKind::ParseFailed, message: "XML 解析失败: "@ + e },
        ),
    }
}

/// Converts the text of `document.xml`, with its relationships and a source of the entries that
/// they lead to.
pub fn parse_document_xml_to_markdown_core<R: EntryReader>(
    xml: &str,
    rel_map: &TextMap,
    reader: &mut R,
) -> (r: AppResult<ParsedMarkdown>)
    ensures
        outcome(r) == conversion(xml@, rel_map@, old(reader).entries()),
        final(reader).entries() == old(reader).entries(),
{
    match parse_xml(xml) {
        Ok(nodes) => convert_nodes(&nodes, rel_map, reader),
        Err(e) => {
            let mut message = "XML 解析失败: ".to_owned();
            message.append(e.as_str());
            Err(AppError::new(ErrorKind::ParseFailed, message))
        },
    }
}

/// Converts the text of `document.xml` by itself: no image can be found.
pub fn parse_document_xml_to_markdown(xml: &str) -> (r: AppResult<ParsedMarkdown>)
    ensures
        outcome(r) == conversion(
            xml@,
            Map::<Seq<char>, Seq<char>>::empty(),
            |name: Seq<char>| None::<ImageView>,
        ),
{
    let rel_map = TextMap::new();
    let mut reader = NoEntries;
    parse_document_xml_to_markdown_core(xml, &rel_map, &mut reader)
}

} // verus!
