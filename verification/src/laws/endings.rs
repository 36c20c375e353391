//! Endings: how the lines of a Markdown text, and the text itself, end.

use vstd::prelude::*;

use crate::document::{body_before, converted, marks, with_paragraph, with_text, without_blank_end};
use crate::draft::DraftView;
use crate::entries::ImageView;
use crate::images::{image_line, image_of, images_between, images_in, lemma_images_between};
use crate::number::decimal;
use crate::paragraph::{level_of, text_in};
use crate::table::{
    cell_of,
    cells_before,
    cells_line,
    filled,
    plain_lines,
    plain_row,
    row_of,
    rows_before,
    rows_of,
    table_lines,
    texts_between,
    width_of,
};
use crate::text::{joined, trimmed, CharClass};
use crate::xml::{end_of, first_named, is_child, lemma_end_of, NodeView};
use super::markdown::{blank_end_is_cut, lemma_first_named};
use super::texts::cut_ends_is_final;

verus! {

/// Whether a text does not end in a line feed.
pub open spec fn ends_well(s: Seq<char>) -> bool {
    s.len() > 0 ==> s.last() != '\n'
}

/// Whether none of the texts ends in a line feed.
pub open spec fn all_end_well(parts: Seq<Seq<char>>) -> bool {
    forall|i: int| 0 <= i < parts.len() ==> ends_well(#[trigger] parts[i])
}

proof fn lemma_trimmed(s: Seq<char>)
    ensures
        ends_well(trimmed(s)),
{
    cut_ends_is_final(s, CharClass::White);
}

proof fn lemma_pushed(parts: Seq<Seq<char>>, s: Seq<char>)
    requires
        all_end_well(parts),
        ends_well(s),
    ensures
        all_end_well(parts.push(s)),
{
}

proof fn lemma_both(a: Seq<Seq<char>>, b: Seq<Seq<char>>)
    requires
        all_end_well(a),
        all_end_well(b),
    ensures
        all_end_well(a + b),
{
    let c = a + b;
    assert forall|i: int| 0 <= i < c.len() implies ends_well(#[trigger] c[i]) by {
        if i < a.len() {
            assert(c[i] == a[i]);
        } else {
            assert(c[i] == b[i - a.len()]);
        }
    }
}

/// Behind a text that ends well, one that is empty or ends well.
proof fn lemma_behind(a: Seq<char>, b: Seq<char>)
    requires
        ends_well(a),
        ends_well(b),
    ensures
        ends_well(a + b),
{
    if b.len() > 0 {
        assert((a + b).last() == b.last());
    } else {
        assert(a + b == a);
    }
}

proof fn lemma_joined(parts: Seq<Seq<char>>, separator: Seq<char>)
    requires
        all_end_well(parts),
        ends_well(separator),
        separator.len() > 0,
    ensures
        ends_well(joined(parts, separator)),
    decreases parts.len(),
{
    if parts.len() > 1 {
        let earlier = parts.drop_last();
        let head = joined(earlier, separator) + separator;
        assert(head.last() == separator.last());
        lemma_behind(head, parts.last());
    }
}

proof fn lemma_texts(ns: Seq<NodeView>, from: int, to: int)
    ensures
        all_end_well(texts_between(ns, from, to)),
    decreases to - from,
{
    if to > from {
        lemma_texts(ns, from, to - 1);
        lemma_trimmed(text_in(ns, to - 1));
        lemma_pushed(texts_between(ns, from, to - 1), trimmed(text_in(ns, to - 1)));
    }
}

proof fn lemma_cells(ns: Seq<NodeView>, tr: int, to: int)
    ensures
        all_end_well(cells_before(ns, tr, to)),
    decreases to - tr,
{
    if to > tr + 1 {
        lemma_cells(ns, tr, to - 1);
        reveal_strlit("<br>");
        lemma_texts(ns, to - 1, end_of(ns, to - 1));
        lemma_joined(texts_between(ns, to - 1, end_of(ns, to - 1)), "<br>"@);
        lemma_pushed(cells_before(ns, tr, to - 1), cell_of(ns, to - 1));
    }
}

proof fn lemma_rows(ns: Seq<NodeView>, table: int, to: int)
    ensures
        forall|i: int|
            0 <= i < rows_before(ns, table, to).len() ==> all_end_well(
                #[trigger] rows_before(ns, table, to)[i],
            ),
    decreases to - table,
{
    if to > table + 1 {
        lemma_rows(ns, table, to - 1);
        lemma_cells(ns, to - 1, end_of(ns, to - 1));
        let earlier = rows_before(ns, table, to - 1);
        let rows = rows_before(ns, table, to);
        assert forall|i: int| 0 <= i < rows.len() implies all_end_well(#[trigger] rows[i]) by {
            if i < earlier.len() {
                assert(rows[i] == earlier[i]);
            } else {
                assert(rows[i] == row_of(ns, to - 1));
            }
        }
    }
}

proof fn lemma_cells_line(cells: Seq<Seq<char>>)
    ensures
        ends_well(cells_line(cells)),
{
    reveal_strlit(" |");
    assert(cells_line(cells).last() == '|');
}

proof fn lemma_table_lines(rows: Seq<Seq<Seq<char>>>)
    requires
        rows.len() > 0,
    ensures
        all_end_well(table_lines(rows)),
{
    let width = width_of(rows);
    let lines = table_lines(rows);
    assert forall|i: int| 0 <= i < lines.len() implies ends_well(#[trigger] lines[i]) by {
        if i == 0 {
            lemma_cells_line(filled(rows[0], width));
        } else if i == 1 {
            lemma_cells_line(Seq::new(width, |i: int| "---"@));
        } else if i <= rows.len() {
            assert(lines[i] == cells_line(filled(rows[i - 1], width)));
            lemma_cells_line(filled(rows[i - 1], width));
        } else {
            assert(lines[i] == Seq::<char>::empty());
        }
    }
}

proof fn lemma_plain_lines(rows: Seq<Seq<Seq<char>>>)
    requires
        forall|i: int| 0 <= i < rows.len() ==> all_end_well(#[trigger] rows[i]),
    ensures
        all_end_well(plain_lines(rows)),
{
    reveal_strlit(" | ");
    reveal_strlit(": ");
    reveal_strlit("> [!NOTE] 该表格含合并单元格，已降级为纯文本块");
    let lines = plain_lines(rows);
    assert forall|i: int| 0 <= i < lines.len() implies ends_well(#[trigger] lines[i]) by {
        if i == 0 {
            assert(lines[0].last() == '块');
        } else if i <= rows.len() {
            let k = i - 1;
            let row = rows[k];
            assert(lines[i] == plain_row(row, k));
            lemma_joined(row, " | "@);
            let head = "行"@ + decimal((k + 1) as nat) + ": "@;
            assert(head.last() == ' ');
            lemma_behind(head, joined(row, " | "@));
        } else {
            assert(lines[i] == Seq::<char>::empty());
        }
    }
}

proof fn lemma_image_lines(
    d: DraftView,
    ns: Seq<NodeView>,
    from: int,
    to: int,
    rels: Map<Seq<char>, Seq<char>>,
    entries: spec_fn(Seq<char>) -> Option<ImageView>,
)
    ensures
        all_end_well(images_between(d, ns, from, to, rels, entries).lines),
    decreases to - from,
{
    if to > from {
        lemma_image_lines(d, ns, from, to - 1, rels, entries);
        let run = images_between(d, ns, from, to - 1, rels, entries);
        if let Some(image) = image_of(ns[to - 1], rels, entries) {
            reveal_strlit(")");
            let line = image_line(run.draft.image_index, image.extension);
            assert(line.last() == ')');
            lemma_pushed(run.lines, line);
        }
    }
}

proof fn lemma_paragraph(
    d: DraftView,
    ns: Seq<NodeView>,
    para: int,
    rels: Map<Seq<char>, Seq<char>>,
    entries: spec_fn(Seq<char>) -> Option<ImageView>,
)
    requires
        0 <= para < ns.len(),
        all_end_well(d.lines),
    ensures
        all_end_well(with_paragraph(d, ns, para, rels, entries).lines),
{
    lemma_end_of(ns, para);
    lemma_images_between(d, ns, para, end_of(ns, para), rels, entries);
    lemma_image_lines(d, ns, para, end_of(ns, para), rels, entries);
    let text = trimmed(text_in(ns, para));
    let run = images_in(d, ns, para, rels, entries);
    lemma_trimmed(text_in(ns, para));
    let worded = if text.len() > 0 {
        with_text(run.draft, ns, para, text)
    } else {
        run.draft
    };
    if text.len() > 0 {
        if let Some(level) = level_of(ns, para) {
            let line = marks(level) + " "@ + text;
            assert(line.last() == text.last());
            lemma_pushed(d.lines, line);
            lemma_pushed(d.lines.push(line), seq![]);
        } else {
            let item = "- "@ + text;
            assert(item.last() == text.last());
            lemma_pushed(d.lines, item);
            lemma_pushed(d.lines, text);
            lemma_pushed(d.lines.push(text), seq![]);
        }
    }
    assert(all_end_well(worded.lines));
    lemma_both(worded.lines, run.lines);
    lemma_pushed(worded.lines + run.lines, seq![]);
    lemma_pushed(worded.lines, seq![]);
}

/// No line that is made of a body ends in a line feed.
pub proof fn lines_end_well(
    ns: Seq<NodeView>,
    body: int,
    to: int,
    rels: Map<Seq<char>, Seq<char>>,
    entries: spec_fn(Seq<char>) -> Option<ImageView>,
)
    requires
        0 <= body,
        to <= ns.len(),
    ensures
        all_end_well(body_before(ns, body, to, rels, entries).lines),
    decreases to - body,
{
    if to > body + 1 {
        lines_end_well(ns, body, to - 1, rels, entries);
        let was = body_before(ns, body, to - 1, rels, entries);
        let n = ns[to - 1];
        if is_child(ns, body, to - 1) && n.is_element && n.name == "p"@ {
            lemma_paragraph(was, ns, to - 1, rels, entries);
        } else if is_child(ns, body, to - 1) && n.is_element && n.name == "tbl"@ {
            let rows = rows_of(ns, to - 1);
            lemma_rows(ns, to - 1, end_of(ns, to - 1));
            if rows.len() > 0 {
                lemma_table_lines(rows);
                lemma_plain_lines(rows);
                lemma_both(was.lines, table_lines(rows));
                lemma_both(was.lines, plain_lines(rows));
            }
        }
    }
}

/// The Markdown text of a document does not end in a line feed.
pub proof fn markdown_ends_well(
    ns: Seq<NodeView>,
    rels: Map<Seq<char>, Seq<char>>,
    entries: spec_fn(Seq<char>) -> Option<ImageView>,
)
    ensures
        converted(ns, rels, entries) matches Some(parsed) ==> ends_well(parsed.markdown),
{
    let body = first_named(ns, "body"@, 0, ns.len() as int);
    if converted(ns, rels, entries) is Some {
        lemma_first_named(ns, "body"@, 0, ns.len() as int);
        lemma_end_of(ns, body);
        lines_end_well(ns, body, end_of(ns, body), rels, entries);
        let all = body_before(ns, body, end_of(ns, body), rels, entries).lines;
        let lines = without_blank_end(all);
        blank_end_is_cut(all);
        if lines.len() > 0 {
            let last = lines.last();
            assert(last == all[lines.len() - 1]);
            assert(joined(lines, "\n"@).last() == last.last());
        }
    }
}

} // verus!
