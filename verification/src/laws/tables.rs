//! Tables: how their rows, cells and paragraphs become lines.

use vstd::prelude::*;

use crate::draft::DraftView;
use crate::number::{decimal, parsed};
use crate::paragraph::text_in;
use crate::table::{
    cell_merged,
    cell_of,
    cells_before,
    cells_line,
    filled,
    is_part,
    plain_lines,
    row_merged,
    row_of,
    rows_before,
    rows_of,
    rule_line,
    says_merged,
    table_lines,
    table_merged,
    texts_between,
    width_of,
    with_table,
};
use crate::text::{joined, trimmed};
use crate::xml::{end_of, lemma_end_of, value_named, NodeView};
use super::places::{lemma_one_more, lists};

verus! {

/// Where the child elements of a name stand that a node has.
pub open spec fn parts_at(ns: Seq<NodeView>, i: int, name: Seq<char>) -> spec_fn(int) -> bool {
    |k: int|
        i < k < end_of(ns, i) && ns[k].parent == Some(i as usize) && ns[k].is_element && ns[k].name
            == name
}

/// Where the paragraphs stand that say something.
pub open spec fn speaking_at(ns: Seq<NodeView>) -> spec_fn(int) -> bool {
    |k: int| ns[k].name == "p"@ && trimmed(text_in(ns, k)).len() > 0
}

/// Whether a row has a cell: a child element of the name `tc`.
pub open spec fn has_cell(ns: Seq<NodeView>, tr: int) -> bool {
    exists|k: int| #[trigger] parts_at(ns, tr, "tc"@)(k)
}

/// Where the rows stand that have a cell.
pub open spec fn rows_at(ns: Seq<NodeView>, table: int) -> spec_fn(int) -> bool {
    |k: int| parts_at(ns, table, "tr"@)(k) && has_cell(ns, k)
}

proof fn lemma_texts(ns: Seq<NodeView>, from: int, to: int) -> (ps: Seq<int>)
    requires
        from <= to,
    ensures
        lists(ps, from, to, speaking_at(ns)),
        texts_between(ns, from, to) == Seq::new(
            ps.len(),
            |i: int| trimmed(text_in(ns, ps[i])),
        ),
    decreases to - from,
{
    if from == to {
        let ps = Seq::<int>::empty();
        assert(texts_between(ns, from, to) == Seq::new(
            ps.len(),
            |i: int| trimmed(text_in(ns, ps[i])),
        ));
        ps
    } else {
        let was = lemma_texts(ns, from, to - 1);
        lemma_one_more(was, from, to - 1, speaking_at(ns));
        let ps = if speaking_at(ns)(to - 1) {
            was.push(to - 1)
        } else {
            was
        };
        assert(texts_between(ns, from, to) == Seq::new(
            ps.len(),
            |i: int| trimmed(text_in(ns, ps[i])),
        ));
        ps
    }
}

/// A cell holds the texts of the paragraphs in it that say something, in the order of the document,
/// with a break between each two.
pub proof fn cell_holds_its_paragraphs(ns: Seq<NodeView>, tc: int) -> (ps: Seq<int>)
    requires
        0 <= tc < ns.len(),
    ensures
        lists(ps, tc, end_of(ns, tc), speaking_at(ns)),
        cell_of(ns, tc) == joined(
            Seq::new(ps.len(), |i: int| trimmed(text_in(ns, ps[i]))),
            seq!['<', 'b', 'r', '>'],
        ),
{
    reveal_strlit("<br>");
    assert("<br>"@ == seq!['<', 'b', 'r', '>']);
    lemma_end_of(ns, tc);
    lemma_texts(ns, tc, end_of(ns, tc))
}

proof fn lemma_cells(ns: Seq<NodeView>, tr: int, to: int) -> (ps: Seq<int>)
    requires
        tr + 1 <= to,
    ensures
        lists(ps, tr + 1, to, parts_at(ns, tr, "tc"@)),
        cells_before(ns, tr, to) == Seq::new(ps.len(), |i: int| cell_of(ns, ps[i])),
    decreases to - tr,
{
    if to == tr + 1 {
        let ps = Seq::<int>::empty();
        assert(cells_before(ns, tr, to) == Seq::new(ps.len(), |i: int| cell_of(ns, ps[i])));
        ps
    } else {
        let was = lemma_cells(ns, tr, to - 1);
        lemma_one_more(was, tr + 1, to - 1, parts_at(ns, tr, "tc"@));
        let ps = if parts_at(ns, tr, "tc"@)(to - 1) {
            was.push(to - 1)
        } else {
            was
        };
        assert(cells_before(ns, tr, to) == Seq::new(ps.len(), |i: int| cell_of(ns, ps[i])));
        ps
    }
}

/// A row holds its cells in the order of the document: cell `i` is that of its child element `i` of
/// the name `tc`.
pub proof fn row_holds_its_cells(ns: Seq<NodeView>, tr: int) -> (ps: Seq<int>)
    requires
        0 <= tr < ns.len(),
    ensures
        lists(ps, tr + 1, end_of(ns, tr), parts_at(ns, tr, "tc"@)),
        row_of(ns, tr).len() == ps.len(),
        forall|i: int| 0 <= i < ps.len() ==> #[trigger] row_of(ns, tr)[i] == cell_of(ns, ps[i]),
        row_of(ns, tr).len() > 0 <==> has_cell(ns, tr),
{
    lemma_end_of(ns, tr);
    let ps = lemma_cells(ns, tr, end_of(ns, tr));
    let holds = parts_at(ns, tr, "tc"@);
    if ps.len() > 0 {
        assert(holds(ps[0]));
    }
    if has_cell(ns, tr) {
        let k = choose|k: int| #[trigger] holds(k);
        assert(ps.contains(k));
    }
    ps
}

proof fn lemma_rows(ns: Seq<NodeView>, table: int, to: int) -> (ps: Seq<int>)
    requires
        0 <= table,
        table + 1 <= to <= ns.len(),
    ensures
        lists(ps, table + 1, to, rows_at(ns, table)),
        rows_before(ns, table, to) == Seq::new(ps.len(), |i: int| row_of(ns, ps[i])),
    decreases to - table,
{
    if to == table + 1 {
        let ps = Seq::<int>::empty();
        assert(rows_before(ns, table, to) == Seq::new(ps.len(), |i: int| row_of(ns, ps[i])));
        ps
    } else {
        let was = lemma_rows(ns, table, to - 1);
        row_holds_its_cells(ns, to - 1);
        lemma_one_more(was, table + 1, to - 1, rows_at(ns, table));
        let ps = if rows_at(ns, table)(to - 1) {
            was.push(to - 1)
        } else {
            was
        };
        assert(rows_before(ns, table, to) == Seq::new(ps.len(), |i: int| row_of(ns, ps[i])));
        ps
    }
}

/// The rows of a table stand in the order of the document: row `i` is that of its child element `i`
/// of the name `tr` that has a cell.
pub proof fn rows_stand_in_order(ns: Seq<NodeView>, table: int) -> (ps: Seq<int>)
    requires
        0 <= table < ns.len(),
    ensures
        lists(ps, table + 1, end_of(ns, table), rows_at(ns, table)),
        rows_of(ns, table).len() == ps.len(),
        forall|i: int| 0 <= i < ps.len() ==> #[trigger] rows_of(ns, table)[i] == row_of(ns, ps[i]),
{
    lemma_end_of(ns, table);
    lemma_rows(ns, table, end_of(ns, table))
}

/// The width of a table is the number of cells of a longest row.
pub proof fn width_is_the_longest(rows: Seq<Seq<Seq<char>>>)
    ensures
        forall|i: int| 0 <= i < rows.len() ==> (#[trigger] rows[i]).len() <= width_of(rows),
        rows.len() > 0 ==> exists|i: int|
            0 <= i < rows.len() && (#[trigger] rows[i]).len() == width_of(rows),
    decreases rows.len(),
{
    if rows.len() > 0 {
        let earlier = rows.drop_last();
        width_is_the_longest(earlier);
        assert forall|i: int| 0 <= i < rows.len() implies (#[trigger] rows[i]).len() <= width_of(
            rows,
        ) by {
            if i < earlier.len() {
                assert(earlier[i] == rows[i]);
            }
        }
        if rows.last().len() > width_of(earlier) {
            assert(rows[rows.len() - 1].len() == width_of(rows));
        } else if earlier.len() > 0 {
            let i = choose|i: int|
                0 <= i < earlier.len() && (#[trigger] earlier[i]).len() == width_of(earlier);
            assert(rows[i] == earlier[i]);
        } else {
            assert(rows[0].len() == width_of(rows));
        }
    }
}

/// Whether cells are those of a row, filled up with empty ones to the width.
pub open spec fn are_filled(cells: Seq<Seq<char>>, row: Seq<Seq<char>>, width: int) -> bool {
    &&& cells.len() == width
    &&& row.len() <= width
    &&& forall|i: int| 0 <= i < row.len() ==> #[trigger] cells[i] == row[i]
    &&& forall|i: int| row.len() <= i < width ==> (#[trigger] cells[i]).len() == 0
}

/// A line of a table: bars around and between as many cells as the table is wide, those of the row
/// first, and empty ones behind them.
pub open spec fn is_table_line(line: Seq<char>, row: Seq<Seq<char>>, width: int) -> bool {
    exists|cells: Seq<Seq<char>>| #[trigger]
        are_filled(cells, row, width) && line == seq!['|', ' '] + joined(
            cells,
            seq![' ', '|', ' '],
        ) + seq![' ', '|']
}

proof fn lemma_table_line(row: Seq<Seq<char>>, width: nat)
    requires
        row.len() <= width,
    ensures
        is_table_line(cells_line(filled(row, width)), row, width as int),
{
    reveal_strlit("| ");
    reveal_strlit(" | ");
    reveal_strlit(" |");
    assert("| "@ == seq!['|', ' ']);
    assert(" | "@ == seq![' ', '|', ' ']);
    assert(" |"@ == seq![' ', '|']);
    let cells = filled(row, width);
    assert(are_filled(cells, row, width as int));
}

/// Whether a node is named `vMerge`, or is named `gridSpan` and says a number above one.
pub open spec fn is_merge_mark(n: NodeView) -> bool {
    ||| n.name == "vMerge"@
    ||| n.name == "gridSpan"@ && match value_named(n.attributes, "val"@, "w:val"@) {
        Some(v) => parsed(v) matches Some(span) && span > 1,
        None => false,
    }
}

/// Whether a node in a cell says that the cell is merged.
pub open spec fn is_merged_cell(ns: Seq<NodeView>, tc: int) -> bool {
    exists|k: int| tc <= k < end_of(ns, tc) && is_merge_mark(#[trigger] ns[k])
}

/// Whether a cell of a table is merged.
pub open spec fn has_merged_cell(ns: Seq<NodeView>, table: int) -> bool {
    exists|tr: int, tc: int|
        #![trigger parts_at(ns, table, "tr"@)(tr), parts_at(ns, tr, "tc"@)(tc)]
        parts_at(ns, table, "tr"@)(tr) && parts_at(ns, tr, "tc"@)(tc) && is_merged_cell(ns, tc)
}

/// A table has merged cells just where a cell in one of its rows is merged.
pub proof fn merged_cells_are_found(ns: Seq<NodeView>, table: int)
    ensures
        table_merged(ns, table) <==> has_merged_cell(ns, table),
{
    assert forall|tc: int| cell_merged(ns, tc) <==> is_merged_cell(ns, tc) by {
        assert forall|k: int| says_merged(#[trigger] ns[k]) <==> is_merge_mark(ns[k]) by {}
    }
    if table_merged(ns, table) {
        let tr = choose|k: int| #[trigger] is_part(ns, table, k, "tr"@) && row_merged(ns, k);
        let tc = choose|k: int| #[trigger] is_part(ns, tr, k, "tc"@) && cell_merged(ns, k);
        assert(parts_at(ns, table, "tr"@)(tr));
        assert(parts_at(ns, tr, "tc"@)(tc));
    }
    if has_merged_cell(ns, table) {
        let (tr, tc) = choose|tr: int, tc: int|
            #![trigger parts_at(ns, table, "tr"@)(tr), parts_at(ns, tr, "tc"@)(tc)]
            parts_at(ns, table, "tr"@)(tr) && parts_at(ns, tr, "tc"@)(tc) && is_merged_cell(ns, tc);
        assert(is_part(ns, tr, tc, "tc"@));
        assert(row_merged(ns, tr));
        assert(is_part(ns, table, tr, "tr"@));
    }
}

/// A table without merged cells becomes a line for its first row, a line of dashes, a line for each
/// row below it, in the order of the document, and an empty line. It is counted as a paragraph and
/// as a converted table. Its images are not taken.
pub proof fn table_becomes_lines(d: DraftView, ns: Seq<NodeView>, table: int) -> (ps: Seq<int>)
    requires
        0 <= table < ns.len(),
        !has_merged_cell(ns, table),
        exists|k: int| #[trigger] rows_at(ns, table)(k),
    ensures
        lists(ps, table + 1, end_of(ns, table), rows_at(ns, table)),
        ({
            let after = with_table(d, ns, table);
            let n = d.lines.len() as int;
            let width = width_of(rows_of(ns, table)) as int;
            &&& after.lines.len() == n + ps.len() + 2
            &&& after.lines.take(n) == d.lines
            &&& is_table_line(after.lines[n], row_of(ns, ps[0]), width)
            &&& is_table_line(
                after.lines[n + 1],
                Seq::new(width as nat, |i: int| seq!['-', '-', '-']),
                width,
            )
            &&& forall|i: int|
                1 <= i < ps.len() ==> is_table_line(
                    #[trigger] after.lines[n + i + 1],
                    row_of(ns, ps[i]),
                    width,
                )
            &&& after.lines.last().len() == 0
            &&& after.stats.paragraphs == d.stats.paragraphs + 1
            &&& after.unsupported.tables_converted == d.unsupported.tables_converted + 1
            &&& after.unsupported.tables_degraded == d.unsupported.tables_degraded
            &&& keeps_the_rest(d, after)
        }),
{
    reveal_strlit("---");
    assert("---"@ == seq!['-', '-', '-']);
    merged_cells_are_found(ns, table);
    let ps = rows_stand_in_order(ns, table);
    let rows = rows_of(ns, table);
    let k = choose|k: int| #[trigger] rows_at(ns, table)(k);
    assert(ps.contains(k));
    width_is_the_longest(rows);
    let width = width_of(rows);
    let after = with_table(d, ns, table);
    let n = d.lines.len() as int;
    assert(after.lines == d.lines + table_lines(rows));
    assert(after.lines.take(n) == d.lines);
    assert(rows[0] == row_of(ns, ps[0]));
    lemma_table_line(rows[0], width);
    assert(after.lines[n] == cells_line(filled(rows[0], width)));
    let dashes = Seq::new(width, |i: int| seq!['-', '-', '-']);
    lemma_table_line(dashes, width);
    assert(Seq::new(width, |i: int| "---"@) == dashes);
    assert(after.lines[n + 1] == rule_line(width));
    assert forall|i: int| 1 <= i < ps.len() implies is_table_line(
        #[trigger] after.lines[n + i + 1],
        row_of(ns, ps[i]),
        width as int,
    ) by {
        assert(rows[i] == row_of(ns, ps[i]));
        lemma_table_line(rows[i], width);
        assert(after.lines[n + i + 1] == table_lines(rows)[i + 1]);
        assert(table_lines(rows)[i + 1] == cells_line(filled(rows[i], width)));
    }
    ps
}

/// What a table leaves alone: all counts but its own, and the images.
pub open spec fn keeps_the_rest(d: DraftView, after: DraftView) -> bool {
    &&& after.stats.lines == d.stats.lines
    &&& after.stats.headings == d.stats.headings
    &&& after.stats.list_items == d.stats.list_items
    &&& after.unsupported.images_exported == d.unsupported.images_exported
    &&& after.unsupported.images_unresolved == d.unsupported.images_unresolved
    &&& after.unsupported.footnotes_ignored == d.unsupported.footnotes_ignored
    &&& after.unsupported.equations_ignored == d.unsupported.equations_ignored
    &&& after.assets == d.assets
    &&& after.image_index == d.image_index
}

/// A table with merged cells becomes a note, a numbered line for each of its rows, in the order of
/// the document, and an empty line. It is counted as degraded.
pub proof fn merged_table_becomes_text(d: DraftView, ns: Seq<NodeView>, table: int) -> (ps: Seq<
    int,
>)
    requires
        0 <= table < ns.len(),
        has_merged_cell(ns, table),
    ensures
        lists(ps, table + 1, end_of(ns, table), rows_at(ns, table)),
        ({
            let after = with_table(d, ns, table);
            let n = d.lines.len() as int;
            &&& after.lines.len() == n + ps.len() + 2
            &&& after.lines.take(n) == d.lines
            &&& after.lines[n] == "> [!NOTE] 该表格含合并单元格，已降级为纯文本块"@
            &&& forall|i: int|
                0 <= i < ps.len() ==> #[trigger] after.lines[n + i + 1] == seq!['行'] + decimal(
                    (i + 1) as nat,
                ) + seq![':', ' '] + joined(row_of(ns, ps[i]), seq![' ', '|', ' '])
            &&& after.lines.last().len() == 0
            &&& after.stats.paragraphs == d.stats.paragraphs
            &&& after.unsupported.tables_converted == d.unsupported.tables_converted
            &&& after.unsupported.tables_degraded == d.unsupported.tables_degraded + 1
            &&& keeps_the_rest(d, after)
        }),
{
    reveal_strlit(" | ");
    reveal_strlit("行");
    reveal_strlit(": ");
    assert(" | "@ == seq![' ', '|', ' ']);
    assert("行"@ == seq!['行']);
    assert(": "@ == seq![':', ' ']);
    merged_cells_are_found(ns, table);
    let ps = rows_stand_in_order(ns, table);
    let rows = rows_of(ns, table);
    let (tr, tc) = choose|tr: int, tc: int|
        #![trigger parts_at(ns, table, "tr"@)(tr), parts_at(ns, tr, "tc"@)(tc)]
        parts_at(ns, table, "tr"@)(tr) && parts_at(ns, tr, "tc"@)(tc) && is_merged_cell(ns, tc);
    assert(has_cell(ns, tr));
    assert(rows_at(ns, table)(tr));
    assert(ps.contains(tr));
    let after = with_table(d, ns, table);
    let n = d.lines.len() as int;
    assert(after.lines == d.lines + plain_lines(rows));
    assert(after.lines.take(n) == d.lines);
    assert forall|i: int| 0 <= i < ps.len() implies #[trigger] after.lines[n + i + 1] == seq!['行']
        + decimal((i + 1) as nat) + seq![':', ' '] + joined(
        row_of(ns, ps[i]),
        seq![' ', '|', ' '],
    ) by {
        assert(rows[i] == row_of(ns, ps[i]));
        assert(after.lines[n + i + 1] == plain_lines(rows)[i + 1]);
    }
    ps
}

/// A table without cells adds nothing.
pub proof fn empty_table_adds_nothing(d: DraftView, ns: Seq<NodeView>, table: int)
    requires
        0 <= table < ns.len(),
        forall|k: int| !(#[trigger] rows_at(ns, table)(k)),
    ensures
        with_table(d, ns, table) == d,
{
    let ps = rows_stand_in_order(ns, table);
    if ps.len() > 0 {
        assert(rows_at(ns, table)(ps[0]));
    }
}

} // verus!
