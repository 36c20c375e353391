//! Tables.

use vstd::prelude::*;

use crate::draft::{Draft, DraftView};
use crate::number::{decimal, parse_usize, parsed, show};
use crate::paragraph::{paragraph_text, text_in};
use crate::summary::{StatsView, UnsupportedView};
use crate::text::{join, joined, same_text, texts, trim, trimmed};
use crate::xml::{end_of, is_child, nodes_of, subtree_end, value_named, NodeView, XmlNode};

verus! {

/// How many columns a node of the name `gridSpan` says that its cell takes.
pub open spec fn span_of(n: NodeView) -> nat {
    match value_named(n.attributes, "val"@, "w:val"@) {
        Some(v) => match parsed(v) {
            Some(span) => span,
            None => 1,
        },
        None => 1,
    }
}

/// Whether a node says that its cell is merged with others: down the rows, or across columns.
pub open spec fn says_merged(n: NodeView) -> bool {
    ||| n.name == "vMerge"@
    ||| n.name == "gridSpan"@ && span_of(n) > 1
}

/// Whether a cell is merged with others.
pub open spec fn cell_merged(ns: Seq<NodeView>, tc: int) -> bool {
    exists|k: int| tc <= k < end_of(ns, tc) && says_merged(#[trigger] ns[k])
}

/// Whether a cell is merged with others.
pub fn cell_has_complex_merge(nodes: &Vec<XmlNode>, tc: usize) -> (r: bool)
    requires
        tc < nodes@.len(),
    ensures
        r == cell_merged(nodes_of(nodes@), tc as int),
{
    let ghost ns = nodes_of(nodes@);
    let end = subtree_end(nodes, tc);
    let mut i: usize = tc;
    while i < end
        invariant
            tc <= i <= end <= nodes@.len(),
            ns == nodes_of(nodes@),
            end == end_of(ns, tc as int),
            forall|k: int| tc <= k < i ==> !says_merged(#[trigger] ns[k]),
        decreases end - i,
    {
        let node = &nodes[i];
        assert(ns[i as int] == node@);
        if same_text(node.name.as_str(), "vMerge") {
            return true;
        }
        if same_text(node.name.as_str(), "gridSpan") {
            let span: usize = match node.attribute_named("val", "w:val") {
                Some(v) => match parse_usize(v.as_str()) {
                    Some(n) => n,
                    None => 1,
                },
                None => 1,
            };
            if span > 1 {
                return true;
            }
        }
        i = i + 1;
    }
    false
}

/// The texts of the paragraphs among the nodes from `from` on, before `to`, without the blank
/// ones.
pub open spec fn texts_between(ns: Seq<NodeView>, from: int, to: int) -> Seq<Seq<char>>
    decreases to - from,
{
    if to <= from {
        seq![]
    } else {
        let earlier = texts_between(ns, from, to - 1);
        let text = trimmed(text_in(ns, to - 1));
        if ns[to - 1].name == "p"@ && text.len() > 0 {
            earlier.push(text)
        } else {
            earlier
        }
    }
}

/// The text of a cell: its paragraphs, with a break between each two.
pub open spec fn cell_of(ns: Seq<NodeView>, tc: int) -> Seq<char> {
    joined(texts_between(ns, tc, end_of(ns, tc)), "<br>"@)
}

fn cell_text(nodes: &Vec<XmlNode>, tc: usize) -> (r: String)
    requires
        tc < nodes@.len(),
    ensures
        r@ == cell_of(nodes_of(nodes@), tc as int),
{
    let ghost ns = nodes_of(nodes@);
    let end = subtree_end(nodes, tc);
    let mut found: Vec<String> = Vec::new();
    let mut i: usize = tc;
    assert(texts(found@) == Seq::<Seq<char>>::empty());
    while i < end
        invariant
            tc <= i <= end <= nodes@.len(),
            ns == nodes_of(nodes@),
            texts(found@) == texts_between(ns, tc as int, i as int),
        decreases end - i,
    {
        assert(ns[i as int] == nodes@[i as int]@);
        if same_text(nodes[i].name.as_str(), "p") {
            let text = trim(paragraph_text(nodes, i).as_str());
            let ghost was = texts(found@);
            if !text.as_str().is_empty() {
                found.push(text);
                assert(texts(found@) == was.push(text@));
            }
        }
        i = i + 1;
    }
    join(&found, "<br>")
}

/// Whether the node at `k` is a child element of the node at `i`, of the name.
pub open spec fn is_part(ns: Seq<NodeView>, i: int, k: int, name: Seq<char>) -> bool {
    is_child(ns, i, k) && ns[k].is_element && ns[k].name == name
}

fn has_part(nodes: &Vec<XmlNode>, i: usize, k: usize, name: &str) -> (r: bool)
    requires
        i < k < end_of(nodes_of(nodes@), i as int) <= nodes@.len(),
    ensures
        r == is_part(nodes_of(nodes@), i as int, k as int, name@),
{
    assert(nodes_of(nodes@)[k as int] == nodes@[k as int]@);
    let of_parent = match nodes[k].parent {
        Some(p) => p == i,
        None => false,
    };
    of_parent && nodes[k].is_element && same_text(nodes[k].name.as_str(), name)
}

/// The cells of a row that stand before `to`.
pub open spec fn cells_before(ns: Seq<NodeView>, tr: int, to: int) -> Seq<Seq<char>>
    decreases to - tr,
{
    if to <= tr + 1 {
        seq![]
    } else if is_part(ns, tr, to - 1, "tc"@) {
        cells_before(ns, tr, to - 1).push(cell_of(ns, to - 1))
    } else {
        cells_before(ns, tr, to - 1)
    }
}

/// The cells of a row.
pub open spec fn row_of(ns: Seq<NodeView>, tr: int) -> Seq<Seq<char>> {
    cells_before(ns, tr, end_of(ns, tr))
}

/// Whether a row holds a merged cell.
pub open spec fn row_merged(ns: Seq<NodeView>, tr: int) -> bool {
    exists|k: int| #[trigger] is_part(ns, tr, k, "tc"@) && cell_merged(ns, k)
}

/// The cells of a row, and whether one of them is merged.
fn read_row(nodes: &Vec<XmlNode>, tr: usize) -> (r: (Vec<String>, bool))
    requires
        tr < nodes@.len(),
    ensures
        texts(r.0@) == row_of(nodes_of(nodes@), tr as int),
        r.1 == row_merged(nodes_of(nodes@), tr as int),
{
    let ghost ns = nodes_of(nodes@);
    let end = subtree_end(nodes, tr);
    let mut row: Vec<String> = Vec::new();
    let mut merged = false;
    let mut i: usize = tr + 1;
    assert(texts(row@) == Seq::<Seq<char>>::empty());
    while i < end
        invariant
            tr < i <= end <= nodes@.len(),
            ns == nodes_of(nodes@),
            end == end_of(ns, tr as int),
            texts(row@) == cells_before(ns, tr as int, i as int),
            merged == exists|k: int|
                k < i && #[trigger] is_part(ns, tr as int, k, "tc"@) && cell_merged(ns, k),
        decreases end - i,
    {
        if has_part(nodes, tr, i, "tc") {
            if cell_has_complex_merge(nodes, i) {
                merged = true;
            }
            let ghost was = texts(row@);
            row.push(cell_text(nodes, i));
            assert(texts(row@) == was.push(cell_of(ns, i as int)));
        }
        i = i + 1;
    }
    (row, merged)
}

/// What each row of a list holds.
pub open spec fn rows_view(rows: Seq<Vec<String>>) -> Seq<Seq<Seq<char>>> {
    Seq::new(rows.len(), |i: int| texts(rows[i]@))
}

/// The rows of a table that stand before `to`, without those that have no cell.
pub open spec fn rows_before(ns: Seq<NodeView>, table: int, to: int) -> Seq<Seq<Seq<char>>>
    decreases to - table,
{
    if to <= table + 1 {
        seq![]
    } else if is_part(ns, table, to - 1, "tr"@) && row_of(ns, to - 1).len() > 0 {
        rows_before(ns, table, to - 1).push(row_of(ns, to - 1))
    } else {
        rows_before(ns, table, to - 1)
    }
}

/// The rows of a table.
pub open spec fn rows_of(ns: Seq<NodeView>, table: int) -> Seq<Seq<Seq<char>>> {
    rows_before(ns, table, end_of(ns, table))
}

/// Whether a table holds a merged cell.
pub open spec fn table_merged(ns: Seq<NodeView>, table: int) -> bool {
    exists|k: int| #[trigger] is_part(ns, table, k, "tr"@) && row_merged(ns, k)
}

/// The number of cells of the longest row.
pub open spec fn width_of(rows: Seq<Seq<Seq<char>>>) -> nat
    decreases rows.len(),
{
    if rows.len() == 0 {
        0
    } else if rows.last().len() > width_of(rows.drop_last()) {
        rows.last().len()
    } else {
        width_of(rows.drop_last())
    }
}

/// A row filled up with empty cells to the width.
pub open spec fn filled(row: Seq<Seq<char>>, width: nat) -> Seq<Seq<char>> {
    if row.len() < width {
        row + Seq::new((width - row.len()) as nat, |i: int| Seq::<char>::empty())
    } else {
        row
    }
}

/// Cells as a line of a table.
pub open spec fn cells_line(cells: Seq<Seq<char>>) -> Seq<char> {
    "| "@ + joined(cells, " | "@) + " |"@
}

/// The line under the header of a table.
pub open spec fn rule_line(width: nat) -> Seq<char> {
    cells_line(Seq::new(width, |i: int| "---"@))
}

/// The lines of a table: the first row as header, the line under it, the other rows, and an
/// empty line.
pub open spec fn table_lines(rows: Seq<Seq<Seq<char>>>) -> Seq<Seq<char>> {
    let width = width_of(rows);
    seq![cells_line(filled(rows[0], width)), rule_line(width)] + Seq::new(
        (rows.len() - 1) as nat,
        |i: int| cells_line(filled(rows[i + 1], width)),
    ) + seq![Seq::<char>::empty()]
}

/// Row `i` of a table as plain text.
pub open spec fn plain_row(row: Seq<Seq<char>>, i: int) -> Seq<char> {
    "行"@ + decimal((i + 1) as nat) + ": "@ + joined(row, " | "@)
}

/// The lines of a table with merged cells: a note, its rows as plain text, and an empty line.
pub open spec fn plain_lines(rows: Seq<Seq<Seq<char>>>) -> Seq<Seq<char>> {
    seq!["> [!NOTE] 该表格含合并单元格，已降级为纯文本块"@] + Seq::new(
        rows.len(),
        |i: int| plain_row(rows[i], i),
    ) + seq![Seq::<char>::empty()]
}

/// The draft with a table: one without cells adds nothing.
pub open spec fn with_table(d: DraftView, ns: Seq<NodeView>, table: int) -> DraftView {
    let rows = rows_of(ns, table);
    if rows.len() == 0 {
        d
    } else if table_merged(ns, table) {
        DraftView {
            lines: d.lines + plain_lines(rows),
            unsupported: UnsupportedView {
                tables_degraded: d.unsupported.tables_degraded + 1,
                ..d.unsupported
            },
            ..d
        }
    } else {
        DraftView {
            lines: d.lines + table_lines(rows),
            stats: StatsView { paragraphs: d.stats.paragraphs + 1, ..d.stats },
            unsupported: UnsupportedView {
                tables_converted: d.unsupported.tables_converted + 1,
                ..d.unsupported
            },
            ..d
        }
    }
}

/// The rows of a table, its width, and whether one of its cells is merged.
fn read_table(nodes: &Vec<XmlNode>, table: usize) -> (r: (Vec<Vec<String>>, usize, bool))
    requires
        table < nodes@.len(),
    ensures
        rows_view(r.0@) == rows_of(nodes_of(nodes@), table as int),
        r.1 == width_of(rows_of(nodes_of(nodes@), table as int)),
        r.2 == table_merged(nodes_of(nodes@), table as int),
{
    let ghost ns = nodes_of(nodes@);
    let end = subtree_end(nodes, table);
    let mut rows: Vec<Vec<String>> = Vec::new();
    let mut width: usize = 0;
    let mut merged = false;
    let mut i: usize = table + 1;
    assert(rows_view(rows@) == Seq::<Seq<Seq<char>>>::empty());
    while i < end
        invariant
            table < i <= end <= nodes@.len(),
            ns == nodes_of(nodes@),
            end == end_of(ns, table as int),
            rows_view(rows@) == rows_before(ns, table as int, i as int),
            width == width_of(rows_before(ns, table as int, i as int)),
            merged == exists|k: int|
                k < i && #[trigger] is_part(ns, table as int, k, "tr"@) && row_merged(ns, k),
        decreases end - i,
    {
        if has_part(nodes, table, i, "tr") {
            let (row, row_has_merge) = read_row(nodes, i);
            if row_has_merge {
                merged = true;
            }
            assert(row@.len() == texts(row@).len());
            if row.len() > width {
                width = row.len();
            }
            if row.len() > 0 {
                let ghost was = rows_view(rows@);
                rows.push(row);
                assert(rows_view(rows@) == was.push(row_of(ns, i as int)));
                assert(was.push(row_of(ns, i as int)).drop_last() == was);
            }
        }
        i = i + 1;
    }
    (rows, width, merged)
}

fn line_of_cells(cells: &Vec<String>) -> (r: String)
    ensures
        r@ == cells_line(texts(cells@)),
{
    let mut line = "| ".to_owned();
    line.append(join(cells, " | ").as_str());
    line.append(" |");
    line
}

fn fill_row(row: &mut Vec<String>, width: usize)
    ensures
        texts(final(row)@) == filled(texts(old(row)@), width as nat),
{
    let ghost was = texts(row@);
    let n: usize = row.len();
    while row.len() < width
        invariant
            n == was.len(),
            n <= row@.len(),
            row@.len() <= width || row@.len() == n,
            texts(row@) == was + Seq::new((row@.len() - n) as nat, |i: int| Seq::<char>::empty()),
        decreases width - row.len(),
    {
        let ghost now = texts(row@);
        row.push(String::new());
        assert(texts(row@) == now.push(Seq::empty()));
        assert(texts(row@) == was + Seq::new((row@.len() - n) as nat, |i: int| Seq::<char>::empty()));
    }
    assert(texts(row@) == filled(was, width as nat));
}

/// Adds a table to the draft.
pub fn parse_table_block(nodes: &Vec<XmlNode>, table: usize, draft: &mut Draft)
    requires
        table < nodes@.len(),
        with_table(old(draft)@, nodes_of(nodes@), table as int).fits(),
    ensures
        final(draft)@ == with_table(old(draft)@, nodes_of(nodes@), table as int),
{
    let ghost ns = nodes_of(nodes@);
    let ghost d = draft@;
    let (mut rows, width, merged) = read_table(nodes, table);
    let ghost all = rows_of(ns, table as int);
    let n: usize = rows.len();
    assert(n == rows_view(rows@).len());
    if n == 0 {
        return;
    }
    if merged {
        draft.unsupported.tables_degraded = draft.unsupported.tables_degraded + 1;
        let ghost counted = draft@;
        assert(counted.lines == d.lines);
        draft.push_line("> [!NOTE] 该表格含合并单元格，已降级为纯文本块".to_owned());
        let ghost wanted = plain_lines(all);
        let mut i: usize = 0;
        while i < n
            invariant
                i <= n == rows@.len(),
                rows_view(rows@) == all,
                wanted == plain_lines(all),
                draft@ == (DraftView { lines: d.lines + wanted.take(i + 1), ..counted }),
            decreases n - i,
        {
            assert(rows_view(rows@)[i as int] == texts(rows@[i as int]@));
            let mut line = "行".to_owned();
            line.append(show(i + 1).as_str());
            line.append(": ");
            line.append(join(&rows[i], " | ").as_str());
            draft.push_line(line);
            assert(wanted[i + 1] == plain_row(all[i as int], i as int));
            assert((d.lines + wanted.take(i + 1)).push(wanted[i + 1]) == d.lines + wanted.take(i + 2));
            i = i + 1;
        }
        draft.push_blank();
        assert((d.lines + wanted.take(n + 1)).push(Seq::empty()) == d.lines + wanted);
        return;
    }
    draft.unsupported.tables_converted = draft.unsupported.tables_converted + 1;
    draft.stats.paragraphs = draft.stats.paragraphs + 1;
    let ghost counted = draft@;
    assert(counted.lines == d.lines);
    let ghost wanted = table_lines(all);
    let mut rule: Vec<String> = Vec::new();
    while rule.len() < width
        invariant
            rule@.len() <= width,
            texts(rule@) == Seq::new(rule@.len(), |i: int| "---"@),
        decreases width - rule.len(),
    {
        let ghost was = texts(rule@);
        rule.push("---".to_owned());
        assert(texts(rule@) == was.push("---"@));
        assert(texts(rule@) == Seq::new(rule@.len(), |i: int| "---"@));
    }
    assert forall|k: int| 0 <= k < n implies texts((#[trigger] rows@[k])@) == all[k] by {
        assert(rows_view(rows@)[k] == texts(rows@[k]@));
    }
    let mut i: usize = 0;
    while i < n
        invariant
            i <= n == rows@.len(),
            n > 0,
            all.len() == n,
            forall|k: int| i <= k < n ==> texts((#[trigger] rows@[k])@) == all[k],
            width == width_of(all),
            wanted == table_lines(all),
            texts(rule@) == Seq::new(width as nat, |i: int| "---"@),
            draft@ == (DraftView {
                lines: d.lines + wanted.take(
                    if i == 0 {
                        0
                    } else {
                        i + 1
                    },
                ),
                ..counted
            }),
        decreases n - i,
    {
        let mut row: Vec<String> = Vec::new();
        std::mem::swap(&mut row, &mut rows[i]);
        fill_row(&mut row, width);
        draft.push_line(line_of_cells(&row));
        if i == 0 {
            draft.push_line(line_of_cells(&rule));
            assert((d.lines + wanted.take(0)).push(wanted[0]).push(wanted[1]) == d.lines
                + wanted.take(2));
        } else {
            assert((d.lines + wanted.take(i + 1)).push(wanted[i + 1]) == d.lines + wanted.take(i + 2));
        }
        i = i + 1;
    }
    draft.push_blank();
    assert((d.lines + wanted.take(n + 1)).push(Seq::empty()) == d.lines + wanted);
}

} // verus!
