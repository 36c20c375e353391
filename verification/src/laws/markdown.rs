//! Markdown: what a conversion gives of a document.

use vstd::prelude::*;

use crate::document::{body_before, converted, marks, with_paragraph, without_blank_end};
use crate::draft::DraftView;
use crate::entries::ImageView;
use crate::images::{image_of, image_path, images_between, images_in, lemma_images_between};
use crate::paragraph::{is_item, level_of, text_in};
use crate::summary::AssetView;
use crate::table::{cells_line, filled, rule_line, table_lines, width_of};
use crate::text::trimmed;
use crate::xml::{end_of, first_named, is_child, lemma_end_of, NodeView};

verus! {

/// A paragraph in the style of a heading, without images, becomes a line with as many marks as
/// its level, and an empty line.
pub proof fn heading_becomes_marks(
    d: DraftView,
    ns: Seq<NodeView>,
    para: int,
    rels: Map<Seq<char>, Seq<char>>,
    entries: spec_fn(Seq<char>) -> Option<ImageView>,
)
    requires
        0 <= para < ns.len(),
        images_in(d, ns, para, rels, entries).lines.len() == 0,
        trimmed(text_in(ns, para)).len() > 0,
        level_of(ns, para) is Some,
    ensures
        with_paragraph(d, ns, para, rels, entries).lines == d.lines + seq![
            marks(level_of(ns, para).unwrap()) + " "@ + trimmed(text_in(ns, para)),
            Seq::<char>::empty(),
        ],
{
    lemma_end_of(ns, para);
    lemma_images_between(d, ns, para, end_of(ns, para), rels, entries);
    let line = marks(level_of(ns, para).unwrap()) + " "@ + trimmed(text_in(ns, para));
    assert(d.lines.push(line).push(seq![]) == d.lines + seq![line, Seq::<char>::empty()]);
}

/// A paragraph with numbering, in no style of a heading and without images, becomes an item of a
/// list.
pub proof fn numbering_becomes_item(
    d: DraftView,
    ns: Seq<NodeView>,
    para: int,
    rels: Map<Seq<char>, Seq<char>>,
    entries: spec_fn(Seq<char>) -> Option<ImageView>,
)
    requires
        0 <= para < ns.len(),
        images_in(d, ns, para, rels, entries).lines.len() == 0,
        trimmed(text_in(ns, para)).len() > 0,
        level_of(ns, para) is None,
        is_item(ns, para),
    ensures
        with_paragraph(d, ns, para, rels, entries).lines == d.lines.push(
            "- "@ + trimmed(text_in(ns, para)),
        ),
{
    lemma_end_of(ns, para);
    lemma_images_between(d, ns, para, end_of(ns, para), rels, entries);
}

/// Any other paragraph with text and without images becomes a line, and an empty line.
pub proof fn text_becomes_paragraph(
    d: DraftView,
    ns: Seq<NodeView>,
    para: int,
    rels: Map<Seq<char>, Seq<char>>,
    entries: spec_fn(Seq<char>) -> Option<ImageView>,
)
    requires
        0 <= para < ns.len(),
        images_in(d, ns, para, rels, entries).lines.len() == 0,
        trimmed(text_in(ns, para)).len() > 0,
        level_of(ns, para) is None,
        !is_item(ns, para),
    ensures
        with_paragraph(d, ns, para, rels, entries).lines == d.lines + seq![
            trimmed(text_in(ns, para)),
            Seq::<char>::empty(),
        ],
{
    lemma_end_of(ns, para);
    lemma_images_between(d, ns, para, end_of(ns, para), rels, entries);
    let line = trimmed(text_in(ns, para));
    assert(d.lines.push(line).push(seq![]) == d.lines + seq![line, Seq::<char>::empty()]);
}

/// What is cut off the end of a text is empty lines, and all of them.
pub proof fn blank_end_is_cut(lines: Seq<Seq<char>>)
    ensures
        without_blank_end(lines).len() <= lines.len(),
        without_blank_end(lines) == lines.take(without_blank_end(lines).len() as int),
        forall|i: int|
            without_blank_end(lines).len() <= i < lines.len() ==> (#[trigger] lines[i]).len()
                == 0,
        without_blank_end(lines).len() > 0 ==> without_blank_end(lines).last().len() > 0,
    decreases lines.len(),
{
    let r = without_blank_end(lines);
    if lines.len() > 0 && lines.last().len() == 0 {
        let earlier = lines.drop_last();
        blank_end_is_cut(earlier);
        assert(earlier.take(r.len() as int) == lines.take(r.len() as int));
        assert forall|i: int| r.len() <= i < lines.len() implies (#[trigger] lines[i]).len()
            == 0 by {
            if i < earlier.len() {
                assert(earlier[i] == lines[i]);
            }
        }
    } else {
        assert(lines.take(lines.len() as int) == lines);
    }
}

/// The counts and images of a draft agree: headings and items are paragraphs, each exported image
/// has one file, and the files are numbered in the order of the images.
pub open spec fn agrees(d: DraftView) -> bool {
    &&& d.stats.headings >= 0
    &&& d.stats.list_items >= 0
    &&& d.stats.headings + d.stats.list_items + d.unsupported.tables_converted
        <= d.stats.paragraphs
    &&& d.unsupported.tables_converted >= 0
    &&& d.assets.len() == d.unsupported.images_exported
    &&& d.image_index == d.assets.len() + 1
    &&& forall|i: int| 0 <= i < d.assets.len() ==> is_image_file(#[trigger] d.assets[i], i + 1)
}

/// Whether a file is the one of the image of a number.
pub open spec fn is_image_file(file: AssetView, index: int) -> bool {
    exists|extension: Seq<char>| file.relative_path == #[trigger] image_path(index, extension)
}

proof fn lemma_images_agree(
    d: DraftView,
    ns: Seq<NodeView>,
    from: int,
    to: int,
    rels: Map<Seq<char>, Seq<char>>,
    entries: spec_fn(Seq<char>) -> Option<ImageView>,
)
    requires
        from <= to,
        agrees(d),
    ensures
        agrees(images_between(d, ns, from, to, rels, entries).draft),
    decreases to - from,
{
    if from < to {
        lemma_images_agree(d, ns, from, to - 1, rels, entries);
        let was = images_between(d, ns, from, to - 1, rels, entries).draft;
        let now = images_between(d, ns, from, to, rels, entries).draft;
        assert forall|i: int| 0 <= i < now.assets.len() implies is_image_file(
            #[trigger] now.assets[i],
            i + 1,
        ) by {
            if i < was.assets.len() {
                assert(now.assets[i] == was.assets[i]);
            } else {
                let image = image_of(ns[to - 1], rels, entries).unwrap();
                assert(now.assets[i].relative_path == image_path(i + 1, image.extension));
            }
        }
    }
}

/// What is made of a body agrees with itself.
pub proof fn body_agrees(
    ns: Seq<NodeView>,
    body: int,
    to: int,
    rels: Map<Seq<char>, Seq<char>>,
    entries: spec_fn(Seq<char>) -> Option<ImageView>,
)
    requires
        0 <= body,
        to <= ns.len(),
    ensures
        agrees(body_before(ns, body, to, rels, entries)),
    decreases to - body,
{
    if to > body + 1 {
        body_agrees(ns, body, to - 1, rels, entries);
        let was = body_before(ns, body, to - 1, rels, entries);
        let now = body_before(ns, body, to, rels, entries);
        let n = ns[to - 1];
        if is_child(ns, body, to - 1) && n.is_element && n.name == "p"@ {
            lemma_end_of(ns, to - 1);
            lemma_images_agree(was, ns, to - 1, end_of(ns, to - 1), rels, entries);
            lemma_images_between(was, ns, to - 1, end_of(ns, to - 1), rels, entries);
            let run = images_in(was, ns, to - 1, rels, entries).draft;
            assert(now.assets == run.assets);
        } else if is_child(ns, body, to - 1) && n.is_element && n.name == "tbl"@ {
            assert(now.assets == was.assets);
        }
    }
}

pub proof fn lemma_first_named(ns: Seq<NodeView>, name: Seq<char>, from: int, to: int)
    requires
        from <= to,
    ensures
        from <= first_named(ns, name, from, to) <= to,
    decreases to - from,
{
    if from < to && ns[from].name != name {
        lemma_first_named(ns, name, from + 1, to);
    }
}

/// In a converted document headings, items and tables are counted among the paragraphs, each
/// exported image has one file, and no two files have one path.
pub proof fn conversion_agrees(
    ns: Seq<NodeView>,
    rels: Map<Seq<char>, Seq<char>>,
    entries: spec_fn(Seq<char>) -> Option<ImageView>,
)
    ensures
        converted(ns, rels, entries) matches Some(parsed) ==> {
            &&& parsed.stats.headings + parsed.stats.list_items
                + parsed.unsupported.tables_converted <= parsed.stats.paragraphs
            &&& parsed.assets.len() == parsed.unsupported.images_exported
            &&& forall|i: int, j: int|
                0 <= i < j < parsed.assets.len() ==> (#[trigger] parsed.assets[i]).relative_path
                    != (#[trigger] parsed.assets[j]).relative_path
        },
{
    let body = first_named(ns, "body"@, 0, ns.len() as int);
    if converted(ns, rels, entries) is Some {
        let parsed = converted(ns, rels, entries).unwrap();
        lemma_first_named(ns, "body"@, 0, ns.len() as int);
        lemma_end_of(ns, body);
        body_agrees(ns, body, end_of(ns, body), rels, entries);
        let d = body_before(ns, body, end_of(ns, body), rels, entries);
        assert forall|i: int, j: int| 0 <= i < j < parsed.assets.len() implies (
        #[trigger] parsed.assets[i]).relative_path != (
        #[trigger] parsed.assets[j]).relative_path by {
            assert(d.assets[i] == parsed.assets[i] && d.assets[j] == parsed.assets[j]);
            assert(is_image_file(d.assets[i], i + 1) && is_image_file(d.assets[j], j + 1));
            let x = choose|extension: Seq<char>|
                d.assets[i].relative_path == #[trigger] image_path(i + 1, extension);
            let y = choose|extension: Seq<char>|
                d.assets[j].relative_path == #[trigger] image_path(j + 1, extension);
            super::numbers::images_share_no_file(i + 1, j + 1, x, y);
        }
    }
}

/// How many image elements stand among the nodes from `from` on, before `to`.
pub open spec fn blips_between(ns: Seq<NodeView>, from: int, to: int) -> int
    decreases to - from,
{
    if to <= from {
        0
    } else {
        blips_between(ns, from, to - 1) + if ns[to - 1].name == "blip"@ {
            1int
        } else {
            0
        }
    }
}

/// How many image elements stand in the paragraphs of a body that begin before `to`.
pub open spec fn body_blips(ns: Seq<NodeView>, body: int, to: int) -> int
    decreases to - body,
{
    if to <= body + 1 {
        0
    } else if is_child(ns, body, to - 1) && ns[to - 1].is_element && ns[to - 1].name == "p"@ {
        body_blips(ns, body, to - 1) + blips_between(ns, to - 1, end_of(ns, to - 1))
    } else {
        body_blips(ns, body, to - 1)
    }
}

proof fn lemma_blips_counted(
    d: DraftView,
    ns: Seq<NodeView>,
    from: int,
    to: int,
    rels: Map<Seq<char>, Seq<char>>,
    entries: spec_fn(Seq<char>) -> Option<ImageView>,
)
    requires
        from <= to,
    ensures
        ({
            let after = images_between(d, ns, from, to, rels, entries).draft.unsupported;
            after.images_exported + after.images_unresolved == d.unsupported.images_exported
                + d.unsupported.images_unresolved + blips_between(ns, from, to)
        }),
    decreases to - from,
{
    if from < to {
        lemma_blips_counted(d, ns, from, to - 1, rels, entries);
    }
}

/// Each image element in a paragraph of the body is counted once: as exported, or as unresolved.
pub proof fn images_are_counted(
    ns: Seq<NodeView>,
    body: int,
    to: int,
    rels: Map<Seq<char>, Seq<char>>,
    entries: spec_fn(Seq<char>) -> Option<ImageView>,
)
    requires
        0 <= body,
        to <= ns.len(),
    ensures
        body_before(ns, body, to, rels, entries).unsupported.images_exported + body_before(
            ns,
            body,
            to,
            rels,
            entries,
        ).unsupported.images_unresolved == body_blips(ns, body, to),
    decreases to - body,
{
    if to > body + 1 {
        images_are_counted(ns, body, to - 1, rels, entries);
        let was = body_before(ns, body, to - 1, rels, entries);
        let n = ns[to - 1];
        if is_child(ns, body, to - 1) && n.is_element && n.name == "p"@ {
            lemma_end_of(ns, to - 1);
            lemma_blips_counted(was, ns, to - 1, end_of(ns, to - 1), rels, entries);
        }
    }
}

/// In a converted document each image element in a paragraph of the body is counted once.
pub proof fn conversion_counts_images(
    ns: Seq<NodeView>,
    rels: Map<Seq<char>, Seq<char>>,
    entries: spec_fn(Seq<char>) -> Option<ImageView>,
)
    ensures
        converted(ns, rels, entries) matches Some(parsed) ==> {
            let body = first_named(ns, "body"@, 0, ns.len() as int);
            parsed.unsupported.images_exported + parsed.unsupported.images_unresolved
                == body_blips(ns, body, end_of(ns, body))
        },
{
    let body = first_named(ns, "body"@, 0, ns.len() as int);
    if converted(ns, rels, entries) is Some {
        lemma_first_named(ns, "body"@, 0, ns.len() as int);
        lemma_end_of(ns, body);
        images_are_counted(ns, body, end_of(ns, body), rels, entries);
    }
}

proof fn lemma_width(rows: Seq<Seq<Seq<char>>>, i: int)
    requires
        0 <= i < rows.len(),
    ensures
        rows[i].len() <= width_of(rows),
    decreases rows.len(),
{
    if i < rows.len() - 1 {
        lemma_width(rows.drop_last(), i);
    }
}

/// All lines of a table have as many cells as its longest row, and the line under the header has
/// them too.
pub proof fn table_is_rectangular(rows: Seq<Seq<Seq<char>>>)
    requires
        rows.len() > 0,
    ensures
        forall|i: int|
            0 <= i < rows.len() ==> filled(#[trigger] rows[i], width_of(rows)).len() == width_of(
                rows,
            ),
        table_lines(rows).len() == rows.len() + 2,
        table_lines(rows)[0] == cells_line(filled(rows[0], width_of(rows))),
        table_lines(rows)[1] == rule_line(width_of(rows)),
        forall|i: int|
            1 <= i < rows.len() ==> #[trigger] table_lines(rows)[i + 1] == cells_line(
                filled(rows[i], width_of(rows)),
            ),
{
    assert forall|i: int| 0 <= i < rows.len() implies filled(
        #[trigger] rows[i],
        width_of(rows),
    ).len() == width_of(rows) by {
        lemma_width(rows, i);
    }
}

/// A document whose images cannot be read has none exported.
pub proof fn nothing_exported_without_entries(
    ns: Seq<NodeView>,
    body: int,
    to: int,
    rels: Map<Seq<char>, Seq<char>>,
    entries: spec_fn(Seq<char>) -> Option<ImageView>,
)
    requires
        0 <= body,
        to <= ns.len(),
        forall|name: Seq<char>| #[trigger] entries(name) is None,
    ensures
        body_before(ns, body, to, rels, entries).assets.len() == 0,
        body_before(ns, body, to, rels, entries).unsupported.images_exported == 0,
    decreases to - body,
{
    if to > body + 1 {
        nothing_exported_without_entries(ns, body, to - 1, rels, entries);
        let was = body_before(ns, body, to - 1, rels, entries);
        let n = ns[to - 1];
        if is_child(ns, body, to - 1) && n.is_element && n.name == "p"@ {
            lemma_end_of(ns, to - 1);
            lemma_none_exported(was, ns, to - 1, end_of(ns, to - 1), rels, entries);
        }
    }
}

proof fn lemma_none_exported(
    d: DraftView,
    ns: Seq<NodeView>,
    from: int,
    to: int,
    rels: Map<Seq<char>, Seq<char>>,
    entries: spec_fn(Seq<char>) -> Option<ImageView>,
)
    requires
        from <= to,
        forall|name: Seq<char>| #[trigger] entries(name) is None,
    ensures
        images_between(d, ns, from, to, rels, entries).draft.assets == d.assets,
        images_between(d, ns, from, to, rels, entries).draft.unsupported.images_exported
            == d.unsupported.images_exported,
    decreases to - from,
{
    if from < to {
        lemma_none_exported(d, ns, from, to - 1, rels, entries);
    }
}

} // verus!
