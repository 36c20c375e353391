//! The images of a paragraph.

use vstd::prelude::*;

use crate::draft::{Draft, DraftView};
use crate::entries::{EntryReader, ImageFile, ImageView};
use crate::number::{padded, show_padded};
use crate::summary::{AssetFile, AssetView, UnsupportedView};
use crate::text::{replace, replaced, same_text, texts};
use crate::text_map::TextMap;
use crate::xml::{end_of, nodes_of, subtree_end, value_named, NodeView, XmlNode};

verus! {

/// The image that an image element leads to: it names a relationship, the relationship names an
/// entry, and the entry can be read.
pub open spec fn image_of(
    n: NodeView,
    rels: Map<Seq<char>, Seq<char>>,
    entries: spec_fn(Seq<char>) -> Option<ImageView>,
) -> Option<ImageView> {
    match value_named(n.attributes, "embed"@, "r:embed"@) {
        Some(id) if rels.dom().contains(id) => entries(rels[id]),
        _ => None,
    }
}

/// The name of the file that image `index` is written to.
pub open spec fn image_name(index: int, extension: Seq<char>) -> Seq<char> {
    "image_"@ + padded(index as nat, 3) + "."@ + extension
}

/// The path of the file that image `index` is written to.
pub open spec fn image_path(index: int, extension: Seq<char>) -> Seq<char> {
    "assets/"@ + image_name(index, extension)
}

/// The line of Markdown that shows image `index`.
pub open spec fn image_line(index: int, extension: Seq<char>) -> Seq<char> {
    "!["@ + image_name(index, extension) + "]("@ + replaced(
        image_path(index, extension),
        '\\',
        '/',
    ) + ")"@
}

/// A draft, and the lines of the images that went into it.
#[verifier::ext_equal]
pub struct ImageRun {
    pub draft: DraftView,
    pub lines: Seq<Seq<char>>,
}

/// The run after one image element more.
pub open spec fn with_image(
    run: ImageRun,
    n: NodeView,
    rels: Map<Seq<char>, Seq<char>>,
    entries: spec_fn(Seq<char>) -> Option<ImageView>,
) -> ImageRun {
    let d = run.draft;
    match image_of(n, rels, entries) {
        Some(image) => ImageRun {
            draft: DraftView {
                assets: d.assets.push(
                    AssetView {
                        relative_path: image_path(d.image_index, image.extension),
                        bytes: image.bytes,
                    },
                ),
                image_index: d.image_index + 1,
                unsupported: UnsupportedView {
                    images_exported: d.unsupported.images_exported + 1,
                    ..d.unsupported
                },
                ..d
            },
            lines: run.lines.push(image_line(d.image_index, image.extension)),
        },
        None => ImageRun {
            draft: DraftView {
                unsupported: UnsupportedView {
                    images_unresolved: d.unsupported.images_unresolved + 1,
                    ..d.unsupported
                },
                ..d
            },
            lines: run.lines,
        },
    }
}

/// The run over the nodes from `from` on, before `to`: each image element in order.
pub open spec fn images_between(
    d: DraftView,
    ns: Seq<NodeView>,
    from: int,
    to: int,
    rels: Map<Seq<char>, Seq<char>>,
    entries: spec_fn(Seq<char>) -> Option<ImageView>,
) -> ImageRun
    decreases to - from,
{
    if to <= from {
        ImageRun { draft: d, lines: seq![] }
    } else {
        let run = images_between(d, ns, from, to - 1, rels, entries);
        if ns[to - 1].name == "blip"@ {
            with_image(run, ns[to - 1], rels, entries)
        } else {
            run
        }
    }
}

/// The run over a paragraph.
pub open spec fn images_in(
    d: DraftView,
    ns: Seq<NodeView>,
    para: int,
    rels: Map<Seq<char>, Seq<char>>,
    entries: spec_fn(Seq<char>) -> Option<ImageView>,
) -> ImageRun {
    images_between(d, ns, para, end_of(ns, para), rels, entries)
}

/// Images add to assets and to their own counts alone, at most one for each node.
pub proof fn lemma_images_between(
    d: DraftView,
    ns: Seq<NodeView>,
    from: int,
    to: int,
    rels: Map<Seq<char>, Seq<char>>,
    entries: spec_fn(Seq<char>) -> Option<ImageView>,
)
    requires
        from <= to,
    ensures
        ({
            let after = images_between(d, ns, from, to, rels, entries).draft;
            let lines = images_between(d, ns, from, to, rels, entries).lines;
            let exported = after.unsupported.images_exported - d.unsupported.images_exported;
            let unresolved = after.unsupported.images_unresolved
                - d.unsupported.images_unresolved;
            &&& after.lines == d.lines
            &&& after.stats == d.stats
            &&& after.unsupported == (UnsupportedView {
                images_exported: after.unsupported.images_exported,
                images_unresolved: after.unsupported.images_unresolved,
                ..d.unsupported
            })
            &&& exported >= 0
            &&& unresolved >= 0
            &&& exported + unresolved <= to - from
            &&& after.image_index == d.image_index + exported
            &&& after.assets.len() == d.assets.len() + exported
            &&& lines.len() == exported
        }),
    decreases to - from,
{
    if from < to {
        lemma_images_between(d, ns, from, to - 1, rels, entries);
    }
}

/// The counts of images only grow along the nodes.
proof fn lemma_images_grow(
    d: DraftView,
    ns: Seq<NodeView>,
    from: int,
    to: int,
    end: int,
    rels: Map<Seq<char>, Seq<char>>,
    entries: spec_fn(Seq<char>) -> Option<ImageView>,
)
    requires
        to <= end,
    ensures
        ({
            let a = images_between(d, ns, from, to, rels, entries).draft;
            let b = images_between(d, ns, from, end, rels, entries).draft;
            &&& a.unsupported.images_exported <= b.unsupported.images_exported
            &&& a.unsupported.images_unresolved <= b.unsupported.images_unresolved
            &&& a.image_index <= b.image_index
        }),
    decreases end - to,
{
    if to < end {
        lemma_images_grow(d, ns, from, to, end - 1, rels, entries);
    }
}

/// Takes the images of a paragraph into the draft, and gives the lines that show them.
pub fn extract_images_from_paragraph<R: EntryReader>(
    nodes: &Vec<XmlNode>,
    para: usize,
    rel_map: &TextMap,
    reader: &mut R,
    draft: &mut Draft,
) -> (r: Vec<String>)
    requires
        para < nodes@.len(),
        images_in(
            old(draft)@,
            nodes_of(nodes@),
            para as int,
            rel_map@,
            old(reader).entries(),
        ).draft.fits(),
    ensures
        ({
            let run = images_in(
                old(draft)@,
                nodes_of(nodes@),
                para as int,
                rel_map@,
                old(reader).entries(),
            );
            &&& final(draft)@ == run.draft
            &&& texts(r@) == run.lines
        }),
        final(reader).entries() == old(reader).entries(),
{
    let ghost ns = nodes_of(nodes@);
    let ghost d = draft@;
    let ghost entries = reader.entries();
    let end = subtree_end(nodes, para);
    let mut lines: Vec<String> = Vec::new();
    let mut i: usize = para;
    assert(texts(lines@) == Seq::<Seq<char>>::empty());
    while i < end
        invariant
            para <= i <= end <= nodes@.len(),
            ns == nodes_of(nodes@),
            reader.entries() == entries,
            end == end_of(ns, para as int),
            images_in(d, ns, para as int, rel_map@, entries).draft.fits(),
            draft@ == images_between(d, ns, para as int, i as int, rel_map@, entries).draft,
            texts(lines@) == images_between(d, ns, para as int, i as int, rel_map@, entries).lines,
        decreases end - i,
    {
        let node = &nodes[i];
        let ghost before = images_between(d, ns, para as int, i as int, rel_map@, entries);
        proof {
            lemma_images_grow(d, ns, para as int, i + 1, end as int, rel_map@, entries);
            assert(ns[i as int] == node@);
        }
        if same_text(node.name.as_str(), "blip") {
            let mut found: Option<ImageFile> = None;
            match node.attribute_named("embed", "r:embed") {
                Some(rel_id) => match rel_map.get(rel_id.as_str()) {
                    Some(target) => {
                        found = reader.read_entry(target.as_str());
                    },
                    None => {},
                },
                None => {},
            }
            match found {
                Some(image) => {
                    let mut file_name = "image_".to_owned();
                    file_name.append(show_padded(draft.image_index, 3).as_str());
                    file_name.append(".");
                    file_name.append(image.extension.as_str());
                    let mut path = "assets/".to_owned();
                    path.append(file_name.as_str());
                    let mut line = "![".to_owned();
                    line.append(file_name.as_str());
                    line.append("](");
                    line.append(replace(path.as_str(), '\\', '/').as_str());
                    line.append(")");
                    draft.image_index = draft.image_index + 1;
                    draft.assets.push(AssetFile { relative_path: path, bytes: image.bytes });
                    draft.unsupported.images_exported = draft.unsupported.images_exported + 1;
                    lines.push(line);
                },
                None => {
                    draft.unsupported.images_unresolved = draft.unsupported.images_unresolved + 1;
                },
            }
            assert(draft@ =~= with_image(before, node@, rel_map@, entries).draft);
            assert(texts(lines@) =~= with_image(before, node@, rel_map@, entries).lines);
        }
        i = i + 1;
    }
    lines
}

} // verus!
