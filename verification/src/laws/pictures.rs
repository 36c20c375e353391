//! Images: which are taken, under which names, and how they are shown.

use vstd::prelude::*;

use crate::draft::DraftView;
use crate::entries::ImageView;
use crate::images::{image_line, image_name, image_of, image_path, images_between, images_in};
use crate::number::padded;
use crate::text::replaced;
use crate::xml::{end_of, lemma_end_of, value_named, NodeView};
use super::places::{lemma_one_more, lists};

verus! {

/// Whether an image element leads to an image: it names a relationship, the relationship leads to
/// an entry, and the entry holds the image.
pub open spec fn leads_to(
    n: NodeView,
    rels: Map<Seq<char>, Seq<char>>,
    entries: spec_fn(Seq<char>) -> Option<ImageView>,
    image: ImageView,
) -> bool {
    &&& n.name == "blip"@
    &&& value_named(n.attributes, "embed"@, "r:embed"@) matches Some(id) && rels.dom().contains(id)
        && entries(rels[id]) == Some(image)
}

/// Where the image elements stand that lead to an image.
pub open spec fn shown_at(
    ns: Seq<NodeView>,
    rels: Map<Seq<char>, Seq<char>>,
    entries: spec_fn(Seq<char>) -> Option<ImageView>,
) -> spec_fn(int) -> bool {
    |k: int| exists|image: ImageView| #[trigger] leads_to(ns[k], rels, entries, image)
}

/// Where the image elements stand that lead to none.
pub open spec fn missing_at(
    ns: Seq<NodeView>,
    rels: Map<Seq<char>, Seq<char>>,
    entries: spec_fn(Seq<char>) -> Option<ImageView>,
) -> spec_fn(int) -> bool {
    |k: int|
        ns[k].name == "blip"@ && forall|image: ImageView|
            !(#[trigger] leads_to(ns[k], rels, entries, image))
}

/// The name of the file of an image: its number, with three digits at least, and its extension.
pub open spec fn file_name(number: int, image: ImageView) -> Seq<char> {
    "image_"@ + padded(number as nat, 3) + seq!['.'] + image.extension
}

/// Whether the lines and files that were added are those of the images at the places, numbered one
/// after the other.
pub open spec fn are_images_at(
    d: DraftView,
    after: DraftView,
    lines: Seq<Seq<char>>,
    ns: Seq<NodeView>,
    rels: Map<Seq<char>, Seq<char>>,
    entries: spec_fn(Seq<char>) -> Option<ImageView>,
    ps: Seq<int>,
) -> bool {
    &&& lines.len() == ps.len()
    &&& after.assets.len() == d.assets.len() + ps.len()
    &&& after.assets.take(d.assets.len() as int) == d.assets
    &&& after.image_index == d.image_index + ps.len()
    &&& forall|i: int, image: ImageView|
        0 <= i < ps.len() && #[trigger] leads_to(ns[ps[i]], rels, entries, image) ==> {
            let name = file_name(d.image_index + i, image);
            let file = after.assets[d.assets.len() + i];
            &&& file.relative_path == "assets/"@ + name
            &&& file.bytes == image.bytes
            &&& lines[i] == "!["@ + name + "]("@ + replaced("assets/"@ + name, '\\', '/') + ")"@
        }
}

proof fn lemma_image(
    n: NodeView,
    rels: Map<Seq<char>, Seq<char>>,
    entries: spec_fn(Seq<char>) -> Option<ImageView>,
    image: ImageView,
)
    requires
        n.name == "blip"@,
    ensures
        leads_to(n, rels, entries, image) <==> image_of(n, rels, entries) == Some(image),
{
}

proof fn lemma_pictures(
    d: DraftView,
    ns: Seq<NodeView>,
    from: int,
    to: int,
    rels: Map<Seq<char>, Seq<char>>,
    entries: spec_fn(Seq<char>) -> Option<ImageView>,
) -> (r: (Seq<int>, Seq<int>))
    requires
        from <= to,
    ensures
        lists(r.0, from, to, shown_at(ns, rels, entries)),
        lists(r.1, from, to, missing_at(ns, rels, entries)),
        ({
            let run = images_between(d, ns, from, to, rels, entries);
            &&& are_images_at(d, run.draft, run.lines, ns, rels, entries, r.0)
            &&& run.draft.unsupported.images_exported == d.unsupported.images_exported
                + r.0.len()
            &&& run.draft.unsupported.images_unresolved == d.unsupported.images_unresolved
                + r.1.len()
        }),
    decreases to - from,
{
    if from == to {
        let none = Seq::<int>::empty();
        assert(d.assets.take(d.assets.len() as int) == d.assets);
        (none, none)
    } else {
        let (ps, qs) = lemma_pictures(d, ns, from, to - 1, rels, entries);
        let was = images_between(d, ns, from, to - 1, rels, entries);
        let run = images_between(d, ns, from, to, rels, entries);
        let n = ns[to - 1];
        lemma_one_more(ps, from, to - 1, shown_at(ns, rels, entries));
        lemma_one_more(qs, from, to - 1, missing_at(ns, rels, entries));
        if n.name == "blip"@ {
            assert forall|image: ImageView| #[trigger]
                leads_to(n, rels, entries, image) <==> image_of(n, rels, entries) == Some(
                    image,
                ) by {
                lemma_image(n, rels, entries, image);
            }
            match image_of(n, rels, entries) {
                Some(found) => {
                    assert(leads_to(n, rels, entries, found));
                    assert(shown_at(ns, rels, entries)(to - 1));
                    let all = ps.push(to - 1);
                    assert(run.draft.assets.take(d.assets.len() as int) == was.draft.assets.take(
                        d.assets.len() as int,
                    ));
                    assert forall|i: int, image: ImageView|
                        0 <= i < all.len() && #[trigger] leads_to(
                            ns[all[i]],
                            rels,
                            entries,
                            image,
                        ) implies {
                        let name = file_name(d.image_index + i, image);
                        let file = run.draft.assets[d.assets.len() + i];
                        &&& file.relative_path == "assets/"@ + name
                        &&& file.bytes == image.bytes
                        &&& run.lines[i] == "!["@ + name + "]("@ + replaced(
                            "assets/"@ + name,
                            '\\',
                            '/',
                        ) + ")"@
                    } by {
                        if i < ps.len() {
                            assert(all[i] == ps[i]);
                            assert(leads_to(ns[ps[i]], rels, entries, image));
                            assert(run.draft.assets[d.assets.len() + i]
                                == was.draft.assets[d.assets.len() + i]);
                            assert(run.lines[i] == was.lines[i]);
                        } else {
                            reveal_strlit(".");
                            assert("."@ == seq!['.']);
                            assert(image == found);
                            assert(file_name(d.image_index + i, image) == image_name(
                                d.image_index + i,
                                image.extension,
                            ));
                            assert(run.draft.assets[d.assets.len() + i].relative_path
                                == image_path(d.image_index + i, image.extension));
                            assert(run.lines[i] == image_line(
                                d.image_index + i,
                                image.extension,
                            ));
                        }
                    }
                    (all, qs)
                },
                None => {
                    assert(missing_at(ns, rels, entries)(to - 1));
                    (ps, qs.push(to - 1))
                },
            }
        } else {
            assert(!shown_at(ns, rels, entries)(to - 1));
            assert(!missing_at(ns, rels, entries)(to - 1));
            (ps, qs)
        }
    }
}

/// Each image element of a paragraph that leads to an image gives, in the order of the document, a
/// line and a file of the next number: the file holds the bytes of the image, and the line shows
/// the file. Each image element that leads to none is counted as unresolved.
pub proof fn images_are_taken_in_order(
    d: DraftView,
    ns: Seq<NodeView>,
    para: int,
    rels: Map<Seq<char>, Seq<char>>,
    entries: spec_fn(Seq<char>) -> Option<ImageView>,
) -> (r: (Seq<int>, Seq<int>))
    requires
        0 <= para < ns.len(),
    ensures
        lists(r.0, para, end_of(ns, para), shown_at(ns, rels, entries)),
        lists(r.1, para, end_of(ns, para), missing_at(ns, rels, entries)),
        ({
            let run = images_in(d, ns, para, rels, entries);
            &&& are_images_at(d, run.draft, run.lines, ns, rels, entries, r.0)
            &&& run.draft.unsupported.images_exported == d.unsupported.images_exported
                + r.0.len()
            &&& run.draft.unsupported.images_unresolved == d.unsupported.images_unresolved
                + r.1.len()
        }),
{
    lemma_end_of(ns, para);
    lemma_pictures(d, ns, para, end_of(ns, para), rels, entries)
}

/// A line that shows an image links to its file: where the extension holds no backslash, the path
/// in the line is that of the file.
pub proof fn links_lead_to_files(number: int, image: ImageView)
    requires
        0 <= number,
        !image.extension.contains('\\'),
    ensures
        image_line(number, image.extension) == "!["@ + file_name(number, image) + "]("@ + image_path(
            number,
            image.extension,
        ) + ")"@,
        image_path(number, image.extension) == "assets/"@ + file_name(number, image),
{
    reveal_strlit(".");
    reveal_strlit("image_");
    reveal_strlit("assets/");
    assert("."@ == seq!['.']);
    super::numbers::padded_is_read_back(number as nat, 3);
    let path = image_path(number, image.extension);
    let p = padded(number as nat, 3);
    assert(file_name(number, image) == image_name(number, image.extension));
    assert forall|i: int| 0 <= i < path.len() implies path[i] != '\\' by {
        if 13 <= i < 13 + p.len() {
            assert(path[i] == p[i - 13]);
        } else if i > 13 + p.len() {
            assert(path[i] == image.extension[i - 14 - p.len()]);
            assert(image.extension.contains(image.extension[i - 14 - p.len()]));
        }
    }
    assert(replaced(path, '\\', '/') == path);
}

} // verus!
