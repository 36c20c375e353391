//! Archives: where the parts of a document come from.

use vstd::prelude::*;

use crate::archive::{
    archive_rels,
    extracted,
    image_rels,
    is_image_rel,
    rel_id,
    rels_in,
    zip_bytes,
    zip_parts,
    zip_refusal,
    zip_text,
    EntryErrorView,
    SourceView,
};
use crate::document::conversion;
use crate::entries::{images_from, listed, listed_from, NamedEntry};
use crate::errors::ErrorKind;
use crate::names::{path_extension, word_target};
use crate::xml::{plain_value, xml_tree, AttributeView, NodeView};

verus! {

/// The value at a name is that of the first attribute with the name that is in no namespace.
pub proof fn plain_value_is_the_first(attributes: Seq<AttributeView>, name: Seq<char>, i: int)
    requires
        0 <= i < attributes.len(),
        attributes[i].namespace is None && attributes[i].name == name,
        forall|k: int|
            0 <= k < i ==> (#[trigger] attributes[k]).name != name || attributes[k].namespace is Some,
    ensures
        plain_value(attributes, name) == Some(attributes[i].value),
    decreases i,
{
    if i > 0 {
        let rest = attributes.drop_first();
        assert(attributes[0].name != name || attributes[0].namespace is Some);
        assert forall|k: int| 0 <= k < i - 1 implies (#[trigger] rest[k]).name != name
            || rest[k].namespace is Some by {
            assert(rest[k] == attributes[k + 1]);
        }
        assert(rest[i - 1] == attributes[i]);
        plain_value_is_the_first(rest, name, i - 1);
    }
}

/// Without such an attribute there is no value.
pub proof fn plain_value_is_absent(attributes: Seq<AttributeView>, name: Seq<char>)
    requires
        forall|k: int|
            0 <= k < attributes.len() ==> (#[trigger] attributes[k]).name != name
                || attributes[k].namespace is Some,
    ensures
        plain_value(attributes, name) is None,
    decreases attributes.len(),
{
    if attributes.len() > 0 {
        let rest = attributes.drop_first();
        assert(attributes[0].name != name || attributes[0].namespace is Some);
        assert forall|k: int| 0 <= k < rest.len() implies (#[trigger] rest[k]).name != name
            || rest[k].namespace is Some by {
            assert(rest[k] == attributes[k + 1]);
        }
        plain_value_is_absent(rest, name);
    }
}

/// Whether a node is a relationship of an identifier that leads to an image at a target: its
/// identifier stands at `Id`, or without one at `r:Id`.
pub open spec fn relates(n: NodeView, id: Seq<char>, target: Seq<char>) -> bool {
    &&& n.name == "Relationship"@
    &&& plain_value(n.attributes, "Id"@) == Some(id) || plain_value(n.attributes, "Id"@) is None
        && plain_value(n.attributes, "r:Id"@) == Some(id)
    &&& plain_value(n.attributes, "Type"@) == Some(
        "http://schemas.openxmlformats.org/officeDocument/2006/relationships/image"@,
    )
    &&& plain_value(n.attributes, "Target"@) == Some(target)
}

proof fn lemma_relates(n: NodeView, id: Seq<char>, target: Seq<char>)
    ensures
        relates(n, id, target) <==> is_image_rel(n) && rel_id(n) == Some(id) && plain_value(
            n.attributes,
            "Target"@,
        ) == Some(target),
{
}

/// An identifier leads to the entry that the last relationship with it names.
pub proof fn last_relationships_hold(
    ns: Seq<NodeView>,
    to: int,
    id: Seq<char>,
    i: int,
    target: Seq<char>,
)
    requires
        0 <= i < to <= ns.len(),
        relates(ns[i], id, target),
        forall|j: int, other: Seq<char>|
            i < j < to ==> !(#[trigger] relates(ns[j], id, other)),
    ensures
        image_rels(ns, to).dom().contains(id),
        image_rels(ns, to)[id] == word_target(target),
    decreases to,
{
    lemma_relates(ns[to - 1], id, target);
    if i < to - 1 {
        last_relationships_hold(ns, to - 1, id, i, target);
        if is_image_rel(ns[to - 1]) {
            let other = plain_value(ns[to - 1].attributes, "Target"@).unwrap();
            lemma_relates(ns[to - 1], id, other);
            assert(!relates(ns[to - 1], id, other));
        }
    }
}

/// An identifier that no relationship to an image has leads nowhere.
pub proof fn other_relationships_lead_nowhere(ns: Seq<NodeView>, to: int, id: Seq<char>)
    requires
        0 <= to <= ns.len(),
        forall|j: int, target: Seq<char>|
            0 <= j < to ==> !(#[trigger] relates(ns[j], id, target)),
    ensures
        !image_rels(ns, to).dom().contains(id),
    decreases to,
{
    if to > 0 {
        other_relationships_lead_nowhere(ns, to - 1, id);
        if is_image_rel(ns[to - 1]) {
            let target = plain_value(ns[to - 1].attributes, "Target"@).unwrap();
            lemma_relates(ns[to - 1], id, target);
            assert(!relates(ns[to - 1], id, target));
        }
    }
}

/// The relationships are those of all nodes of their part; a part that is missing or is no XML has
/// none.
pub proof fn relationships_are_read(xml: Option<Seq<char>>)
    ensures
        xml is None ==> rels_in(xml) == Map::<Seq<char>, Seq<char>>::empty(),
        xml matches Some(text) ==> match xml_tree(text) {
            Ok(ns) => rels_in(xml) == image_rels(ns, ns.len() as int),
            Err(_) => rels_in(xml) == Map::<Seq<char>, Seq<char>>::empty(),
        },
{
}

/// Of entries in a list the first with a name holds.
pub proof fn first_entries_hold(list: Seq<NamedEntry>, name: Seq<char>, i: int)
    requires
        0 <= i < list.len(),
        list[i].name@ == name,
        forall|k: int| 0 <= k < i ==> (#[trigger] list[k]).name@ != name,
    ensures
        listed(list)(name) == Some(list[i].bytes@),
{
    lemma_listed(list, name, 0, i);
}

proof fn lemma_listed(list: Seq<NamedEntry>, name: Seq<char>, from: int, i: int)
    requires
        0 <= from <= i < list.len(),
        list[i].name@ == name,
        forall|k: int| 0 <= k < i ==> (#[trigger] list[k]).name@ != name,
    ensures
        listed_from(list, name, from) == Some(list[i].bytes@),
    decreases i - from,
{
    if from < i {
        assert(list[from].name@ != name);
        lemma_listed(list, name, from + 1, i);
    }
}

/// A name that no entry has leads to nothing.
pub proof fn missing_entries_hold_nothing(list: Seq<NamedEntry>, name: Seq<char>, from: int)
    requires
        0 <= from <= list.len(),
        forall|k: int| from <= k < list.len() ==> (#[trigger] list[k]).name@ != name,
    ensures
        listed_from(list, name, from) is None,
    decreases list.len() - from,
{
    if from < list.len() {
        assert(list[from].name@ != name);
        missing_entries_hold_nothing(list, name, from + 1);
    }
}

/// The image in an entry has the bytes of the entry, and its extension or `bin`.
pub proof fn images_are_entries(
    entries: spec_fn(Seq<char>) -> Option<Seq<u8>>,
    drives: bool,
    name: Seq<char>,
)
    ensures
        match entries(name) {
            None => images_from(entries, drives)(name) is None,
            Some(bytes) => images_from(entries, drives)(name) matches Some(image) && image.bytes
                == bytes && image.extension == match path_extension(name, drives) {
                Some(e) => e,
                None => seq!['b', 'i', 'n'],
            },
        },
{
    reveal_strlit("bin");
    assert("bin"@ == seq!['b', 'i', 'n']);
}

/// A file is converted from the parts of its archive: the text at `word/document.xml`, with the
/// relationships at `word/_rels/document.xml.rels` and the images of the archive.
pub proof fn documents_are_taken_out_of_archives(path: Seq<char>, bytes: Seq<u8>, drives: bool)
    ensures
        ({
            let r = extracted(path, SourceView::Bytes(bytes), drives);
            match zip_refusal(bytes) {
                Some(reason) => r matches Err(e) && e.kind == ErrorKind::InvalidDocx && e.message
                    == "无效 DOCX（无法读取 zip 结构）: "@ + path + " ("@ + reason + ")"@,
                None => match zip_text(bytes, "word/document.xml"@) {
                    Err(EntryErrorView::Missing) => r matches Err(e) && e.kind
                        == ErrorKind::InvalidDocx && e.message
                        == "无效 DOCX（缺少 word/document.xml）: "@ + path,
                    Err(EntryErrorView::Unreadable(f)) => r matches Err(e) && e.message
                        == "读取 document.xml 失败: "@ + path + ": "@ + f.message,
                    Ok(xml) => {
                        let rels = rels_in(
                            match zip_text(bytes, "word/_rels/document.xml.rels"@) {
                                Ok(text) => Some(text),
                                Err(_) => None,
                            },
                        );
                        let images = images_from(|name: Seq<char>| zip_bytes(bytes, name), drives);
                        &&& archive_rels(bytes) == rels
                        &&& match conversion(xml, rels, images) {
                            Ok(parsed) => r matches Ok(got) && got == parsed,
                            Err(f) => r matches Err(e) && e.kind == ErrorKind::ParseFailed
                                && e.message == "解析失败: "@ + path + " ("@ + f.message + ")"@,
                        }
                    },
                },
            }
        }),
{
    assert(zip_parts(bytes).entries =~= (|name: Seq<char>| zip_bytes(bytes, name)));
}

/// A file of which parts alone can be read is converted from those parts; one that is not there, or
/// cannot be opened, is an error that names its path.
pub proof fn documents_are_put_together_from_parts(path: Seq<char>, source: SourceView, drives: bool)
    ensures
        match source {
            SourceView::Bytes(_) => true,
            SourceView::Missing => extracted(path, source, drives) matches Err(e) && e.kind
                == ErrorKind::FileNotFound && e.message == "文件不存在: "@ + path,
            SourceView::Unopened(f) => extracted(path, source, drives) matches Err(e) && e.message
                == "无法打开文件: "@ + path + ": "@ + f.message,
            SourceView::Torn(Err(reason)) => extracted(path, source, drives) matches Err(e)
                && e.kind == ErrorKind::InvalidDocx,
            SourceView::Torn(Ok(parts)) => match parts.document {
                Ok(xml) => match conversion(
                    xml,
                    rels_in(parts.relationships),
                    images_from(parts.entries, drives),
                ) {
                    Ok(parsed) => extracted(path, source, drives) matches Ok(got) && got == parsed,
                    Err(_) => extracted(path, source, drives) matches Err(e) && e.kind
                        == ErrorKind::ParseFailed,
                },
                Err(_) => extracted(path, source, drives) is Err,
            },
        },
{
}

} // verus!
