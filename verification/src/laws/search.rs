//! Searches: which documents of a directory are taken.

use vstd::prelude::*;

use crate::names::docx_name;
use crate::options::ConvertOptions;
use crate::order::{at_places, lemma_path_total, order_keeps_all, order_of, path_less};
use crate::search::{doc_at, found_at, found_before, found_in, DirListing, EntryLook};
use crate::targets::{batch_of, doc_paths, place_of, same_stems, DocView};
use super::plans::batch_is_complete;

verus! {

/// Whether a directory can be read, with all its entries, and where the search is recursive all
/// below it.
pub open spec fn can_be_read(listing: DirListing, recursive: bool) -> bool
    decreases listing,
{
    &&& listing.looks is Ok
    &&& forall|i: int|
        0 <= i < listing.looks->Ok_0@.len() ==> can_be_told(
            #[trigger] listing.looks->Ok_0@[i],
            recursive,
        )
}

/// Whether an entry of a directory can be read.
pub open spec fn can_be_told(look: EntryLook, recursive: bool) -> bool
    decreases look,
{
    match look {
        EntryLook::Unread(_) => false,
        EntryLook::Untold(_, _) => false,
        EntryLook::File(_) => true,
        EntryLook::Directory(_, listing) => recursive ==> can_be_read(listing, recursive),
        EntryLook::Other => true,
    }
}

/// The name of a file or directory.
pub open spec fn entry_name(look: EntryLook) -> Option<Seq<char>> {
    match look {
        EntryLook::File(file) => Some(file.name@),
        EntryLook::Directory(name, _) => Some(name@),
        _ => None,
    }
}

/// Whether what was read is a tree: in no directory do two files or directories have one name.
pub open spec fn is_tree(listing: DirListing) -> bool
    decreases listing,
{
    listing.looks is Ok ==> {
        &&& forall|i: int, j: int|
            0 <= i < j < listing.looks->Ok_0@.len() && entry_name(
                #[trigger] listing.looks->Ok_0@[i],
            ) is Some ==> entry_name(listing.looks->Ok_0@[i]) != entry_name(
                #[trigger] listing.looks->Ok_0@[j],
            )
        &&& forall|i: int|
            0 <= i < listing.looks->Ok_0@.len() ==> is_tree_at(#[trigger] listing.looks->Ok_0@[i])
    }
}

/// Whether what was read at an entry is a tree.
pub open spec fn is_tree_at(look: EntryLook) -> bool
    decreases look,
{
    match look {
        EntryLook::Directory(_, listing) => is_tree(listing),
        _ => true,
    }
}

/// Whether a document is a DOCX file directly in a directory that the names lead to or, where the
/// search is recursive, at any depth below it.
pub open spec fn is_document_of(
    listing: DirListing,
    dirs: Seq<Seq<char>>,
    recursive: bool,
    d: DocView,
) -> bool
    decreases listing,
{
    &&& listing.looks is Ok
    &&& exists|i: int|
        0 <= i < listing.looks->Ok_0@.len() && is_document_at(
            #[trigger] listing.looks->Ok_0@[i],
            dirs,
            recursive,
            d,
        )
}

/// Whether a document is the DOCX file that an entry is or, where the search is recursive, one
/// below the directory that it is.
pub open spec fn is_document_at(
    look: EntryLook,
    dirs: Seq<Seq<char>>,
    recursive: bool,
    d: DocView,
) -> bool
    decreases look,
{
    match look {
        EntryLook::File(file) => d == doc_at(file, dirs) && docx_name(Some(file.name@)),
        EntryLook::Directory(name, listing) => recursive && is_document_of(
            listing,
            dirs.push(name@),
            recursive,
            d,
        ),
        _ => false,
    }
}

/// A search succeeds just where all that it looks at can be read.
pub proof fn readable_directories_are_searched(
    listing: DirListing,
    dirs: Seq<Seq<char>>,
    recursive: bool,
)
    ensures
        found_in(listing, dirs, recursive) is Ok <==> can_be_read(listing, recursive),
    decreases listing, 0nat,
{
    if let Ok(looks) = listing.looks {
        lemma_readable_before(listing.dir@, looks@, looks@.len(), dirs, recursive);
    }
}

proof fn lemma_readable_before(
    dir: Seq<char>,
    looks: Seq<EntryLook>,
    n: nat,
    dirs: Seq<Seq<char>>,
    recursive: bool,
)
    requires
        n <= looks.len(),
    ensures
        found_before(dir, looks, n, dirs, recursive) is Ok <==> forall|i: int|
            0 <= i < n ==> can_be_told(#[trigger] looks[i], recursive),
    decreases looks, n,
{
    if n > 0 {
        lemma_readable_before(dir, looks, (n - 1) as nat, dirs, recursive);
        lemma_readable_at(dir, looks[n - 1], dirs, recursive);
    }
}

proof fn lemma_readable_at(
    dir: Seq<char>,
    look: EntryLook,
    dirs: Seq<Seq<char>>,
    recursive: bool,
)
    ensures
        found_at(dir, look, dirs, recursive) is Ok <==> can_be_told(look, recursive),
    decreases look, 0nat,
{
    if let EntryLook::Directory(name, listing) = look {
        readable_directories_are_searched(listing, dirs.push(name@), recursive);
    }
}

/// A search takes the DOCX files directly in the directory or, where it is recursive, at any depth
/// below it, and nothing else.
pub proof fn search_takes_the_documents(
    listing: DirListing,
    dirs: Seq<Seq<char>>,
    recursive: bool,
    d: DocView,
)
    requires
        can_be_read(listing, recursive),
    ensures
        found_in(listing, dirs, recursive) matches Ok(docs) && (docs.contains(d)
            <==> is_document_of(listing, dirs, recursive, d)),
    decreases listing, 0nat,
{
    readable_directories_are_searched(listing, dirs, recursive);
    let looks = listing.looks->Ok_0@;
    lemma_taken_before(listing.dir@, looks, looks.len(), dirs, recursive, d);
}

proof fn lemma_taken_before(
    dir: Seq<char>,
    looks: Seq<EntryLook>,
    n: nat,
    dirs: Seq<Seq<char>>,
    recursive: bool,
    d: DocView,
)
    requires
        n <= looks.len(),
        found_before(dir, looks, n, dirs, recursive) is Ok,
    ensures
        found_before(dir, looks, n, dirs, recursive)->Ok_0.contains(d) <==> exists|i: int|
            0 <= i < n && is_document_at(#[trigger] looks[i], dirs, recursive, d),
    decreases looks, n,
{
    if n > 0 {
        lemma_taken_before(dir, looks, (n - 1) as nat, dirs, recursive, d);
        lemma_taken_at(dir, looks[n - 1], dirs, recursive, d);
        let earlier = found_before(dir, looks, (n - 1) as nat, dirs, recursive)->Ok_0;
        let more = found_at(dir, looks[n - 1], dirs, recursive)->Ok_0;
        let all = earlier + more;
        if all.contains(d) {
            let k = choose|k: int| 0 <= k < all.len() && all[k] == d;
            if k < earlier.len() {
                assert(earlier[k] == d);
            } else {
                assert(more[k - earlier.len()] == d);
            }
        }
        if earlier.contains(d) {
            let k = choose|k: int| 0 <= k < earlier.len() && earlier[k] == d;
            assert(all[k] == d);
        }
        if more.contains(d) {
            let k = choose|k: int| 0 <= k < more.len() && more[k] == d;
            assert(all[earlier.len() + k] == d);
        }
    }
}

proof fn lemma_taken_at(
    dir: Seq<char>,
    look: EntryLook,
    dirs: Seq<Seq<char>>,
    recursive: bool,
    d: DocView,
)
    requires
        found_at(dir, look, dirs, recursive) is Ok,
    ensures
        found_at(dir, look, dirs, recursive)->Ok_0.contains(d) <==> is_document_at(
            look,
            dirs,
            recursive,
            d,
        ),
    decreases look, 0nat,
{
    match look {
        EntryLook::File(file) => {
            if docx_name(Some(file.name@)) {
                assert(seq![doc_at(file, dirs)][0] == doc_at(file, dirs));
            }
        },
        EntryLook::Directory(name, listing) => {
            if recursive {
                readable_directories_are_searched(listing, dirs.push(name@), recursive);
                search_takes_the_documents(listing, dirs.push(name@), recursive, d);
            }
        },
        _ => {},
    }
}

/// Without recursion the documents of a directory are the DOCX files directly in it.
pub proof fn flat_search_stays_on_top(listing: DirListing, dirs: Seq<Seq<char>>, d: DocView)
    ensures
        is_document_of(listing, dirs, false, d) <==> (listing.looks is Ok && exists|i: int|
            0 <= i < listing.looks->Ok_0@.len() && (#[trigger] listing.looks->Ok_0@[i] matches
                EntryLook::File(file) && d == doc_at(file, dirs) && docx_name(Some(file.name@)))),
{
    if listing.looks is Ok {
        let looks = listing.looks->Ok_0@;
        if exists|i: int|
            0 <= i < looks.len() && (#[trigger] looks[i] matches EntryLook::File(file) && d
                == doc_at(file, dirs) && docx_name(Some(file.name@))) {
            let i = choose|i: int|
                0 <= i < looks.len() && (#[trigger] looks[i] matches EntryLook::File(file) && d
                    == doc_at(file, dirs) && docx_name(Some(file.name@)));
            assert(is_document_at(listing.looks->Ok_0@[i], dirs, false, d));
        }
    }
}

/// A search ends with the error of the first entry that cannot be read, and tells the directory or
/// the path, and why: of a directory that cannot be read, of an entry in one, and of an entry whose
/// kind cannot be told.
pub proof fn first_trouble_ends_a_search(
    listing: DirListing,
    dirs: Seq<Seq<char>>,
    recursive: bool,
    i: int,
)
    requires
        listing.looks matches Ok(looks) ==> 0 <= i < looks@.len() && !can_be_told(
            looks@[i],
            recursive,
        ) && forall|k: int| 0 <= k < i ==> can_be_told(#[trigger] looks@[k], recursive),
    ensures
        match listing.looks {
            Err(e) => found_in(listing, dirs, recursive) matches Err(f) && f.message
                == "无法读取目录: "@ + listing.dir@ + ": "@ + e@.message,
            Ok(looks) => match looks@[i] {
                EntryLook::Unread(e) => found_in(listing, dirs, recursive) matches Err(f)
                    && f.message == "无法读取目录项: "@ + listing.dir@ + ": "@ + e@.message,
                EntryLook::Untold(path, e) => found_in(listing, dirs, recursive) matches Err(f)
                    && f.message == "无法读取文件类型: "@ + path@ + ": "@ + e@.message,
                EntryLook::Directory(name, below) => found_in(listing, dirs, recursive) == found_in(
                    below,
                    dirs.push(name@),
                    recursive,
                ),
                _ => false,
            },
        },
{
    if let Ok(looks) = listing.looks {
        let all = looks@;
        lemma_readable_before(listing.dir@, all, i as nat, dirs, recursive);
        lemma_readable_at(listing.dir@, all[i], dirs, recursive);
        let n = (i + 1) as nat;
        assert(found_before(listing.dir@, all, n, dirs, recursive) == found_at(
            listing.dir@,
            all[i],
            dirs,
            recursive,
        )) by {
            assert(found_before(listing.dir@, all, i as nat, dirs, recursive) is Ok);
            assert(found_at(listing.dir@, all[i], dirs, recursive) is Err);
        }
        lemma_trouble_stays(listing.dir@, all, n, all.len(), dirs, recursive);
    }
}

proof fn lemma_trouble_stays(
    dir: Seq<char>,
    looks: Seq<EntryLook>,
    k: nat,
    n: nat,
    dirs: Seq<Seq<char>>,
    recursive: bool,
)
    requires
        k <= n <= looks.len(),
        found_before(dir, looks, k, dirs, recursive) is Err,
    ensures
        found_before(dir, looks, n, dirs, recursive) == found_before(
            dir,
            looks,
            k,
            dirs,
            recursive,
        ),
    decreases n - k,
{
    if k < n {
        lemma_trouble_stays(dir, looks, k, (n - 1) as nat, dirs, recursive);
    }
}

/// Whether names begin with others, and one more.
spec fn is_below(names: Seq<Seq<char>>, dirs: Seq<Seq<char>>, name: Seq<char>) -> bool {
    &&& names.len() > dirs.len()
    &&& names.take(dirs.len() as int) == dirs
    &&& names[dirs.len() as int] == name
}

/// What is found at an entry lies below the directory, under the name of the entry.
proof fn lemma_names_at(
    dir: Seq<char>,
    look: EntryLook,
    dirs: Seq<Seq<char>>,
    recursive: bool,
    k: int,
)
    requires
        found_at(dir, look, dirs, recursive) is Ok,
        0 <= k < found_at(dir, look, dirs, recursive)->Ok_0.len(),
    ensures
        entry_name(look) is Some,
        is_below(
            found_at(dir, look, dirs, recursive)->Ok_0[k].names(),
            dirs,
            entry_name(look).unwrap(),
        ),
    decreases look, 0nat,
{
    let d = found_at(dir, look, dirs, recursive)->Ok_0[k];
    match look {
        EntryLook::File(file) => {
            assert(d.names().take(dirs.len() as int) == dirs);
        },
        EntryLook::Directory(name, listing) => {
            let inner = dirs.push(name@);
            let looks = listing.looks->Ok_0@;
            lemma_names_before(listing.dir@, looks, looks.len(), inner, recursive, k);
            let names = d.names();
            assert(names[dirs.len() as int] == names.take(inner.len() as int)[dirs.len() as int]);
            assert(names.take(dirs.len() as int) == names.take(inner.len() as int).take(
                dirs.len() as int,
            ));
            assert(inner.take(dirs.len() as int) == dirs);
        },
        _ => {},
    }
}

/// What is found in the first entries lies below the directory, each under the name of its entry.
proof fn lemma_names_before(
    dir: Seq<char>,
    looks: Seq<EntryLook>,
    n: nat,
    dirs: Seq<Seq<char>>,
    recursive: bool,
    k: int,
)
    requires
        n <= looks.len(),
        found_before(dir, looks, n, dirs, recursive) is Ok,
        0 <= k < found_before(dir, looks, n, dirs, recursive)->Ok_0.len(),
    ensures
        exists|i: int|
            0 <= i < n && entry_name(#[trigger] looks[i]) is Some && is_below(
                found_before(dir, looks, n, dirs, recursive)->Ok_0[k].names(),
                dirs,
                entry_name(looks[i]).unwrap(),
            ),
        found_before(dir, looks, n, dirs, recursive)->Ok_0[k].names().len() > dirs.len(),
        found_before(dir, looks, n, dirs, recursive)->Ok_0[k].names().take(dirs.len() as int)
            == dirs,
    decreases looks, n,
{
    if n > 0 {
        let earlier = found_before(dir, looks, (n - 1) as nat, dirs, recursive)->Ok_0;
        if k < earlier.len() {
            lemma_names_before(dir, looks, (n - 1) as nat, dirs, recursive, k);
        } else {
            lemma_names_at(dir, looks[n - 1], dirs, recursive, k - earlier.len());
        }
    }
}

/// In a tree no two documents have the same names leading to them.
pub proof fn documents_of_a_tree_differ(
    listing: DirListing,
    dirs: Seq<Seq<char>>,
    recursive: bool,
    j: int,
    k: int,
)
    requires
        is_tree(listing),
        found_in(listing, dirs, recursive) is Ok,
        0 <= j < k < found_in(listing, dirs, recursive)->Ok_0.len(),
    ensures
        found_in(listing, dirs, recursive)->Ok_0[j].names() != found_in(
            listing,
            dirs,
            recursive,
        )->Ok_0[k].names(),
    decreases listing, 0nat,
{
    let looks = listing.looks->Ok_0@;
    assert forall|a: int, b: int|
        0 <= a < b < looks.len() && entry_name(#[trigger] looks[a]) is Some implies entry_name(
        looks[a],
    ) != entry_name(#[trigger] looks[b]) by {
        assert(listing.looks->Ok_0@[a] == looks[a] && listing.looks->Ok_0@[b] == looks[b]);
    }
    assert forall|a: int| 0 <= a < looks.len() implies is_tree_at(#[trigger] looks[a]) by {
        assert(listing.looks->Ok_0@[a] == looks[a]);
    }
    lemma_differ_before(listing.dir@, looks, looks.len(), dirs, recursive, j, k);
}

proof fn lemma_differ_before(
    dir: Seq<char>,
    looks: Seq<EntryLook>,
    n: nat,
    dirs: Seq<Seq<char>>,
    recursive: bool,
    j: int,
    k: int,
)
    requires
        n <= looks.len(),
        forall|a: int, b: int|
            0 <= a < b < looks.len() && entry_name(#[trigger] looks[a]) is Some ==> entry_name(
                looks[a],
            ) != entry_name(#[trigger] looks[b]),
        forall|a: int| 0 <= a < looks.len() ==> is_tree_at(#[trigger] looks[a]),
        found_before(dir, looks, n, dirs, recursive) is Ok,
        0 <= j < k < found_before(dir, looks, n, dirs, recursive)->Ok_0.len(),
    ensures
        found_before(dir, looks, n, dirs, recursive)->Ok_0[j].names() != found_before(
            dir,
            looks,
            n,
            dirs,
            recursive,
        )->Ok_0[k].names(),
    decreases looks, n,
{
    if n > 0 {
        let look = looks[n - 1];
        let earlier = found_before(dir, looks, (n - 1) as nat, dirs, recursive)->Ok_0;
        let more = found_at(dir, look, dirs, recursive)->Ok_0;
        let e = earlier.len() as int;
        if k < e {
            lemma_differ_before(dir, looks, (n - 1) as nat, dirs, recursive, j, k);
        } else if j < e {
            lemma_names_before(dir, looks, (n - 1) as nat, dirs, recursive, j);
            lemma_names_at(dir, look, dirs, recursive, k - e);
            let i = choose|i: int|
                0 <= i < n - 1 && entry_name(#[trigger] looks[i]) is Some && is_below(
                    earlier[j].names(),
                    dirs,
                    entry_name(looks[i]).unwrap(),
                );
            assert(entry_name(looks[i]) != entry_name(looks[n - 1]));
        } else if let EntryLook::Directory(name, listing) = look {
            assert(is_tree_at(looks[n - 1]));
            documents_of_a_tree_differ(listing, dirs.push(name@), recursive, j - e, k - e);
        }
    }
}

/// The documents that a batch takes from a directory, in its order.
pub open spec fn batch_docs(listing: DirListing, recursive: bool) -> Seq<DocView> {
    let docs = found_in(listing, seq![], recursive)->Ok_0;
    at_places(docs, order_of(doc_paths(docs)))
}

/// A batch over a directory that can be read takes the DOCX files directly in it or, where the
/// search is recursive, at any depth below it, and nothing else: each once, in the order of their
/// paths, of which no two are the same in a tree.
pub proof fn batch_takes_the_documents(listing: DirListing, options: ConvertOptions)
    requires
        can_be_read(listing, options.recursive),
    ensures
        ({
            let taken = batch_docs(listing, options.recursive);
            &&& batch_of(listing, options) matches Ok(targets) && {
                &&& targets.len() == taken.len()
                &&& forall|k: int|
                    0 <= k < taken.len() ==> (#[trigger] targets[k]).src == taken[k].text
                        && targets[k].doc == taken[k].number
            }
            &&& taken.to_multiset() == found_in(
                listing,
                seq![],
                options.recursive,
            )->Ok_0.to_multiset()
            &&& forall|d: DocView| #[trigger]
                taken.contains(d) <==> is_document_of(listing, seq![], options.recursive, d)
            &&& taken.len() == 0 <==> forall|d: DocView|
                !is_document_of(listing, seq![], options.recursive, d)
            &&& forall|i: int, k: int|
                0 <= i < k < taken.len() ==> !path_less(
                    (#[trigger] taken[k]).names(),
                    (#[trigger] taken[i]).names(),
                )
            &&& is_tree(listing) ==> in_path_order(taken)
        }),
{
    let recursive = options.recursive;
    readable_directories_are_searched(listing, seq![], recursive);
    let docs = found_in(listing, seq![], recursive)->Ok_0;
    let order = order_of(doc_paths(docs));
    let taken = batch_docs(listing, recursive);
    batch_is_complete(docs, options.keep_structure);
    let targets = batch_of(listing, options)->Ok_0;
    assert forall|k: int| 0 <= k < taken.len() implies (#[trigger] targets[k]).src
        == taken[k].text && targets[k].doc == taken[k].number by {
        assert(taken[k] == docs[order[k]]);
    }
    order_keeps_all(doc_paths(docs), docs);
    assert forall|d: DocView| #[trigger]
        taken.contains(d) <==> is_document_of(listing, seq![], recursive, d) by {
        search_takes_the_documents(listing, seq![], recursive, d);
        taken.to_multiset_ensures();
        docs.to_multiset_ensures();
        assert(taken.contains(d) <==> taken.to_multiset().count(d) > 0);
        assert(docs.contains(d) <==> docs.to_multiset().count(d) > 0);
    }
    if taken.len() > 0 {
        assert(taken.contains(taken[0]));
    } else {
        assert forall|d: DocView| !is_document_of(listing, seq![], recursive, d) by {
            assert(!taken.contains(d));
        }
    }
    assert forall|i: int, k: int| 0 <= i < k < taken.len() implies !path_less(
        (#[trigger] taken[k]).names(),
        (#[trigger] taken[i]).names(),
    ) by {
        assert(taken[i] == docs[order[i]] && taken[k] == docs[order[k]]);
    }
    if is_tree(listing) {
        lemma_tree_in_order(listing, recursive);
    }
}

/// Whether documents stand strictly in the order of their paths.
pub open spec fn in_path_order(docs: Seq<DocView>) -> bool {
    forall|i: int, k: int|
        0 <= i < k < docs.len() ==> path_less(
            (#[trigger] docs[i]).names(),
            (#[trigger] docs[k]).names(),
        )
}

proof fn lemma_tree_in_order(listing: DirListing, recursive: bool)
    requires
        is_tree(listing),
        can_be_read(listing, recursive),
    ensures
        in_path_order(batch_docs(listing, recursive)),
{
    readable_directories_are_searched(listing, seq![], recursive);
    let docs = found_in(listing, seq![], recursive)->Ok_0;
    let paths = doc_paths(docs);
    let order = order_of(paths);
    let taken = batch_docs(listing, recursive);
    batch_is_complete(docs, true);
    assert forall|i: int, k: int| 0 <= i < k < taken.len() implies path_less(
        (#[trigger] taken[i]).names(),
        (#[trigger] taken[k]).names(),
    ) by {
        let a = order[i];
        let b = order[k];
        lemma_path_total(paths[a], paths[b]);
        if a < b {
            documents_of_a_tree_differ(listing, seq![], recursive, a, b);
        } else {
            documents_of_a_tree_differ(listing, seq![], recursive, b, a);
        }
    }
}

/// Which documents a batch takes, and in which order, depends on the search alone, not on where
/// the results go or whether they are written over.
pub proof fn batch_does_not_depend_on_places(
    listing: DirListing,
    options: ConvertOptions,
    others: ConvertOptions,
)
    requires
        options.recursive == others.recursive,
    ensures
        match (batch_of(listing, options), batch_of(listing, others)) {
            (Ok(a), Ok(b)) => a.len() == b.len() && forall|k: int|
                0 <= k < a.len() ==> (#[trigger] a[k]).doc == b[k].doc && a[k].src == b[k].src,
            (Err(e), Err(f)) => e == f,
            _ => false,
        },
{
}

/// Whether a document stands in a directory as it is searched, by whatever number it is known.
pub open spec fn is_in(listing: DirListing, recursive: bool, d: DocView) -> bool {
    exists|number: int| #[trigger]
        is_document_of(listing, seq![], recursive, d.known_by(number))
}

/// Documents without the numbers that they are known by.
spec fn unnumbered(docs: Seq<DocView>) -> Seq<DocView> {
    Seq::new(docs.len(), |k: int| docs[k].known_by(0))
}

/// Lists in the order of paths that hold the same documents are the same.
proof fn lemma_same_documents(a: Seq<DocView>, b: Seq<DocView>)
    requires
        in_path_order(a),
        in_path_order(b),
        forall|d: DocView| #[trigger] a.contains(d) <==> b.contains(d),
    ensures
        a == b,
    decreases a.len(),
{
    if a.len() == 0 {
        if b.len() > 0 {
            assert(b.contains(b[0]));
            assert(a.contains(b[0]));
        }
    } else {
        let x = a.last();
        assert(a.contains(x));
        assert(b.contains(x));
        let y = b.last();
        assert(b.contains(y));
        assert(a.contains(y));
        let j = choose|j: int| 0 <= j < b.len() && b[j] == x;
        let i = choose|i: int| 0 <= i < a.len() && a[i] == y;
        lemma_path_total(x.names(), y.names());
        assert(x == y) by {
            if j < b.len() - 1 && i < a.len() - 1 {
                assert(path_less(b[j].names(), b[b.len() - 1].names()));
                assert(path_less(a[i].names(), a[a.len() - 1].names()));
            }
        }
        let p = a.drop_last();
        let q = b.drop_last();
        assert(in_path_order(p)) by {
            assert forall|i: int, k: int| 0 <= i < k < p.len() implies path_less(
                (#[trigger] p[i]).names(),
                (#[trigger] p[k]).names(),
            ) by {
                assert(p[i] == a[i] && p[k] == a[k]);
            }
        }
        assert(in_path_order(q)) by {
            assert forall|i: int, k: int| 0 <= i < k < q.len() implies path_less(
                (#[trigger] q[i]).names(),
                (#[trigger] q[k]).names(),
            ) by {
                assert(q[i] == b[i] && q[k] == b[k]);
            }
        }
        assert forall|d: DocView| #[trigger] p.contains(d) <==> q.contains(d) by {
            lemma_without_last(a, d);
            lemma_without_last(b, d);
            assert(a.contains(d) <==> b.contains(d));
        }
        lemma_same_documents(p, q);
        assert(a == p.push(x));
        assert(b == q.push(y));
    }
}

proof fn lemma_without_last(a: Seq<DocView>, d: DocView)
    requires
        in_path_order(a),
        a.len() > 0,
    ensures
        a.drop_last().contains(d) <==> a.contains(d) && d != a.last(),
{
    let p = a.drop_last();
    if p.contains(d) {
        let k = choose|k: int| 0 <= k < p.len() && p[k] == d;
        assert(a[k] == d);
        assert(path_less(a[k].names(), a[a.len() - 1].names()));
        lemma_path_total(d.names(), d.names());
    }
    if a.contains(d) && d != a.last() {
        let k = choose|k: int| 0 <= k < a.len() && a[k] == d;
        assert(p[k] == d);
    }
}

/// What a batch takes, without numbers, is what stands in the directory.
proof fn lemma_unnumbered(listing: DirListing, options: ConvertOptions, d: DocView)
    requires
        can_be_read(listing, options.recursive),
        d.number == 0,
    ensures
        unnumbered(batch_docs(listing, options.recursive)).contains(d) <==> is_in(
            listing,
            options.recursive,
            d,
        ),
{
    let recursive = options.recursive;
    batch_takes_the_documents(listing, options);
    let taken = batch_docs(listing, recursive);
    let bare = unnumbered(taken);
    if bare.contains(d) {
        let k = choose|k: int| 0 <= k < bare.len() && bare[k] == d;
        assert(taken.contains(taken[k]));
        assert(taken[k] == d.known_by(taken[k].number));
        assert(is_document_of(listing, seq![], recursive, d.known_by(taken[k].number)));
    }
    if is_in(listing, recursive, d) {
        let number = choose|number: int| #[trigger]
            is_document_of(listing, seq![], recursive, d.known_by(number));
        assert(taken.contains(d.known_by(number)));
        let k = choose|k: int| 0 <= k < taken.len() && taken[k] == d.known_by(number);
        assert(bare[k] == d);
    }
}

proof fn lemma_same_stems(
    docs: Seq<DocView>,
    order: Seq<int>,
    others: Seq<DocView>,
    places: Seq<int>,
    n: int,
    stem: Seq<char>,
)
    requires
        forall|k: int|
            0 <= k < n ==> docs[#[trigger] order[k]].stem() == others[places[k]].stem(),
    ensures
        same_stems(docs, order, n, stem) == same_stems(others, places, n, stem),
    decreases n,
{
    if n > 0 {
        assert(docs[order[n - 1]].stem() == others[places[n - 1]].stem());
        lemma_same_stems(docs, order, others, places, n - 1, stem);
    }
}

/// Trees in which the same documents stand give the same batch: in which order the entries of a
/// directory are read, and how the documents are numbered, does not matter.
pub proof fn batch_does_not_depend_on_reading(
    listing: DirListing,
    other: DirListing,
    options: ConvertOptions,
)
    requires
        is_tree(listing),
        is_tree(other),
        can_be_read(listing, options.recursive),
        can_be_read(other, options.recursive),
        forall|d: DocView| #[trigger]
            is_in(listing, options.recursive, d) <==> is_in(other, options.recursive, d),
    ensures
        match (batch_of(listing, options), batch_of(other, options)) {
            (Ok(a), Ok(b)) => a.len() == b.len() && forall|k: int|
                0 <= k < a.len() ==> (#[trigger] a[k]).src == b[k].src && a[k].place == b[k].place,
            _ => false,
        },
{
    let recursive = options.recursive;
    let keep = options.keep_structure;
    batch_takes_the_documents(listing, options);
    batch_takes_the_documents(other, options);
    let x = unnumbered(batch_docs(listing, recursive));
    let y = unnumbered(batch_docs(other, recursive));
    lemma_order_unnumbered(batch_docs(listing, recursive));
    lemma_order_unnumbered(batch_docs(other, recursive));
    assert forall|d: DocView| #[trigger] x.contains(d) <==> y.contains(d) by {
        if d.number == 0 {
            lemma_unnumbered(listing, options, d);
            lemma_unnumbered(other, options, d);
            assert(is_in(listing, recursive, d) <==> is_in(other, recursive, d));
        }
    }
    lemma_same_documents(x, y);
    let docs = found_in(listing, seq![], recursive)->Ok_0;
    let order = order_of(doc_paths(docs));
    let others = found_in(other, seq![], recursive)->Ok_0;
    let places = order_of(doc_paths(others));
    let a = batch_of(listing, options)->Ok_0;
    let b = batch_of(other, options)->Ok_0;
    assert(x.len() == y.len());
    assert forall|k: int| 0 <= k < docs.len() implies docs[#[trigger] order[k]].known_by(0)
        == others[places[k]].known_by(0) by {
        assert(x[k] == y[k]);
    }
    assert forall|k: int| 0 <= k < a.len() implies (#[trigger] a[k]).src == b[k].src && a[k].place
        == b[k].place by {
        let d = docs[order[k]];
        let e = others[places[k]];
        assert(d.known_by(0) == e.known_by(0));
        assert forall|i: int| 0 <= i < k + 1 implies docs[#[trigger] order[i]].stem()
            == others[places[i]].stem() by {
            assert(docs[order[i]].known_by(0).place == others[places[i]].known_by(0).place);
        }
        lemma_same_stems(docs, order, others, places, k + 1, d.stem());
        assert(a[k].place == place_of(docs, order, k, keep));
        assert(b[k].place == place_of(others, places, k, keep));
    }
}

proof fn lemma_order_unnumbered(docs: Seq<DocView>)
    requires
        in_path_order(docs),
    ensures
        in_path_order(unnumbered(docs)),
{
    let bare = unnumbered(docs);
    assert forall|i: int, k: int| 0 <= i < k < bare.len() implies path_less(
        (#[trigger] bare[i]).names(),
        (#[trigger] bare[k]).names(),
    ) by {
        assert(bare[i].names() == docs[i].names() && bare[k].names() == docs[k].names());
    }
}

} // verus!
