//! The search for documents below a directory.

use vstd::prelude::*;

use crate::errors::{io_error, map_io_error, AppResult, ErrorView, IoFailure};
use crate::names::{docx_name, is_docx_name};
use crate::targets::{copy_texts, docs_of, DocView, Place, PlaceView, SourceDoc};
use crate::text::{concat, push_text, texts};

verus! {

/// What came of reading a directory: how its path is shown, and what came of looking at each of
/// its entries.
#[derive(Debug)]
pub struct DirListing {
    pub dir: String,
    pub looks: Result<Vec<EntryLook>, IoFailure>,
}

/// What came of looking at an entry of a directory.
#[derive(Debug)]
pub enum EntryLook {
    /// The entry cannot be read.
    Unread(IoFailure),
    /// What kind the entry at the path is cannot be told.
    Untold(String, IoFailure),
    /// A file.
    File(FoundFile),
    /// A directory, by its name. What it holds is needed for a recursive search alone.
    Directory(String, DirListing),
    /// Anything else.
    Other,
}

/// A file in a directory: the number that it is known by, how its path is shown, and its name.
#[derive(Debug)]
pub struct FoundFile {
    pub number: usize,
    pub text: String,
    pub name: String,
}

/// The document that a file is, in a directory that names lead to.
pub open spec fn doc_at(file: FoundFile, dirs: Seq<Seq<char>>) -> DocView {
    DocView {
        number: file.number as int,
        text: file.text@,
        place: PlaceView { dirs, name: file.name@ },
    }
}

/// The documents that a search takes from a directory that the names lead to, in the order in
/// which it meets them, or the first error that it meets.
pub open spec fn found_in(listing: DirListing, dirs: Seq<Seq<char>>, recursive: bool) -> Result<
    Seq<DocView>,
    ErrorView,
>
    decreases listing, 0nat,
{
    match listing.looks {
        Ok(looks) => found_before(listing.dir@, looks@, looks@.len(), dirs, recursive),
        Err(e) => Err(io_error(e@, "无法读取目录: "@ + listing.dir@)),
    }
}

/// What a search takes from the first `n` entries of a directory.
pub open spec fn found_before(
    dir: Seq<char>,
    looks: Seq<EntryLook>,
    n: nat,
    dirs: Seq<Seq<char>>,
    recursive: bool,
) -> Result<Seq<DocView>, ErrorView>
    decreases looks, n,
{
    if n == 0 || n > looks.len() {
        Ok(seq![])
    } else {
        match found_before(dir, looks, (n - 1) as nat, dirs, recursive) {
            Ok(earlier) => match found_at(dir, looks[n - 1], dirs, recursive) {
                Ok(more) => Ok(earlier + more),
                Err(e) => Err(e),
            },
            Err(e) => Err(e),
        }
    }
}

/// What a search takes from an entry of a directory: a DOCX file, and what lies below a directory
/// where the search is recursive.
pub open spec fn found_at(
    dir: Seq<char>,
    look: EntryLook,
    dirs: Seq<Seq<char>>,
    recursive: bool,
) -> Result<Seq<DocView>, ErrorView>
    decreases look, 0nat,
{
    match look {
        EntryLook::Unread(e) => Err(io_error(e@, "无法读取目录项: "@ + dir)),
        EntryLook::Untold(path, e) => Err(io_error(e@, "无法读取文件类型: "@ + path@)),
        EntryLook::File(file) => if docx_name(Some(file.name@)) {
            Ok(seq![doc_at(file, dirs)])
        } else {
            Ok(seq![])
        },
        EntryLook::Directory(name, listing) => if recursive {
            found_in(listing, dirs.push(name@), recursive)
        } else {
            Ok(seq![])
        },
        EntryLook::Other => Ok(seq![]),
    }
}

/// What a list of documents, or the error in its place, holds.
pub open spec fn docs_outcome(r: AppResult<Vec<SourceDoc>>) -> Result<Seq<DocView>, ErrorView> {
    match r {
        Ok(docs) => Ok(docs_of(docs@)),
        Err(e) => Err(e@),
    }
}

proof fn lemma_error_stays(
    dir: Seq<char>,
    looks: Seq<EntryLook>,
    k: nat,
    n: nat,
    dirs: Seq<Seq<char>>,
    recursive: bool,
)
    requires
        k <= n <= looks.len(),
        found_before(dir, looks, k, dirs, recursive) is Err,
    ensures
        found_before(dir, looks, n, dirs, recursive) == found_before(
            dir,
            looks,
            k,
            dirs,
            recursive,
        ),
    decreases n - k,
{
    if k < n {
        lemma_error_stays(dir, looks, k, (n - 1) as nat, dirs, recursive);
    }
}

/// Takes the documents out of what came of reading a directory that the names lead to.
pub fn collect_docx_files(listing: &DirListing, dirs: &Vec<String>, recursive: bool) -> (r:
    AppResult<Vec<SourceDoc>>)
    ensures
        docs_outcome(r) == found_in(*listing, texts(dirs@), recursive),
    decreases *listing,
{
    let looks = match &listing.looks {
        Ok(looks) => looks,
        Err(e) => {
            return Err(
                map_io_error(e, concat("无法读取目录: ", listing.dir.as_str()).as_str()),
            );
        },
    };
    let dir = listing.dir.as_str();
    let ghost names = texts(dirs@);
    let n: usize = looks.len();
    let mut docs: Vec<SourceDoc> = Vec::new();
    let mut i: usize = 0;
    assert(docs_of(docs@) == Seq::<DocView>::empty());
    while i < n
        invariant
            i <= n == looks@.len(),
            dir@ == listing.dir@,
            names == texts(dirs@),
            listing.looks == Ok::<Vec<EntryLook>, IoFailure>(*looks),
            found_before(dir@, looks@, i as nat, names, recursive) == Ok::<_, ErrorView>(
                docs_of(docs@),
            ),
        decreases n - i,
    {
        let ghost was = docs_of(docs@);
        let failed = match &looks[i] {
            EntryLook::Unread(e) => Some(
                map_io_error(e, concat("无法读取目录项: ", dir).as_str()),
            ),
            EntryLook::Untold(path, e) => Some(
                map_io_error(e, concat("无法读取文件类型: ", path.as_str()).as_str()),
            ),
            EntryLook::File(file) => {
                if is_docx_name(file.name.as_str()) {
                    let doc = SourceDoc {
                        number: file.number,
                        text: file.text.clone(),
                        place: Place { dirs: copy_texts(dirs), name: file.name.clone() },
                    };
                    assert(doc@ =~= doc_at(*file, names));
                    docs.push(doc);
                    assert(docs_of(docs@) == was.push(doc@));
                    assert(was.push(doc@) == was + seq![doc@]);
                } else {
                    assert(was + Seq::<DocView>::empty() == was);
                }
                None
            },
            EntryLook::Directory(name, below) => {
                if recursive {
                    let mut inner = copy_texts(dirs);
                    push_text(&mut inner, name.clone());
                    match collect_docx_files(below, &inner, recursive) {
                        Ok(mut more) => {
                            let ghost added = docs_of(more@);
                            docs.append(&mut more);
                            assert(docs_of(docs@) == was + added);
                            None
                        },
                        Err(e) => Some(e),
                    }
                } else {
                    assert(was + Seq::<DocView>::empty() == was);
                    None
                }
            },
            EntryLook::Other => {
                assert(was + Seq::<DocView>::empty() == was);
                None
            },
        };
        if let Some(e) = failed {
            assert(found_at(dir@, looks@[i as int], names, recursive) == Err::<
                Seq<DocView>,
                ErrorView,
            >(e@));
            proof {
                lemma_error_stays(dir@, looks@, (i + 1) as nat, n as nat, names, recursive);
            }
            return Err(e);
        }
        i = i + 1;
    }
    Ok(docs)
}

} // verus!
