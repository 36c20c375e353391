//! Which documents are converted, and where each result goes.

use vstd::prelude::*;

use crate::errors::{AppResult, ErrorView};
use crate::names::{file_stem, stem_of, FilePath};
use crate::number::{decimal, is_digit, show};
use crate::options::ConvertOptions;
use crate::order::{is_order, order_of, paths_of, places_of, sort_paths};
use crate::search::{collect_docx_files, found_in, DirListing};
use crate::text::{chars_of, push_text, same_text, texts, to_lowercase, unicode_lowered};
use crate::xml::text_of;

verus! {

/// A place below a directory: the directories that lead to it, and the name of the file.
#[derive(Clone, Debug)]
pub struct Place {
    pub dirs: Vec<String>,
    pub name: String,
}

/// What a place holds.
#[verifier::ext_equal]
pub struct PlaceView {
    pub dirs: Seq<Seq<char>>,
    pub name: Seq<char>,
}

impl View for Place {
    type V = PlaceView;

    open spec fn view(&self) -> PlaceView {
        PlaceView { dirs: texts(self.dirs@), name: self.name@ }
    }
}

/// A document that was found below the input directory.
#[derive(Clone, Debug)]
pub struct SourceDoc {
    /// The number that it is known by.
    pub number: usize,
    /// How its path is shown.
    pub text: String,
    /// Where it stands below the input directory.
    pub place: Place,
}

/// What a found document holds.
#[verifier::ext_equal]
pub struct DocView {
    pub number: int,
    pub text: Seq<char>,
    pub place: PlaceView,
}

impl View for SourceDoc {
    type V = DocView;

    open spec fn view(&self) -> DocView {
        DocView { number: self.number as int, text: self.text@, place: self.place@ }
    }
}

impl DocView {
    /// The names that lead to the document, the last of them its own.
    pub open spec fn names(self) -> Seq<Seq<char>> {
        self.place.dirs.push(self.place.name)
    }

    /// The document, known by another number.
    pub open spec fn known_by(self, number: int) -> DocView {
        DocView { number, ..self }
    }

    /// The stem of its name.
    pub open spec fn stem(self) -> Seq<char> {
        stem_of(self.place.name)
    }
}

/// What each document of a list holds.
pub open spec fn docs_of(docs: Seq<SourceDoc>) -> Seq<DocView> {
    Seq::new(docs.len(), |i: int| docs[i]@)
}

/// The kind of what a path leads to.
#[derive(Clone, Copy, Debug, PartialEq, Eq, Structural)]
pub enum PathKind {
    File,
    Directory,
    Other,
}

/// A document, and where its result goes below the output directory.
#[derive(Clone, Debug)]
pub struct Target {
    /// The number that the document is known by.
    pub doc: usize,
    pub src: String,
    pub place: Place,
}

/// What a target holds.
#[verifier::ext_equal]
pub struct TargetView {
    pub doc: int,
    pub src: Seq<char>,
    pub place: PlaceView,
}

impl View for Target {
    type V = TargetView;

    open spec fn view(&self) -> TargetView {
        TargetView { doc: self.doc as int, src: self.src@, place: self.place@ }
    }
}

/// What each target of a list holds.
pub open spec fn targets_of(targets: Seq<Target>) -> Seq<TargetView> {
    Seq::new(targets.len(), |i: int| targets[i]@)
}

/// The stem of a document, or the one that stands for a missing one.
pub open spec fn doc_stem(file_name: Option<Seq<char>>) -> Seq<char> {
    match file_name {
        Some(name) => stem_of(name),
        None => "output"@,
    }
}

/// The names that lead to documents.
pub open spec fn doc_paths(docs: Seq<DocView>) -> Seq<Seq<Seq<char>>> {
    Seq::new(docs.len(), |i: int| docs[i].names())
}

/// How many of the first `n` documents of an order have the stem, whatever its case.
pub open spec fn same_stems(
    docs: Seq<DocView>,
    order: Seq<int>,
    n: int,
    stem: Seq<char>,
) -> nat
    decreases n,
{
    if n <= 0 {
        0
    } else {
        same_stems(docs, order, n - 1, stem) + if unicode_lowered(docs[order[n - 1]].stem())
            == unicode_lowered(stem) {
            1nat
        } else {
            0
        }
    }
}

/// The name of the result with a stem that has come up so many times.
pub open spec fn flat_name(stem: Seq<char>, times: nat) -> Seq<char> {
    if times == 1 {
        stem + ".md"@
    } else {
        stem + "_"@ + decimal(times) + ".md"@
    }
}

/// Where the result of the `k`th document of an order goes. With the structure kept, it stands
/// below the output directory as the document stands below the input directory; otherwise at the
/// top, with a number where the name has come up before.
pub open spec fn place_of(
    docs: Seq<DocView>,
    order: Seq<int>,
    k: int,
    keep_structure: bool,
) -> PlaceView {
    let doc = docs[order[k]];
    if keep_structure {
        PlaceView { dirs: doc.place.dirs, name: doc.stem() + ".md"@ }
    } else {
        PlaceView {
            dirs: seq![],
            name: flat_name(doc.stem(), same_stems(docs, order, k + 1, doc.stem())),
        }
    }
}

/// The target of the `k`th document of an order.
pub open spec fn target_of(
    docs: Seq<DocView>,
    order: Seq<int>,
    k: int,
    keep_structure: bool,
) -> TargetView {
    TargetView {
        doc: docs[order[k]].number,
        src: docs[order[k]].text,
        place: place_of(docs, order, k, keep_structure),
    }
}

/// The targets of documents, in the order of their paths.
pub open spec fn batch_targets(docs: Seq<DocView>, keep_structure: bool) -> Seq<TargetView> {
    Seq::new(
        docs.len(),
        |k: int| target_of(docs, order_of(doc_paths(docs)), k, keep_structure),
    )
}

/// What a list of targets, or the error in its place, holds.
pub open spec fn targets_outcome(r: AppResult<Vec<Target>>) -> Result<
    Seq<TargetView>,
    ErrorView,
> {
    match r {
        Ok(targets) => Ok(targets_of(targets@)),
        Err(e) => Err(e@),
    }
}

/// A copy of a list of texts.
pub fn copy_texts(v: &Vec<String>) -> (r: Vec<String>)
    ensures
        texts(r@) == texts(v@),
{
    let mut r: Vec<String> = Vec::new();
    let mut i: usize = 0;
    while i < v.len()
        invariant
            i <= v@.len(),
            texts(r@) == texts(v@).take(i as int),
        decreases v.len() - i,
    {
        let ghost was = texts(r@);
        r.push(v[i].clone());
        assert(texts(r@) == was.push(v@[i as int]@));
        i = i + 1;
        assert(texts(r@) == texts(v@).take(i as int));
    }
    assert(texts(v@).take(i as int) == texts(v@));
    r
}

fn stem_of_doc(file_name: &Option<String>) -> (r: String)
    ensures
        r@ == doc_stem(text_of(*file_name)),
{
    match file_name {
        Some(name) => file_stem(name.as_str()),
        None => "output".to_owned(),
    }
}

/// The target of a document that is converted by itself.
pub open spec fn single_target(path: Seq<char>, file_name: Option<Seq<char>>) -> TargetView {
    TargetView {
        doc: 0,
        src: path,
        place: PlaceView { dirs: seq![], name: doc_stem(file_name) + ".md"@ },
    }
}

/// The target of a document that is converted by itself.
pub fn single_file(input: &str, path: &FilePath) -> (r: Target)
    ensures
        r@ == single_target(input@, path@.file_name),
{
    let mut name = stem_of_doc(&path.file_name);
    name.append(".md");
    let r = Target { doc: 0, src: input.to_owned(), place: Place { dirs: Vec::new(), name } };
    assert(r@ =~= single_target(input@, path@.file_name));
    r
}

fn names_of(docs: &Vec<SourceDoc>) -> (r: Vec<Vec<String>>)
    ensures
        paths_of(r@) == doc_paths(docs_of(docs@)),
{
    let mut r: Vec<Vec<String>> = Vec::new();
    let ghost all = doc_paths(docs_of(docs@));
    let mut i: usize = 0;
    while i < docs.len()
        invariant
            i <= docs@.len(),
            all == doc_paths(docs_of(docs@)),
            paths_of(r@) == all.take(i as int),
        decreases docs.len() - i,
    {
        let ghost was = paths_of(r@);
        let mut names = copy_texts(&docs[i].place.dirs);
        push_text(&mut names, docs[i].place.name.clone());
        assert(texts(names@) == all[i as int]);
        r.push(names);
        assert(paths_of(r@) == was.push(all[i as int]));
        i = i + 1;
        assert(paths_of(r@) == all.take(i as int));
    }
    assert(all.take(i as int) == all);
    r
}

fn numbered(stem: &str, times: usize) -> (r: String)
    ensures
        r@ == flat_name(stem@, times as nat),
{
    let mut name = stem.to_owned();
    if times != 1 {
        name.append("_");
        name.append(show(times).as_str());
    }
    name.append(".md");
    name
}

/// Plans where the results of documents go, in the order of their paths.
pub fn place_documents(docs: &Vec<SourceDoc>, keep_structure: bool) -> (r: Vec<Target>)
    ensures
        targets_of(r@) == batch_targets(docs_of(docs@), keep_structure),
{
    let ghost ds = docs_of(docs@);
    let keys = names_of(docs);
    let places = sort_paths(&keys);
    let ghost order = order_of(doc_paths(ds));
    let ghost wanted = batch_targets(ds, keep_structure);
    let n: usize = docs.len();
    let mut result: Vec<Target> = Vec::new();
    let mut lowered: Vec<String> = Vec::new();
    let mut k: usize = 0;
    assert(targets_of(result@) == wanted.take(0));
    while k < n
        invariant
            k <= n == docs@.len(),
            ds == docs_of(docs@),
            places_of(places@) == order,
            is_order(doc_paths(ds), order),
            order == order_of(doc_paths(ds)),
            wanted == batch_targets(ds, keep_structure),
            targets_of(result@) == wanted.take(k as int),
            !keep_structure ==> lowered@.len() == k,
            !keep_structure ==> forall|i: int|
                0 <= i < k ==> (#[trigger] lowered@[i])@ == unicode_lowered(ds[order[i]].stem()),
        decreases n - k,
    {
        assert(order.len() == n);
        assert(order[k as int] == places@[k as int]);
        let at: usize = places[k];
        assert(at < n);
        let doc = &docs[at];
        assert(ds[at as int] == doc@);
        let stem = file_stem(doc.place.name.as_str());
        let place = if keep_structure {
            let mut name = stem;
            name.append(".md");
            Place { dirs: copy_texts(&doc.place.dirs), name }
        } else {
            let lower = to_lowercase(stem.as_str());
            let mut times: usize = 1;
            let mut i: usize = 0;
            while i < k
                invariant
                    i <= k < n,
                    lowered@.len() == k,
                    lower@ == unicode_lowered(stem@),
                    forall|i: int|
                        0 <= i < k ==> (#[trigger] lowered@[i])@ == unicode_lowered(
                            ds[order[i]].stem(),
                        ),
                    times <= i + 1,
                    times == 1 + same_stems(ds, order, i as int, stem@),
                decreases k - i,
            {
                if same_text(lowered[i].as_str(), lower.as_str()) {
                    times = times + 1;
                }
                i = i + 1;
            }
            lowered.push(lower);
            let place = Place { dirs: Vec::new(), name: numbered(stem.as_str(), times) };
            assert(place@.dirs =~= Seq::<Seq<char>>::empty());
            place
        };
        assert(place_of(ds, order, k as int, keep_structure) =~= place@);
        let ghost was = targets_of(result@);
        result.push(Target { doc: doc.number, src: doc.text.clone(), place });
        assert(targets_of(result@) == was.push(wanted[k as int]));
        k = k + 1;
        assert(targets_of(result@) == wanted.take(k as int));
    }
    assert(wanted.take(k as int) == wanted);
    result
}

/// The targets of the documents that a search takes from a directory.
pub open spec fn batch_of(listing: DirListing, options: ConvertOptions) -> Result<
    Seq<TargetView>,
    ErrorView,
> {
    match found_in(listing, seq![], options.recursive) {
        Ok(docs) => Ok(batch_targets(docs, options.keep_structure)),
        Err(e) => Err(e),
    }
}

/// Plans the conversion of the documents below a directory, from what came of reading it.
pub fn build_batch_files(listing: &DirListing, options: ConvertOptions) -> (r: AppResult<
    Vec<Target>,
>)
    ensures
        targets_outcome(r) == batch_of(*listing, options),
{
    let top: Vec<String> = Vec::new();
    assert(texts(top@) == Seq::<Seq<char>>::empty());
    match collect_docx_files(listing, &top, options.recursive) {
        Ok(docs) => Ok(place_documents(&docs, options.keep_structure)),
        Err(e) => Err(e),
    }
}

/// How many bytes a character takes in UTF-8.
pub open spec fn byte_width(c: char) -> nat {
    if c <= '\u{7f}' {
        1
    } else if c <= '\u{7ff}' {
        2
    } else if c <= '\u{ffff}' {
        3
    } else {
        4
    }
}

/// How many bytes a text takes in UTF-8.
pub open spec fn byte_len(s: Seq<char>) -> nat
    decreases s.len(),
{
    if s.len() == 0 {
        0
    } else {
        byte_len(s.drop_last()) + byte_width(s.last())
    }
}

/// A text without the decimal digits at its end.
pub open spec fn without_number(s: Seq<char>) -> Seq<char>
    decreases s.len(),
{
    if s.len() > 0 && is_digit(s.last()) {
        without_number(s.drop_last())
    } else {
        s
    }
}

/// Whether a stem looks as if it had been given a number: at least three bytes, and an underscore
/// before the digits at its end.
pub open spec fn looks_numbered(stem: Seq<char>) -> bool {
    byte_len(stem) >= 3 && without_number(stem).len() > 0 && without_number(stem).last() == '_'
}

/// How many of the first `n` targets look as if their names had been given numbers.
pub open spec fn numbered_before(targets: Seq<TargetView>, n: int) -> nat
    decreases n,
{
    if n <= 0 {
        0
    } else {
        numbered_before(targets, n - 1) + if looks_numbered(
            stem_of(targets[n - 1].place.name),
        ) {
            1nat
        } else {
            0
        }
    }
}

/// A text takes at least one byte for each character.
proof fn lemma_byte_len(s: Seq<char>, n: int)
    requires
        0 <= n <= s.len(),
    ensures
        byte_len(s) >= byte_len(s.take(n)) + s.len() - n,
    decreases s.len() - n,
{
    if n < s.len() {
        lemma_byte_len(s, n + 1);
        assert(s.take(n + 1).drop_last() == s.take(n));
    } else {
        assert(s.take(n) == s);
    }
}

/// Whether a text takes at least three bytes.
fn has_three_bytes(chars: &Vec<char>) -> (r: bool)
    ensures
        r == (byte_len(chars@) >= 3),
{
    let n: usize = chars.len();
    let mut total: usize = 0;
    let mut i: usize = 0;
    while i < n && i < 3
        invariant
            i <= n == chars@.len(),
            i <= 3,
            total <= 4 * i,
            total == byte_len(chars@.take(i as int)),
        decreases n - i,
    {
        let c = chars[i];
        let width: usize = if c <= '\u{7f}' {
            1
        } else if c <= '\u{7ff}' {
            2
        } else if c <= '\u{ffff}' {
            3
        } else {
            4
        };
        i = i + 1;
        assert(chars@.take(i as int).drop_last() == chars@.take(i - 1));
        total = total + width;
    }
    proof {
        lemma_byte_len(chars@, 0);
        lemma_byte_len(chars@, i as int);
        assert(chars@.take(0) == Seq::<char>::empty());
        if i == n {
            assert(chars@.take(i as int) == chars@);
        }
    }
    i == 3 || total >= 3
}

fn is_numbered(stem: &str) -> (r: bool)
    ensures
        r == looks_numbered(stem@),
{
    let chars = chars_of(stem);
    if !has_three_bytes(&chars) {
        return false;
    }
    let mut i: usize = chars.len();
    assert(chars@.take(i as int) == chars@);
    while i > 0 && '0' <= chars[i - 1] && chars[i - 1] <= '9'
        invariant
            i <= chars@.len(),
            without_number(chars@) == without_number(chars@.take(i as int)),
        decreases i,
    {
        assert(chars@.take(i as int).drop_last() == chars@.take(i - 1));
        i = i - 1;
    }
    assert(without_number(chars@.take(i as int)) == chars@.take(i as int));
    i > 0 && chars[i - 1] == '_'
}

/// Counts the targets that look as if their names had been given numbers.
pub fn count_renamed_outputs(targets: &Vec<Target>) -> (r: usize)
    ensures
        r == numbered_before(targets_of(targets@), targets@.len() as int),
{
    let ghost all = targets_of(targets@);
    let n: usize = targets.len();
    let mut count: usize = 0;
    let mut i: usize = 0;
    while i < n
        invariant
            i <= n == targets@.len(),
            all == targets_of(targets@),
            count <= i,
            count == numbered_before(all, i as int),
        decreases n - i,
    {
        assert(all[i as int] == targets@[i as int]@);
        if is_numbered(file_stem(targets[i].place.name.as_str()).as_str()) {
            count = count + 1;
        }
        i = i + 1;
    }
    count
}

} // verus!
