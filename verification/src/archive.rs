//! DOCX files: archives that hold the document, its relationships and its images.

use std::io::Read;
use vstd::prelude::*;

use crate::document::{conversion, parse_document_xml_to_markdown_core};
use crate::entries::{
    as_image,
    bytes_of,
    images_from,
    listed,
    EntryReader,
    ImageFile,
    ImageView,
    ListedEntries,
    NamedEntry,
};
use crate::errors::{
    io_error,
    map_io_error,
    outcome,
    AppError,
    AppResult,
    ErrorKind,
    ErrorView,
    IoFailure,
    IoFailureKind,
    IoFailureView,
};
use crate::names::{normalize_word_target, word_target};
use crate::summary::{ParsedMarkdown, ParsedView};
use crate::text::{concat, same_text};
use crate::text_map::TextMap;
use crate::xml::{text_of, nodes_of, parse_xml, plain_value, xml_tree, NodeView, XmlNode};

verus! {

/// `std::io::Cursor`, which lets bytes in memory be read like a file.
#[verifier::external_type_specification]
#[verifier::external_body]
#[verifier::reject_recursive_types(T)]
pub struct ExCursor<T>(std::io::Cursor<T>);

/// `zip::ZipArchive`, an opened archive.
#[verifier::external_type_specification]
#[verifier::external_body]
#[verifier::reject_recursive_types(R)]
pub struct ExZipArchive<R>(zip::ZipArchive<R>);

/// The bytes that an archive was opened on.
pub uninterp spec fn archive_source(
    archive: zip::ZipArchive<std::io::Cursor<Vec<u8>>>,
) -> Seq<u8>;

/// The text of the error with which `zip::ZipArchive::new` refuses the bytes, where it does.
pub uninterp spec fn zip_refusal(source: Seq<u8>) -> Option<Seq<char>>;

/// Why an entry of an archive has no text.
#[derive(Debug)]
pub enum EntryError {
    /// The archive cannot give out an entry of the name.
    Missing,
    /// The entry breaks off, is damaged, or is no text.
    Unreadable(IoFailure),
}

/// Why an entry of an archive has no text.
pub enum EntryErrorView {
    Missing,
    Unreadable(IoFailureView),
}

/// What a read of an entry as text gave.
pub open spec fn entry_of(r: Result<String, EntryError>) -> Result<Seq<char>, EntryErrorView> {
    match r {
        Ok(text) => Ok(text@),
        Err(EntryError::Missing) => Err(EntryErrorView::Missing),
        Err(EntryError::Unreadable(e)) => Err(EntryErrorView::Unreadable(e@)),
    }
}

/// What `read_to_string` gives of the entry that `zip::ZipArchive::by_name` finds in an archive
/// opened on the bytes.
pub uninterp spec fn zip_text(
    source: Seq<u8>,
    name: Seq<char>,
) -> Result<Seq<char>, EntryErrorView>;

/// What `read_to_end` gives of the entry that `zip::ZipArchive::by_name` finds in an archive
/// opened on the bytes; nothing where either fails.
pub uninterp spec fn zip_bytes(source: Seq<u8>, name: Seq<char>) -> Option<Seq<u8>>;

/// `zip::ZipArchive::new`: whether it takes the bytes, and the text of its error if not, is a
/// function of the bytes.
#[verifier::external_body]
fn open_archive(source: Vec<u8>) -> (r: Result<
    zip::ZipArchive<std::io::Cursor<Vec<u8>>>,
    String,
>)
    ensures
        r matches Ok(archive) ==> zip_refusal(source@) is None && archive_source(archive)
            == source@,
        r matches Err(e) ==> zip_refusal(source@) == Some(e@),
{
    zip::ZipArchive::new(std::io::Cursor::new(source)).map_err(|e| e.to_string())
}

/// `zip::ZipArchive::by_name`, and `read_to_string` on what it finds: what comes out is a function
/// of the bytes of the archive and of the name, and the archive stays open on the same bytes.
#[verifier::external_body]
fn read_zip_entry_text(
    archive: &mut zip::ZipArchive<std::io::Cursor<Vec<u8>>>,
    entry_name: &str,
) -> (r: Result<String, EntryError>)
    ensures
        entry_of(r) == zip_text(archive_source(*old(archive)), entry_name@),
        archive_source(*final(archive)) == archive_source(*old(archive)),
{
    let mut file = archive.by_name(entry_name).map_err(|_| EntryError::Missing)?;
    let mut text = String::new();
    match file.read_to_string(&mut text) {
        Ok(_) => Ok(text),
        Err(e) => Err(EntryError::Unreadable(IoFailure {
            kind: match e.kind() {
                std::io::ErrorKind::NotFound => IoFailureKind::NotFound,
                std::io::ErrorKind::PermissionDenied => IoFailureKind::PermissionDenied,
                _ => IoFailureKind::Other,
            },
            message: e.to_string(),
        })),
    }
}

/// `zip::ZipArchive::by_name`, and `read_to_end` on what it finds: what comes out is a function of
/// the bytes of the archive and of the name, and the archive stays open on the same bytes.
#[verifier::external_body]
fn read_zip_entry_bytes(
    archive: &mut zip::ZipArchive<std::io::Cursor<Vec<u8>>>,
    entry_name: &str,
) -> (r: Option<Vec<u8>>)
    ensures
        bytes_of(r) == zip_bytes(archive_source(*old(archive)), entry_name@),
        archive_source(*final(archive)) == archive_source(*old(archive)),
{
    let mut file = archive.by_name(entry_name).ok()?;
    let mut bytes = Vec::new();
    file.read_to_end(&mut bytes).ok()?;
    Some(bytes)
}

/// The bytes that each name leads to in an archive opened on the bytes.
pub open spec fn zip_entries(source: Seq<u8>) -> spec_fn(Seq<char>) -> Option<Seq<u8>> {
    |name: Seq<char>| zip_bytes(source, name)
}

/// An opened DOCX file.
pub struct DocxArchive {
    archive: zip::ZipArchive<std::io::Cursor<Vec<u8>>>,
    drives: bool,
}

impl DocxArchive {
    /// The bytes that the archive was opened on.
    pub closed spec fn source(&self) -> Seq<u8> {
        archive_source(self.archive)
    }

    /// Whether paths can begin with a drive.
    pub closed spec fn has_drives(&self) -> bool {
        self.drives
    }

    /// Opens the archive that bytes are, or says why they are none.
    pub fn open(source: Vec<u8>, drives: bool) -> (r: Result<DocxArchive, String>)
        ensures
            r matches Ok(docx) ==> zip_refusal(source@) is None && docx.source() == source@
                && docx.has_drives() == drives,
            r matches Err(e) ==> zip_refusal(source@) == Some(e@),
    {
        match open_archive(source) {
            Ok(archive) => Ok(DocxArchive { archive, drives }),
            Err(e) => Err(e),
        }
    }

    /// The text of an entry.
    pub fn read_text(&mut self, name: &str) -> (r: Result<String, EntryError>)
        ensures
            entry_of(r) == zip_text(old(self).source(), name@),
            final(self).source() == old(self).source(),
            final(self).has_drives() == old(self).has_drives(),
    {
        read_zip_entry_text(&mut self.archive, name)
    }
}

impl EntryReader for DocxArchive {
    open spec fn entries(&self) -> spec_fn(Seq<char>) -> Option<ImageView> {
        images_from(zip_entries(self.source()), self.has_drives())
    }

    fn read_entry(&mut self, name: &str) -> (r: Option<ImageFile>) {
        let bytes = read_zip_entry_bytes(&mut self.archive, name);
        as_image(name, bytes, self.drives)
    }
}

/// The entry that holds the document.
pub open spec fn doc_xml_path() -> Seq<char> {
    "word/document.xml"@
}

/// The entry that holds the relationships of the document.
pub open spec fn doc_rels_path() -> Seq<char> {
    "word/_rels/document.xml.rels"@
}

/// The type of the relationships that lead to images.
pub open spec fn image_rel_type() -> Seq<char> {
    "http://schemas.openxmlformats.org/officeDocument/2006/relationships/image"@
}

/// The identifier of a relationship.
pub open spec fn rel_id(n: NodeView) -> Option<Seq<char>> {
    match plain_value(n.attributes, "Id"@) {
        Some(id) => Some(id),
        None => plain_value(n.attributes, "r:Id"@),
    }
}

/// Whether a node is a relationship that leads to an image: with an identifier, the type of
/// images, and a target.
pub open spec fn is_image_rel(n: NodeView) -> bool {
    &&& n.name == "Relationship"@
    &&& rel_id(n) is Some
    &&& plain_value(n.attributes, "Type"@) == Some(image_rel_type())
    &&& plain_value(n.attributes, "Target"@) is Some
}

/// The images among the relationships in the first `to` nodes: each identifier with the entry
/// that it leads to. Of two with one identifier the later holds.
pub open spec fn image_rels(ns: Seq<NodeView>, to: int) -> Map<Seq<char>, Seq<char>>
    decreases to,
{
    if to <= 0 {
        Map::empty()
    } else if is_image_rel(ns[to - 1]) {
        image_rels(ns, to - 1).insert(
            rel_id(ns[to - 1]).unwrap(),
            word_target(plain_value(ns[to - 1].attributes, "Target"@).unwrap()),
        )
    } else {
        image_rels(ns, to - 1)
    }
}

/// The images among the relationships of a document.
pub fn image_relationships(nodes: &Vec<XmlNode>) -> (r: TextMap)
    ensures
        r@ == image_rels(nodes_of(nodes@), nodes@.len() as int),
{
    let ghost ns = nodes_of(nodes@);
    let mut map = TextMap::new();
    let mut i: usize = 0;
    while i < nodes.len()
        invariant
            i <= nodes@.len(),
            ns == nodes_of(nodes@),
            map@ == image_rels(ns, i as int),
        decreases nodes.len() - i,
    {
        let node = &nodes[i];
        assert(ns[i as int] == node@);
        if same_text(node.name.as_str(), "Relationship") {
            let id = match node.attribute("Id") {
                Some(id) => Some(id),
                None => node.attribute("r:Id"),
            };
            match (id, node.attribute("Type"), node.attribute("Target")) {
                (Some(id), Some(typ), Some(target)) => {
                    if same_text(
                        typ.as_str(),
                        "http://schemas.openxmlformats.org/officeDocument/2006/relationships/image",
                    ) {
                        map.insert(id, normalize_word_target(target.as_str()));
                    }
                },
                _ => {},
            }
        }
        i = i + 1;
    }
    map
}

/// The images that the text of relationships leads to. One that is missing or broken leads to
/// none.
pub open spec fn rels_in(xml: Option<Seq<char>>) -> Map<Seq<char>, Seq<char>> {
    match xml {
        Some(xml) => match xml_tree(xml) {
            Ok(ns) => image_rels(ns, ns.len() as int),
            Err(_) => Map::empty(),
        },
        None => Map::empty(),
    }
}

/// The text of an entry, where it can be read.
pub open spec fn readable(entry: Result<Seq<char>, EntryErrorView>) -> Option<Seq<char>> {
    match entry {
        Ok(text) => Some(text),
        Err(_) => None,
    }
}

/// The images that the relationships of an archive lead to.
pub open spec fn archive_rels(source: Seq<u8>) -> Map<Seq<char>, Seq<char>> {
    rels_in(readable(zip_text(source, doc_rels_path())))
}

/// The images that the text of relationships leads to.
pub fn relationships_in(xml: &str) -> (r: TextMap)
    ensures
        r@ == rels_in(Some(xml@)),
{
    match parse_xml(xml) {
        Ok(nodes) => image_relationships(&nodes),
        Err(_) => TextMap::new(),
    }
}

/// The images that the relationships of an archive lead to.
pub fn load_image_relationships(docx: &mut DocxArchive) -> (r: TextMap)
    ensures
        r@ == archive_rels(old(docx).source()),
        final(docx).source() == old(docx).source(),
        final(docx).has_drives() == old(docx).has_drives(),
{
    match docx.read_text("word/_rels/document.xml.rels") {
        Ok(xml) => relationships_in(xml.as_str()),
        Err(_) => TextMap::new(),
    }
}

/// Converts the text of `document.xml`, with its relationships and the images of its archive.
pub fn parse_document_xml_to_markdown_with_archive(
    xml: &str,
    docx: &mut DocxArchive,
    rel_map: &TextMap,
) -> (r: AppResult<ParsedMarkdown>)
    ensures
        outcome(r) == conversion(xml@, rel_map@, old(docx).entries()),
{
    parse_document_xml_to_markdown_core(xml, rel_map, docx)
}

/// The parts of an archive on a file that cannot be read throughout: what came of reading each.
#[derive(Debug)]
pub struct DocxParts {
    /// The text of the document.
    pub document: Result<String, EntryError>,
    /// The text of its relationships, where it can be read.
    pub relationships: Option<String>,
    /// The entries that can be read.
    pub entries: Vec<NamedEntry>,
}

/// The parts of an archive.
pub struct PartsView {
    pub document: Result<Seq<char>, EntryErrorView>,
    pub relationships: Option<Seq<char>>,
    pub entries: spec_fn(Seq<char>) -> Option<Seq<u8>>,
}

impl View for DocxParts {
    type V = PartsView;

    open spec fn view(&self) -> PartsView {
        PartsView {
            document: entry_of(self.document),
            relationships: text_of(self.relationships),
            entries: listed(self.entries@),
        }
    }
}

/// What came of opening and reading a file.
#[derive(Debug)]
pub enum DocxSource {
    /// Nothing is at the path.
    Missing,
    /// The file cannot be opened.
    Unopened(IoFailure),
    /// What the file holds.
    Bytes(Vec<u8>),
    /// Reading all of the file failed: the parts of the archive on it, or why there is none.
    Torn(Result<DocxParts, String>),
}

/// What came of opening and reading a file.
pub enum SourceView {
    Missing,
    Unopened(IoFailureView),
    Bytes(Seq<u8>),
    Torn(Result<PartsView, Seq<char>>),
}

impl View for DocxSource {
    type V = SourceView;

    open spec fn view(&self) -> SourceView {
        match self {
            DocxSource::Missing => SourceView::Missing,
            DocxSource::Unopened(e) => SourceView::Unopened(e@),
            DocxSource::Bytes(bytes) => SourceView::Bytes(bytes@),
            DocxSource::Torn(Ok(parts)) => SourceView::Torn(Ok(parts@)),
            DocxSource::Torn(Err(reason)) => SourceView::Torn(Err(reason@)),
        }
    }
}

/// The error for a file that is no archive.
pub open spec fn no_archive(path: Seq<char>, reason: Seq<char>) -> ErrorView {
    ErrorView {
        kind: ErrorKind::InvalidDocx,
        message: "无效 DOCX（无法读取 zip 结构）: "@ + path + " ("@ + reason + ")"@,
    }
}

/// The text of the document, or the error for an archive without one that can be read.
pub open spec fn document_text(
    path: Seq<char>,
    document: Result<Seq<char>, EntryErrorView>,
) -> Result<Seq<char>, ErrorView> {
    match document {
        Ok(xml) => Ok(xml),
        Err(EntryErrorView::Missing) => Err(
            ErrorView {
                kind: ErrorKind::InvalidDocx,
                message: "无效 DOCX（缺少 word/document.xml）: "@ + path,
            },
        ),
        Err(EntryErrorView::Unreadable(e)) => Err(io_error(e, "读取 document.xml 失败: "@ + path)),
    }
}

/// A conversion, with its error told for the file.
pub open spec fn told_for(path: Seq<char>, result: Result<ParsedView, ErrorView>) -> Result<
    ParsedView,
    ErrorView,
> {
    match result {
        Ok(parsed) => Ok(parsed),
        Err(e) => Err(
            ErrorView {
                kind: ErrorKind::ParseFailed,
                message: "解析失败: "@ + path + " ("@ + e.message + ")"@,
            },
        ),
    }
}

/// The conversion of the parts of an archive.
pub open spec fn extracted_parts(path: Seq<char>, parts: PartsView, drives: bool) -> Result<
    ParsedView,
    ErrorView,
> {
    match document_text(path, parts.document) {
        Ok(xml) => told_for(
            path,
            conversion(xml, rels_in(parts.relationships), images_from(parts.entries, drives)),
        ),
        Err(e) => Err(e),
    }
}

/// The parts that an archive opened on the bytes gives.
pub open spec fn zip_parts(source: Seq<u8>) -> PartsView {
    PartsView {
        document: zip_text(source, doc_xml_path()),
        relationships: readable(zip_text(source, doc_rels_path())),
        entries: zip_entries(source),
    }
}

/// The conversion of a file, where paths can begin with a drive or not.
pub open spec fn extracted(path: Seq<char>, source: SourceView, drives: bool) -> Result<
    ParsedView,
    ErrorView,
> {
    match source {
        SourceView::Missing => Err(
            ErrorView { kind: ErrorKind::FileNotFound, message: "文件不存在: "@ + path },
        ),
        SourceView::Unopened(e) => Err(io_error(e, "无法打开文件: "@ + path)),
        SourceView::Bytes(bytes) => match zip_refusal(bytes) {
            Some(reason) => Err(no_archive(path, reason)),
            None => extracted_parts(path, zip_parts(bytes), drives),
        },
        SourceView::Torn(Err(reason)) => Err(no_archive(path, reason)),
        SourceView::Torn(Ok(parts)) => extracted_parts(path, parts, drives),
    }
}

fn with_reason(words: &str, path: &str, reason: &str) -> (r: String)
    ensures
        r@ == words@ + path@ + " ("@ + reason@ + ")"@,
{
    let mut r = concat(words, path);
    r.append(" (");
    r.append(reason);
    r.append(")");
    r
}

fn refused(path: &str, reason: &str) -> (r: AppError)
    ensures
        r@ == no_archive(path@, reason@),
{
    AppError::new(
        ErrorKind::InvalidDocx,
        with_reason("无效 DOCX（无法读取 zip 结构）: ", path, reason),
    )
}

/// What the text of a document, or the error in its place, holds.
pub open spec fn document_outcome(r: AppResult<String>) -> Result<Seq<char>, ErrorView> {
    match r {
        Ok(xml) => Ok(xml@),
        Err(e) => Err(e@),
    }
}

fn take_document(path: &str, document: Result<String, EntryError>) -> (r: AppResult<String>)
    ensures
        document_outcome(r) == document_text(path@, entry_of(document)),
{
    match document {
        Ok(xml) => Ok(xml),
        Err(EntryError::Missing) => Err(
            AppError::new(
                ErrorKind::InvalidDocx,
                concat("无效 DOCX（缺少 word/document.xml）: ", path),
            ),
        ),
        Err(EntryError::Unreadable(e)) => Err(
            map_io_error(&e, concat("读取 document.xml 失败: ", path).as_str()),
        ),
    }
}

fn tell_for(path: &str, result: AppResult<ParsedMarkdown>) -> (r: AppResult<ParsedMarkdown>)
    ensures
        outcome(r) == told_for(path@, outcome(result)),
{
    match result {
        Ok(parsed) => Ok(parsed),
        Err(e) => Err(
            AppError::new(
                ErrorKind::ParseFailed,
                with_reason("解析失败: ", path, e.message.as_str()),
            ),
        ),
    }
}

/// Converts the parts of an archive. The path is for messages.
pub fn extract_markdown_from_parts(path: &str, parts: DocxParts, drives: bool) -> (r: AppResult<
    ParsedMarkdown,
>)
    ensures
        outcome(r) == extracted_parts(path@, parts@, drives),
{
    let mut entries = ListedEntries { list: parts.entries, drives };
    let xml = match take_document(path, parts.document) {
        Ok(xml) => xml,
        Err(e) => return Err(e),
    };
    let rel_map = match parts.relationships {
        Some(rels) => relationships_in(rels.as_str()),
        None => TextMap::new(),
    };
    tell_for(path, parse_document_xml_to_markdown_core(xml.as_str(), &rel_map, &mut entries))
}

/// Converts a DOCX file, from what came of opening and reading it. The path is for messages; what
/// `drives` says, whether paths can begin with a drive, is for the names of images.
pub fn extract_markdown_from_docx(path: &str, source: DocxSource, drives: bool) -> (r: AppResult<
    ParsedMarkdown,
>)
    ensures
        outcome(r) == extracted(path@, source@, drives),
{
    let bytes = match source {
        DocxSource::Missing => {
            return Err(AppError::new(ErrorKind::FileNotFound, concat("文件不存在: ", path)));
        },
        DocxSource::Unopened(e) => {
            return Err(map_io_error(&e, concat("无法打开文件: ", path).as_str()));
        },
        DocxSource::Torn(Err(reason)) => return Err(refused(path, reason.as_str())),
        DocxSource::Torn(Ok(parts)) => return extract_markdown_from_parts(path, parts, drives),
        DocxSource::Bytes(bytes) => bytes,
    };
    let mut docx = match DocxArchive::open(bytes, drives) {
        Ok(docx) => docx,
        Err(reason) => return Err(refused(path, reason.as_str())),
    };
    let document = docx.read_text("word/document.xml");
    let xml = match take_document(path, document) {
        Ok(xml) => xml,
        Err(e) => return Err(e),
    };
    let rel_map = load_image_relationships(&mut docx);
    tell_for(
        path,
        parse_document_xml_to_markdown_with_archive(xml.as_str(), &mut docx, &rel_map),
    )
}

} // verus!
