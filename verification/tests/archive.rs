use std::io::{Cursor, Write};

use docx2md_tui::archive::{
    extract_markdown_from_docx, DocxParts, DocxSource, EntryError,
};
use docx2md_tui::entries::NamedEntry;
use docx2md_tui::errors::{ErrorKind, IoFailure, IoFailureKind};

const RELS: &str = "<Relationships>\
    <Relationship Id=\"rId1\" Type=\"http://schemas.openxmlformats.org/officeDocument/2006/relationships/image\" Target=\"media\\one.PNG\"/>\
    <Relationship Id=\"rId2\" Type=\"http://schemas.openxmlformats.org/officeDocument/2006/relationships/image\" Target=\"/word/media/two\"/>\
    <Relationship Id=\"rId3\" Type=\"http://schemas.openxmlformats.org/officeDocument/2006/relationships/image\" Target=\"media/gone.gif\"/>\
    <Relationship Id=\"rId4\" Type=\"other\" Target=\"media/one.PNG\"/>\
    </Relationships>";

fn archive(entries: &[(&str, &[u8])]) -> Vec<u8> {
    let mut writer = zip::ZipWriter::new(Cursor::new(Vec::new()));
    for (name, bytes) in entries {
        writer
            .start_file(*name, zip::write::SimpleFileOptions::default())
            .unwrap();
        writer.write_all(bytes).unwrap();
    }
    writer.finish().unwrap().into_inner()
}

fn document(inner: &str) -> String {
    format!("<w:document xmlns:w=\"w\" xmlns:r=\"r\"><w:body>{inner}</w:body></w:document>")
}

fn blip(id: &str) -> String {
    format!("<w:p><w:r><w:blip r:embed=\"{id}\"/></w:r></w:p>")
}

#[test]
fn document_is_taken_out_of_the_archive() {
    let xml = document("<w:p><w:r><w:t>hello</w:t></w:r></w:p>");
    let bytes = archive(&[("word/document.xml", xml.as_bytes())]);
    let parsed = extract_markdown_from_docx("a.docx", DocxSource::Bytes(bytes), false).unwrap();
    assert_eq!(parsed.markdown, "hello");
    assert_eq!(parsed.stats.paragraphs, 1);
}

#[test]
fn images_are_taken_out_of_the_archive() {
    let inner = format!(
        "<w:p><w:r><w:t>text</w:t><w:blip r:embed=\"rId1\"/></w:r></w:p>{}{}{}<w:p><w:blip/></w:p>",
        blip("rId3"),
        blip("rId2"),
        blip("rId4"),
    );
    let xml = document(&inner);
    let bytes = archive(&[
        ("word/document.xml", xml.as_bytes()),
        ("word/_rels/document.xml.rels", RELS.as_bytes()),
        ("word/media/one.PNG", &[1, 2, 3]),
        ("word/media/two", &[4]),
    ]);
    let parsed = extract_markdown_from_docx("a.docx", DocxSource::Bytes(bytes), false).unwrap();
    assert_eq!(
        parsed.markdown,
        "text\n\n![image_001.PNG](assets/image_001.PNG)\n\n\n\
         ![image_002.bin](assets/image_002.bin)"
    );
    assert_eq!(parsed.unsupported.images_exported, 2);
    assert_eq!(parsed.unsupported.images_unresolved, 3);
    assert_eq!(parsed.assets.len(), 2);
    assert_eq!(parsed.assets[0].relative_path, "assets/image_001.PNG");
    assert_eq!(parsed.assets[0].bytes, vec![1, 2, 3]);
    assert_eq!(parsed.assets[1].relative_path, "assets/image_002.bin");
    assert_eq!(parsed.assets[1].bytes, vec![4]);
}

#[test]
fn drives_do_not_name_images() {
    let rels = RELS.replace("/word/media/two", "/c:.png");
    let xml = document(&blip("rId2"));
    for (drives, name) in [(true, "image_001.bin"), (false, "image_001.png")] {
        let bytes = archive(&[
            ("word/document.xml", xml.as_bytes()),
            ("word/_rels/document.xml.rels", rels.as_bytes()),
            ("c:.png", &[6]),
        ]);
        let source = DocxSource::Bytes(bytes);
        let parsed = extract_markdown_from_docx("a.docx", source, drives).unwrap();
        assert_eq!(parsed.assets[0].relative_path, format!("assets/{name}"));
        assert_eq!(parsed.assets[0].bytes, vec![6]);
        let source = torn(Ok(&xml), Some(&rels), &[("c:.png", &[7])]);
        let parsed = extract_markdown_from_docx("a.docx", source, drives).unwrap();
        assert_eq!(parsed.assets[0].relative_path, format!("assets/{name}"));
    }
}

#[test]
fn broken_relationships_lead_nowhere() {
    let xml = document(&blip("rId1"));
    for rels in [&b"<Relationships>"[..], &[0xff, 0xfe][..]] {
        let bytes = archive(&[
            ("word/document.xml", xml.as_bytes()),
            ("word/_rels/document.xml.rels", rels),
            ("word/media/one.PNG", &[1]),
        ]);
        let parsed = extract_markdown_from_docx("a.docx", DocxSource::Bytes(bytes), false).unwrap();
        assert_eq!(parsed.unsupported.images_unresolved, 1);
        assert!(parsed.assets.is_empty());
    }
}

#[test]
fn missing_file_is_not_found() {
    let err = extract_markdown_from_docx("a.docx", DocxSource::Missing, false).unwrap_err();
    assert_eq!(err.kind, ErrorKind::FileNotFound);
    assert_eq!(err.message, "文件不存在: a.docx");
}

#[test]
fn unopened_file_tells_why() {
    let failure = IoFailure {
        kind: IoFailureKind::PermissionDenied,
        message: "denied".to_string(),
    };
    let err = extract_markdown_from_docx("a.docx", DocxSource::Unopened(failure), false).unwrap_err();
    assert_eq!(err.kind, ErrorKind::PermissionDenied);
    assert_eq!(err.message, "无法打开文件: a.docx: denied");
}

fn torn(document: Result<&str, EntryError>, rels: Option<&str>, entries: &[(&str, &[u8])]) -> DocxSource {
    DocxSource::Torn(Ok(DocxParts {
        document: document.map(|d| d.to_string()),
        relationships: rels.map(|r| r.to_string()),
        entries: entries
            .iter()
            .map(|(name, bytes)| NamedEntry {
                name: name.to_string(),
                bytes: bytes.to_vec(),
            })
            .collect(),
    }))
}

#[test]
fn torn_image_leaves_the_document() {
    let xml = document(&format!(
        "<w:p><w:r><w:t>text</w:t></w:r></w:p>{}{}",
        blip("rId1"),
        blip("rId2")
    ));
    let source = torn(
        Ok(&xml),
        Some(RELS),
        &[("word/media/two", &[4]), ("word/media/two", &[5])],
    );
    let parsed = extract_markdown_from_docx("a.docx", source, false).unwrap();
    assert_eq!(parsed.markdown, "text\n\n\n![image_001.bin](assets/image_001.bin)");
    assert_eq!(parsed.unsupported.images_exported, 1);
    assert_eq!(parsed.unsupported.images_unresolved, 1);
    assert_eq!(parsed.assets[0].bytes, vec![4]);
}

#[test]
fn torn_relationships_lead_nowhere() {
    let xml = document(&blip("rId2"));
    let source = torn(Ok(&xml), None, &[("word/media/two", &[4])]);
    let parsed = extract_markdown_from_docx("a.docx", source, false).unwrap();
    assert_eq!(parsed.unsupported.images_unresolved, 1);
    assert!(parsed.assets.is_empty());
}

#[test]
fn torn_document_tells_why() {
    let failure = IoFailure {
        kind: IoFailureKind::Other,
        message: "torn".to_string(),
    };
    let source = torn(Err(EntryError::Unreadable(failure)), Some(RELS), &[]);
    let err = extract_markdown_from_docx("a.docx", source, false).unwrap_err();
    assert_eq!(err.kind, ErrorKind::IoFailure);
    assert_eq!(err.message, "读取 document.xml 失败: a.docx: torn");
    let source = torn(Err(EntryError::Missing), Some(RELS), &[]);
    let err = extract_markdown_from_docx("a.docx", source, false).unwrap_err();
    assert_eq!(err.kind, ErrorKind::InvalidDocx);
    assert_eq!(err.message, "无效 DOCX（缺少 word/document.xml）: a.docx");
    let err = extract_markdown_from_docx("a.docx", torn(Ok("<a/>"), None, &[]), false).unwrap_err();
    assert_eq!(err.message, "解析失败: a.docx (document.xml 缺少 body 节点)");
}

#[test]
fn torn_archive_is_no_docx() {
    let source = DocxSource::Torn(Err("i/o error".to_string()));
    let err = extract_markdown_from_docx("a.docx", source, false).unwrap_err();
    assert_eq!(err.kind, ErrorKind::InvalidDocx);
    assert_eq!(
        err.message,
        "无效 DOCX（无法读取 zip 结构）: a.docx (i/o error)"
    );
}

#[test]
fn bytes_that_are_no_archive_are_no_docx() {
    let bytes = b"no archive".to_vec();
    let reason = zip::ZipArchive::new(Cursor::new(bytes.clone())).unwrap_err().to_string();
    let err = extract_markdown_from_docx("a.docx", DocxSource::Bytes(bytes), false).unwrap_err();
    assert_eq!(err.kind, ErrorKind::InvalidDocx);
    assert_eq!(
        err.message,
        format!("无效 DOCX（无法读取 zip 结构）: a.docx ({reason})")
    );
}

#[test]
fn archive_without_document_is_no_docx() {
    let bytes = archive(&[("word/other.xml", b"<a/>")]);
    let err = extract_markdown_from_docx("a.docx", DocxSource::Bytes(bytes), false).unwrap_err();
    assert_eq!(err.kind, ErrorKind::InvalidDocx);
    assert_eq!(err.message, "无效 DOCX（缺少 word/document.xml）: a.docx");
}

#[test]
fn document_that_is_no_text_is_unreadable() {
    let bytes = archive(&[("word/document.xml", &[0xff, 0xfe, 0x00])]);
    let err = extract_markdown_from_docx("a.docx", DocxSource::Bytes(bytes), false).unwrap_err();
    assert_eq!(err.kind, ErrorKind::IoFailure);
    assert!(err.message.starts_with("读取 document.xml 失败: a.docx: "));
}

#[test]
fn document_without_body_fails() {
    let bytes = archive(&[("word/document.xml", b"<a/>")]);
    let err = extract_markdown_from_docx("a.docx", DocxSource::Bytes(bytes), false).unwrap_err();
    assert_eq!(err.kind, ErrorKind::ParseFailed);
    assert_eq!(err.message, "解析失败: a.docx (document.xml 缺少 body 节点)");
}
