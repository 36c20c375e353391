use docx2md_tui::document::parse_document_xml_to_markdown;
use docx2md_tui::errors::ErrorKind;

#[test]
fn heading_paragraph_to_markdown() {
    let xml = r#"
        <w:document xmlns:w="http://schemas.openxmlformats.org/wordprocessingml/2006/main">
            <w:body>
                <w:p>
                    <w:pPr><w:pStyle w:val="Heading2"/></w:pPr>
                    <w:r><w:t>标题</w:t></w:r>
                </w:p>
            </w:body>
        </w:document>
    "#;
    let parsed = parse_document_xml_to_markdown(xml).unwrap();
    assert_eq!(parsed.markdown, "## 标题");
    assert_eq!(parsed.stats.headings, 1);
}

#[test]
fn list_paragraph_to_markdown() {
    let xml = r#"
        <w:document xmlns:w="http://schemas.openxmlformats.org/wordprocessingml/2006/main">
            <w:body>
                <w:p>
                    <w:pPr><w:numPr/></w:pPr>
                    <w:r><w:t>项1</w:t></w:r>
                </w:p>
            </w:body>
        </w:document>
    "#;
    let parsed = parse_document_xml_to_markdown(xml).unwrap();
    assert_eq!(parsed.markdown, "- 项1");
    assert_eq!(parsed.stats.list_items, 1);
}

#[test]
fn unsupported_features_detected() {
    let xml = r#"
        <w:document xmlns:w="http://schemas.openxmlformats.org/wordprocessingml/2006/main">
            <w:body>
                <w:tbl>
                    <w:tr><w:tc><w:p><w:r><w:t>A</w:t></w:r></w:p></w:tc></w:tr>
                </w:tbl>
                <w:p><w:r><w:drawing><a:blip xmlns:a="http://schemas.openxmlformats.org/drawingml/2006/main" r:embed="rId9" xmlns:r="http://schemas.openxmlformats.org/officeDocument/2006/relationships"/></w:drawing></w:r></w:p>
                <w:p><w:r><w:footnoteReference w:id="1"/></w:r></w:p>
                <m:oMath xmlns:m="http://schemas.openxmlformats.org/officeDocument/2006/math"></m:oMath>
            </w:body>
        </w:document>
    "#;
    let parsed = parse_document_xml_to_markdown(xml).unwrap();
    assert_eq!(parsed.unsupported.tables_converted, 1);
    assert_eq!(parsed.unsupported.images_unresolved, 1);
    assert_eq!(parsed.unsupported.footnotes_ignored, 1);
    assert_eq!(parsed.unsupported.equations_ignored, 1);
}

#[test]
fn table_to_markdown_basic() {
    let xml = r#"
        <w:document xmlns:w="http://schemas.openxmlformats.org/wordprocessingml/2006/main">
            <w:body>
                <w:tbl>
                    <w:tr>
                        <w:tc><w:p><w:r><w:t>H1</w:t></w:r></w:p></w:tc>
                        <w:tc><w:p><w:r><w:t>H2</w:t></w:r></w:p></w:tc>
                    </w:tr>
                    <w:tr>
                        <w:tc><w:p><w:r><w:t>A</w:t></w:r></w:p></w:tc>
                        <w:tc><w:p><w:r><w:t>B</w:t></w:r></w:p></w:tc>
                    </w:tr>
                </w:tbl>
            </w:body>
        </w:document>
    "#;
    let parsed = parse_document_xml_to_markdown(xml).unwrap();
    assert!(parsed.markdown.contains("| H1 | H2 |"));
    assert!(parsed.markdown.contains("| --- | --- |"));
    assert!(parsed.markdown.contains("| A | B |"));
    assert_eq!(parsed.unsupported.tables_converted, 1);
}

#[test]
fn complex_table_degrades() {
    let xml = r#"
        <w:document xmlns:w="http://schemas.openxmlformats.org/wordprocessingml/2006/main">
            <w:body>
                <w:tbl>
                    <w:tr>
                        <w:tc>
                            <w:tcPr><w:gridSpan w:val="2"/></w:tcPr>
                            <w:p><w:r><w:t>Merged</w:t></w:r></w:p>
                        </w:tc>
                    </w:tr>
                </w:tbl>
            </w:body>
        </w:document>
    "#;
    let parsed = parse_document_xml_to_markdown(xml).unwrap();
    assert!(parsed.markdown.contains("该表格含合并单元格"));
    assert_eq!(parsed.unsupported.tables_degraded, 1);
}

fn body(inner: &str) -> String {
    format!(
        "<w:document xmlns:w=\"http://schemas.openxmlformats.org/wordprocessingml/2006/main\">\
         <w:body>{inner}</w:body></w:document>"
    )
}

fn plain(text: &str) -> String {
    format!("<w:p><w:r><w:t>{text}</w:t></w:r></w:p>")
}

fn markdown(inner: &str) -> String {
    parse_document_xml_to_markdown(&body(inner)).unwrap().markdown
}

#[test]
fn paragraphs_are_parted_by_empty_lines() {
    let xml = format!("{}{}", plain("one"), plain("two"));
    let parsed = parse_document_xml_to_markdown(&body(&xml)).unwrap();
    assert_eq!(parsed.markdown, "one\n\ntwo");
    assert_eq!(parsed.stats.lines, 3);
    assert_eq!(parsed.stats.paragraphs, 2);
    assert_eq!(parsed.stats.headings, 0);
    assert_eq!(parsed.stats.list_items, 0);
}

#[test]
fn items_of_a_list_stand_together() {
    let item = |t: &str| {
        format!("<w:p><w:pPr><w:numPr/></w:pPr><w:r><w:t>{t}</w:t></w:r></w:p>")
    };
    let xml = format!("{}{}{}", item("a"), item("b"), plain("c"));
    assert_eq!(markdown(&xml), "- a\n- b\nc");
}

#[test]
fn headings_have_six_levels() {
    for n in 0..9 {
        let xml = format!(
            "<w:p><w:pPr><w:pStyle w:val=\"Heading{n}\"/></w:pPr><w:r><w:t>T</w:t></w:r></w:p>"
        );
        let expected = if (1..=6).contains(&n) {
            format!("{} T", "#".repeat(n))
        } else {
            "T".to_string()
        };
        assert_eq!(markdown(&xml), expected);
    }
}

#[test]
fn heading_holds_over_numbering() {
    let xml = "<w:p><w:pPr><w:pStyle w:val=\"Heading1\"/><w:numPr/></w:pPr>\
               <w:r><w:t>T</w:t></w:r></w:p>";
    let parsed = parse_document_xml_to_markdown(&body(xml)).unwrap();
    assert_eq!(parsed.markdown, "# T");
    assert_eq!(parsed.stats.headings, 1);
    assert_eq!(parsed.stats.list_items, 0);
}

#[test]
fn tabs_and_breaks_are_characters() {
    let xml = "<w:p><w:r><w:t>a</w:t><w:tab/><w:t>b</w:t><w:br/><w:t> c </w:t></w:r></w:p>";
    let parsed = parse_document_xml_to_markdown(&body(xml)).unwrap();
    assert_eq!(parsed.markdown, "a\tb\n c");
    assert_eq!(parsed.stats.lines, 2);
    assert_eq!(parsed.stats.paragraphs, 1);
}

#[test]
fn blank_paragraphs_are_empty_lines() {
    let xml = format!("{}<w:p/><w:p/>{}<w:p/>", plain("a"), plain("b"));
    assert_eq!(markdown(&xml), "a\n\n\n\nb");
}

#[test]
fn empty_body_is_empty_text() {
    let parsed = parse_document_xml_to_markdown(&body("")).unwrap();
    assert_eq!(parsed.markdown, "");
    assert_eq!(parsed.stats.lines, 0);
    assert!(parsed.assets.is_empty());
}

#[test]
fn short_rows_are_filled_up() {
    let xml = "<w:tbl>\
        <w:tr><w:tc><w:p><w:r><w:t>a</w:t></w:r></w:p></w:tc></w:tr>\
        <w:tr/>\
        <w:tr><w:tc><w:p><w:r><w:t>b</w:t></w:r></w:p><w:p/><w:p><w:r><w:t>c</w:t></w:r></w:p>\
        </w:tc><w:tc><w:p/></w:tc></w:tr></w:tbl>";
    let parsed = parse_document_xml_to_markdown(&body(xml)).unwrap();
    assert_eq!(parsed.markdown, "| a |  |\n| --- | --- |\n| b<br>c |  |");
    assert_eq!(parsed.unsupported.tables_converted, 1);
    assert_eq!(parsed.stats.paragraphs, 1);
}

#[test]
fn table_without_cells_is_nothing() {
    let parsed = parse_document_xml_to_markdown(&body("<w:tbl><w:tr/></w:tbl>")).unwrap();
    assert_eq!(parsed.markdown, "");
    assert_eq!(parsed.unsupported.tables_converted, 0);
    assert_eq!(parsed.unsupported.tables_degraded, 0);
}

#[test]
fn merged_rows_become_plain_text() {
    let xml = "<w:tbl><w:tr>\
        <w:tc><w:tcPr><w:vMerge/></w:tcPr><w:p><w:r><w:t>a</w:t></w:r></w:p></w:tc>\
        <w:tc><w:p><w:r><w:t>b</w:t></w:r></w:p></w:tc></w:tr></w:tbl>";
    let parsed = parse_document_xml_to_markdown(&body(xml)).unwrap();
    assert_eq!(
        parsed.markdown,
        "> [!NOTE] 该表格含合并单元格，已降级为纯文本块\n行1: a | b"
    );
    assert_eq!(parsed.unsupported.tables_degraded, 1);
    assert_eq!(parsed.stats.paragraphs, 0);
}

#[test]
fn span_of_one_is_no_merge() {
    for span in ["1", "0", "x", "", "99999999999999999999999"] {
        let xml = format!(
            "<w:tbl><w:tr><w:tc><w:tcPr><w:gridSpan w:val=\"{span}\"/></w:tcPr>\
             <w:p><w:r><w:t>a</w:t></w:r></w:p></w:tc></w:tr></w:tbl>"
        );
        let parsed = parse_document_xml_to_markdown(&body(&xml)).unwrap();
        assert_eq!(parsed.unsupported.tables_degraded, 0);
        assert_eq!(parsed.unsupported.tables_converted, 1);
    }
}

#[test]
fn notes_and_equations_are_counted_everywhere() {
    let xml = "<w:p><w:r><w:footnoteReference/><w:endnoteReference/></w:r></w:p>\
               <w:sdt><m:oMathPara xmlns:m=\"m\"><m:oMath/></m:oMathPara></w:sdt>";
    let parsed = parse_document_xml_to_markdown(&body(xml)).unwrap();
    assert_eq!(parsed.unsupported.footnotes_ignored, 2);
    assert_eq!(parsed.unsupported.equations_ignored, 2);
}

#[test]
fn missing_body_is_an_error() {
    let err = parse_document_xml_to_markdown("<document/>").unwrap_err();
    assert_eq!(err.kind, ErrorKind::ParseFailed);
    assert_eq!(err.message, "document.xml 缺少 body 节点");
}

#[test]
fn broken_xml_is_an_error() {
    let err = parse_document_xml_to_markdown("<a><b></a>").unwrap_err();
    assert_eq!(err.kind, ErrorKind::ParseFailed);
    let reason = roxmltree::Document::parse("<a><b></a>").unwrap_err().to_string();
    assert_eq!(err.message, format!("XML 解析失败: {reason}"));
}

#[test]
fn nested_text_belongs_to_its_paragraph() {
    let xml = "<w:p><w:ins><w:r><w:t>a</w:t></w:r></w:ins><w:r><w:t>b</w:t></w:r></w:p>\
               <w:sdt><w:p><w:r><w:t>not in the body</w:t></w:r></w:p></w:sdt>\
               <w:p><w:r><w:t>c</w:t></w:r></w:p>";
    assert_eq!(markdown(xml), "ab\n\nc");
}

#[test]
fn markdown_ends_in_no_line_feed() {
    let inner = format!("{}<w:p><w:r><w:t>b</w:t><w:br/></w:r></w:p><w:p/>", plain("a"));
    assert_eq!(markdown(&inner), "a\n\nb");
    let table = "<w:tbl><w:tr><w:tc><w:vMerge/></w:tc></w:tr></w:tbl>";
    assert!(markdown(table).ends_with("行1: "));
}
