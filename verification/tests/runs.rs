use std::io::{Cursor, Write};

use docx2md_tui::archive::DocxSource;
use docx2md_tui::errors::{AppError, ErrorKind, IoFailure, IoFailureKind};
use docx2md_tui::plan::PlannedFile;
use docx2md_tui::preview::{generate_preview, PreparedOutput, PreviewRun};
use docx2md_tui::summary::{AssetFile, ParseStats, ParsedMarkdown, UnsupportedSummary};
use docx2md_tui::writing::{write_outputs, AssetSite, ItemSite, WriteOp, WriteRun};

fn file(n: usize) -> PlannedFile {
    PlannedFile {
        doc: n,
        src: format!("in{n}.docx"),
        output: format!("out{n}.md"),
    }
}

fn docx(inner: &str) -> DocxSource {
    let mut writer = zip::ZipWriter::new(Cursor::new(Vec::new()));
    writer
        .start_file("word/document.xml", zip::write::SimpleFileOptions::default())
        .unwrap();
    let xml = format!("<document><body>{inner}</body></document>");
    writer.write_all(xml.as_bytes()).unwrap();
    DocxSource::Bytes(writer.finish().unwrap().into_inner())
}

#[test]
fn plan_without_files_has_no_preview() {
    let err = PreviewRun::start(Vec::new()).unwrap_err();
    assert_eq!(err.kind, ErrorKind::InvalidInput);
    assert_eq!(err.message, "没有可处理的 DOCX 文件");
}

#[test]
fn preview_takes_documents_in_turn() {
    let mut run = PreviewRun::start(vec![file(0), file(1), file(2), file(3)]).unwrap();
    assert_eq!(run.announce().current, "分析中 (1/4) in0.docx");
    assert_eq!(run.announce().done, 0);

    let progress = generate_preview(&mut run, docx(""), false).unwrap();
    assert_eq!((progress.done, progress.total), (1, 4));
    assert_eq!(progress.current, "已完成 1/4");
    assert!(run.outcome.sample_lines.is_empty());

    let inner = "<p><t>1</t></p>".repeat(6)
        + "<p><footnoteReference/><blip/></p><tbl><tr><tc><vMerge/></tc></tr></tbl>";
    generate_preview(&mut run, docx(&inner), false).unwrap();
    assert_eq!(run.announce().current, "分析中 (3/4) in2.docx");
    generate_preview(&mut run, DocxSource::Missing, false).unwrap();
    let progress = generate_preview(&mut run, docx("<p><t>x</t></p>"), false).unwrap();
    assert_eq!(progress.current, "已完成 4/4");

    let outcome = run.outcome;
    assert_eq!(run.done, 4);
    assert_eq!(outcome.total_inputs, 4);
    assert_eq!(outcome.prepared.len(), 3);
    assert_eq!(outcome.prepared[1].doc, 1);
    assert_eq!(outcome.prepared[2].doc, 3);
    assert_eq!(outcome.prepared[1].src, "in1.docx");
    assert_eq!(outcome.prepared[1].output, "out1.md");
    assert_eq!(outcome.prepared[2].markdown, "x");
    assert_eq!(outcome.failures.len(), 1);
    assert_eq!(outcome.failures[0].src, "in2.docx");
    assert_eq!(outcome.failures[0].error.kind, ErrorKind::FileNotFound);
    assert_eq!(outcome.totals.paragraphs, 7);
    assert_eq!(outcome.unsupported.footnotes_ignored, 1);
    assert_eq!(outcome.sample_lines, vec!["1", "", "1", "", "1", "", "1", ""]);
    assert_eq!(outcome.degraded_files, vec!["in1.docx (复杂表格降级 1 个)"]);
    assert_eq!(
        outcome.ignored_files,
        vec!["in1.docx (图片未解析 1 / 脚注忽略 1 / 公式忽略 0)"]
    );
    assert!(outcome.image_files.is_empty());
}

#[test]
fn exported_images_are_listed() {
    let mut run = PreviewRun::start(vec![file(0)]).unwrap();
    let parsed = ParsedMarkdown {
        markdown: "m".to_string(),
        stats: ParseStats::default(),
        unsupported: UnsupportedSummary {
            images_exported: 12,
            ..UnsupportedSummary::default()
        },
        assets: Vec::new(),
    };
    run.outcome.take(&file(0), Ok(parsed));
    assert_eq!(run.outcome.image_files, vec!["in0.docx (提取图片 12 个)"]);
    assert!(run.outcome.ignored_files.is_empty());
}

#[test]
fn counts_that_do_not_fit_are_not_taken() {
    let mut run = PreviewRun::start(vec![file(0), file(1)]).unwrap();
    let huge = ParsedMarkdown {
        markdown: String::new(),
        stats: ParseStats {
            lines: usize::MAX,
            ..ParseStats::default()
        },
        unsupported: UnsupportedSummary::default(),
        assets: Vec::new(),
    };
    run.outcome.take(&file(0), Ok(huge));
    run.done = 1;
    assert!(generate_preview(&mut run, docx("<p><t>x</t></p>"), false).is_none());
    assert_eq!(run.done, 1);
    assert_eq!(run.outcome.prepared.len(), 1);
    let failed: Result<ParsedMarkdown, AppError> =
        Err(AppError::new(ErrorKind::IoFailure, String::new()));
    assert!(run.outcome.can_take(&failed));
    generate_preview(&mut run, DocxSource::Missing, false).unwrap();
    assert_eq!(run.outcome.prepared.len() + run.outcome.failures.len(), run.done);
}

fn prepared(n: usize, assets: usize) -> PreparedOutput {
    PreparedOutput {
        doc: n,
        src: format!("in{n}.docx"),
        output: format!("d/out{n}.md"),
        markdown: "text".to_string(),
        assets: (0..assets)
            .map(|i| AssetFile {
                relative_path: format!("assets/{i}"),
                bytes: vec![i as u8],
            })
            .collect(),
    }
}

fn site(exists: bool, assets: usize) -> ItemSite {
    ItemSite {
        exists,
        parent: Some("d".to_string()),
        assets: (0..assets)
            .map(|i| AssetSite {
                path: format!("d/assets/{i}"),
                parent: Some("d/assets".to_string()),
            })
            .collect(),
    }
}

fn shown(op: &WriteOp) -> String {
    match op {
        WriteOp::MakeDir(p) => format!("dir {p}"),
        WriteOp::MakeAssetDir(p) => format!("asset dir {p}"),
        WriteOp::WriteAsset(i, p) => format!("asset {i} {p}"),
        WriteOp::WriteText(p) => format!("text {p}"),
    }
}

fn failure() -> IoFailure {
    IoFailure {
        kind: IoFailureKind::PermissionDenied,
        message: "why".to_string(),
    }
}

#[test]
fn nothing_prepared_is_nothing_written() {
    let err = WriteRun::start(Vec::new(), true).unwrap_err();
    assert_eq!(err.kind, ErrorKind::InvalidInput);
    assert_eq!(err.message, "没有可写入的文件，请先检查预览失败项");
}

#[test]
fn text_follows_its_assets() {
    let run = WriteRun::start(vec![prepared(0, 2)], false).unwrap();
    let ops: Vec<String> = run.operations(&site(false, 2)).iter().map(shown).collect();
    assert_eq!(
        ops,
        vec![
            "dir d",
            "asset dir d/assets",
            "asset 0 d/assets/0",
            "asset dir d/assets",
            "asset 1 d/assets/1",
            "text d/out0.md",
        ]
    );
    let run = WriteRun::start(vec![prepared(0, 0)], false).unwrap();
    let bare = ItemSite {
        exists: false,
        parent: None,
        assets: Vec::new(),
    };
    let ops: Vec<String> = run.operations(&bare).iter().map(shown).collect();
    assert_eq!(ops, vec!["text d/out0.md"]);
}

#[test]
fn existing_files_are_skipped() {
    let mut run = WriteRun::start(vec![prepared(0, 1), prepared(1, 0)], false).unwrap();
    assert_eq!(run.announce().current, "写入中 (1/2) d/out0.md");
    assert!(run.operations(&site(true, 1)).is_empty());
    let progress = write_outputs(&mut run, &site(true, 1), None).unwrap();
    assert_eq!(progress.current, "跳过已存在文件：d/out0.md");
    assert_eq!((progress.done, progress.total), (1, 2));
    let progress = write_outputs(&mut run, &site(false, 0), None).unwrap();
    assert_eq!(progress.current, "已完成 2/2");
    assert_eq!((run.outcome.wrote, run.outcome.skipped), (1, 1));
    let over = WriteRun::start(vec![prepared(0, 0)], true).unwrap();
    assert_eq!(over.operations(&site(true, 0)).len(), 2);
}

#[test]
fn failed_operations_tell_why() {
    let items = (0..4).map(|n| prepared(n, 1)).collect();
    let mut run = WriteRun::start(items, false).unwrap();
    for i in 0..4 {
        let progress = write_outputs(&mut run, &site(false, 1), Some((i, failure())));
        assert_eq!(progress.is_some(), i == 3);
    }
    let messages: Vec<&str> = run
        .outcome
        .failed
        .iter()
        .map(|f| f.error.message.as_str())
        .collect();
    assert_eq!(
        messages,
        vec![
            "无法创建目录: d: why",
            "无法创建图片目录: d/assets: why",
            "图片写入失败: d/assets/0: why",
            "写入失败: d/out3.md: why",
        ]
    );
    assert_eq!(run.outcome.failed[0].src, "in0.docx");
    assert_eq!(run.outcome.failed[0].error.kind, ErrorKind::PermissionDenied);
    assert_eq!(run.outcome.wrote + run.outcome.skipped, 0);
    assert_eq!(run.done, 4);
}
