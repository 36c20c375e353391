use docx2md_tui::errors::{
    format_app_error, map_io_error, AppError, ErrorKind, IoFailure, IoFailureKind,
};
use docx2md_tui::history::{
    load_history, parse_history, remember, show_history, HistoryEntry, HISTORY_MAX,
};
use docx2md_tui::options::{
    bool_zh, load_config, parse_config, show_config, AppConfig, ConvertOptions, TextSource,
};
use docx2md_tui::saving::{
    default_config_file, default_history_file, save_config, save_history, SaveReport,
};
use docx2md_tui::summary::{ParseStats, UnsupportedSummary};

fn failure(kind: IoFailureKind) -> IoFailure {
    IoFailure {
        kind,
        message: "why".to_string(),
    }
}

fn entry(input: &str, output: &str, overwrite: bool) -> HistoryEntry {
    HistoryEntry {
        input_path: input.to_string(),
        output_dir: output.to_string(),
        overwrite,
        recursive: true,
        keep_structure: false,
    }
}

#[test]
fn errors_are_shown_with_their_kind() {
    for (kind, words) in [
        (ErrorKind::FileNotFound, "文件不存在"),
        (ErrorKind::InvalidDocx, "无效 DOCX"),
        (ErrorKind::PermissionDenied, "权限不足"),
        (ErrorKind::ParseFailed, "解析失败"),
        (ErrorKind::IoFailure, "I/O 失败"),
        (ErrorKind::InvalidInput, "输入无效"),
    ] {
        let err = AppError::new(kind, "m".to_string());
        assert_eq!(format_app_error(&err), format!("{words}: m"));
    }
}

#[test]
fn failures_become_errors() {
    let err = map_io_error(&failure(IoFailureKind::NotFound), "doing");
    assert_eq!(err.kind, ErrorKind::FileNotFound);
    assert_eq!(err.message, "doing: why");
    let err = map_io_error(&failure(IoFailureKind::PermissionDenied), "");
    assert_eq!(err.kind, ErrorKind::PermissionDenied);
    let err = map_io_error(&failure(IoFailureKind::Other), "");
    assert_eq!(err.kind, ErrorKind::IoFailure);
}

#[test]
fn switches_are_shown() {
    assert_eq!(bool_zh(true), "开");
    assert_eq!(bool_zh(false), "关");
}

#[test]
fn counts_add_up() {
    let mut u = UnsupportedSummary::default();
    let one = UnsupportedSummary {
        tables_converted: 1,
        tables_degraded: 2,
        images_exported: 3,
        images_unresolved: 4,
        footnotes_ignored: 5,
        equations_ignored: 6,
    };
    u.add(&one);
    u.add(&one);
    assert_eq!(
        (u.tables_converted, u.tables_degraded, u.images_exported),
        (2, 4, 6)
    );
    assert_eq!(
        (u.images_unresolved, u.footnotes_ignored, u.equations_ignored),
        (8, 10, 12)
    );
    let mut s = ParseStats::default();
    let one = ParseStats {
        lines: 4,
        paragraphs: 3,
        headings: 2,
        list_items: 1,
    };
    s.add(&one);
    s.add(&one);
    assert_eq!((s.lines, s.paragraphs, s.headings, s.list_items), (8, 6, 4, 2));
}

#[test]
fn session_is_written_and_read_back() {
    let config = AppConfig {
        last_input: " C:\\a\tb.docx\n".to_string(),
        last_output_dir: String::new(),
        options: ConvertOptions {
            overwrite: true,
            recursive: false,
            keep_structure: false,
        },
    };
    let text = show_config(&config);
    assert_eq!(
        text,
        "last_input\tC:\\ab.docx\nlast_output_dir\t\noverwrite\t1\nrecursive\t0\nkeep_structure\t0\n"
    );
    let back = parse_config(&text);
    assert_eq!(back.last_input, "C:\\ab.docx");
    assert_eq!(back.last_output_dir, "");
    assert_eq!(back.options, config.options);
}

#[test]
fn session_has_defaults() {
    let config = load_config("c", &TextSource::Missing).unwrap();
    assert_eq!(config.last_input, "");
    assert_eq!(config.options, ConvertOptions::default());
    assert!(config.options.keep_structure);
    let config = parse_config("recursive\t1\n\t x\nlast_input\ta\tb\r\nlast_input\t c \nkeep_structure\tyes");
    assert_eq!(config.last_input, "c");
    assert!(config.options.recursive);
    assert!(!config.options.keep_structure);
    let err = load_config("c", &TextSource::Failed(failure(IoFailureKind::Other))).unwrap_err();
    assert_eq!(err.message, "读取配置文件失败: c: why");
}

#[test]
fn history_is_written_and_read_back() {
    let entries = vec![entry("a", "b", true), entry("", "x", false), entry(" c\td ", "e", false)];
    let text = show_history(&entries);
    assert_eq!(text, "a\tb\t1\t1\t0\ncd\te\t0\t1\t0\n");
    let back = parse_history(&text);
    assert_eq!(back.len(), 2);
    assert_eq!(back[0].input_path, "a");
    assert_eq!(back[0].output_dir, "b");
    assert!(back[0].overwrite && back[0].recursive && !back[0].keep_structure);
    assert_eq!(back[1].input_path, "cd");
    assert_eq!(back[1].output_dir, "e");
    assert!(!back[1].overwrite && back[1].recursive && !back[1].keep_structure);
    assert_eq!(show_history(&back), text);
}

#[test]
fn old_lines_of_history_have_defaults() {
    let back = parse_history("only\n\n a \t b \nx\ty\t1\n");
    assert_eq!(back.len(), 2);
    assert_eq!(back[0].input_path, "a");
    assert_eq!(back[0].output_dir, "b");
    assert!(!back[0].overwrite && !back[0].recursive && back[0].keep_structure);
    assert!(back[1].overwrite && !back[1].recursive && back[1].keep_structure);
}

#[test]
fn history_of_no_file_is_empty() {
    assert!(load_history("h", &TextSource::Missing).unwrap().is_empty());
    let text = TextSource::Text("a\tb\n".to_string());
    assert_eq!(load_history("h", &text).unwrap().len(), 1);
    let denied = TextSource::Failed(failure(IoFailureKind::PermissionDenied));
    let err = load_history("h", &denied).unwrap_err();
    assert_eq!(err.kind, ErrorKind::PermissionDenied);
    assert_eq!(err.message, "读取历史文件失败: h: why");
}

#[test]
fn conversions_are_remembered_once() {
    let mut entries = vec![entry("a", "x", true), entry("B", "Y", true), entry("b", "y", false)];
    assert!(remember(&mut entries, entry(" b\n", "y", true)));
    let inputs: Vec<&str> = entries.iter().map(|e| e.input_path.as_str()).collect();
    assert_eq!(inputs, vec!["b", "a", "b"]);
    assert!(remember(&mut entries, entry("b", "y", true)));
    assert_eq!(entries.len(), 3);
    assert!(!remember(&mut entries, entry("\t", "y", true)));
    assert!(!remember(&mut entries, entry("a", "", true)));
    assert_eq!(entries.len(), 3);
}

#[test]
fn old_conversions_are_dropped() {
    let mut entries = Vec::new();
    for i in 0..40 {
        assert!(remember(&mut entries, entry(&format!("in{i}"), "out", false)));
    }
    assert_eq!(entries.len(), HISTORY_MAX);
    assert_eq!(entries[0].input_path, "in39");
    assert_eq!(entries[29].input_path, "in10");
}

#[test]
fn failed_saves_tell_why() {
    assert!(save_config(&SaveReport::Saved).is_ok());
    assert!(save_history(&SaveReport::Saved).is_ok());
    let no_dir = SaveReport::NoDirectory("d".to_string(), failure(IoFailureKind::Other));
    let no_file = SaveReport::Unwritten("f".to_string(), failure(IoFailureKind::NotFound));
    assert_eq!(save_config(&no_dir).unwrap_err().message, "创建配置目录失败: d: why");
    assert_eq!(save_config(&no_file).unwrap_err().message, "写入配置文件失败: f: why");
    assert_eq!(save_history(&no_dir).unwrap_err().message, "创建历史目录失败: d: why");
    let err = save_history(&no_file).unwrap_err();
    assert_eq!(err.message, "写入历史失败: f: why");
    assert_eq!(err.kind, ErrorKind::FileNotFound);
}

#[test]
fn files_are_kept_below_one_directory() {
    assert_eq!(default_history_file(true), vec!["docx2md_tui", "history.tsv"]);
    assert_eq!(default_history_file(false), vec!["docx2md_tui_history.tsv"]);
    assert_eq!(default_config_file(true), vec!["docx2md_tui", "config.tsv"]);
    assert_eq!(default_config_file(false), vec!["docx2md_tui_config.tsv"]);
}
