use docx2md_tui::app::{App, Effect, InputFocus, Key, Stage, TaskKind, WorkerMessage};
use docx2md_tui::errors::{AppError, ErrorKind, IoFailure, IoFailureKind};
use docx2md_tui::history::{parse_history, HistoryEntry};
use docx2md_tui::options::{AppConfig, ConvertOptions};
use docx2md_tui::plan::{ConversionPlan, InputType, PlannedFile};
use docx2md_tui::preview::{PreparedOutput, PreviewOutcome, PreviewRun, Progress};
use docx2md_tui::saving::SaveReport;
use docx2md_tui::writing::WriteOutcome;

fn entry(name: &str) -> HistoryEntry {
    HistoryEntry {
        input_path: name.to_string(),
        output_dir: format!("{name}_md"),
        overwrite: true,
        recursive: true,
        keep_structure: false,
    }
}

fn app(history: &[&str]) -> App {
    let entries = history.iter().map(|n| entry(n)).collect();
    App::new(Ok(entries), Ok(AppConfig::default()))
}

fn press(app: &mut App, key: Key) -> Effect {
    app.handle_key_event(key, false)
}

fn type_text(app: &mut App, text: &str) {
    for c in text.chars() {
        assert!(matches!(press(app, Key::Char(c)), Effect::Nothing));
    }
}

fn plan() -> ConversionPlan {
    ConversionPlan {
        input_type: InputType::SingleFile,
        input_path: "in".to_string(),
        output_dir: "out".to_string(),
        options: ConvertOptions {
            overwrite: true,
            recursive: false,
            keep_structure: true,
        },
        files: vec![
            PlannedFile {
                doc: 0,
                src: "a".to_string(),
                output: "b".to_string(),
            },
            PlannedFile {
                doc: 1,
                src: "c".to_string(),
                output: "d".to_string(),
            },
        ],
        existing_outputs: 0,
        renamed_outputs: 0,
        risks: Vec::new(),
    }
}

fn preview() -> PreviewOutcome {
    let mut outcome = PreviewRun::start(plan().files).unwrap().outcome;
    outcome.prepared.push(PreparedOutput {
        doc: 0,
        src: "a".to_string(),
        output: "b".to_string(),
        markdown: String::new(),
        assets: Vec::new(),
    });
    outcome
}

fn wrong() -> AppError {
    AppError::new(ErrorKind::InvalidInput, "bad".to_string())
}

fn unsaved() -> SaveReport {
    SaveReport::Unwritten(
        "f".to_string(),
        IoFailure {
            kind: IoFailureKind::Other,
            message: "why".to_string(),
        },
    )
}

/// The program while the plan is shown.
fn planned(history: &[&str]) -> App {
    let mut app = app(history);
    app.take_plan(Ok(plan()));
    app
}

/// The program while the preview is shown.
fn previewed(history: &[&str]) -> App {
    let mut app = planned(history);
    assert!(matches!(press(&mut app, Key::Enter), Effect::SaveSession(_)));
    assert!(matches!(app.save_session(&SaveReport::Saved), Effect::StartPreview));
    let effect = app.poll_worker(WorkerMessage::PreviewDone(Ok(preview())));
    assert!(matches!(effect, Effect::Nothing));
    app
}

#[test]
fn program_starts_with_its_past() {
    let fresh = app(&[]);
    assert_eq!(fresh.stage, Stage::InputDialog);
    assert_eq!(fresh.history_row, None);
    assert_eq!(fresh.status, "请输入 DOCX 文件或目录路径，Enter 生成转换摘要（F2 历史）");
    let config = AppConfig {
        last_input: "i".to_string(),
        last_output_dir: "o".to_string(),
        options: ConvertOptions {
            overwrite: true,
            recursive: true,
            keep_structure: false,
        },
    };
    let old = App::new(Ok(vec![entry("a"), entry("b")]), Ok(config.clone()));
    assert_eq!(old.input_path, "i");
    assert_eq!(old.output_dir, "o");
    assert_eq!(old.options, config.options);
    assert_eq!(old.history_row, Some(0));
    assert_eq!(old.status, "已加载 2 条历史，Enter 生成转换摘要（F2 历史）");
    let broken = App::new(Err(wrong()), Err(wrong()));
    assert!(broken.history_entries.is_empty());
    assert_eq!(broken.input_path, "");
    assert_eq!(broken.options, ConvertOptions::default());
}

#[test]
fn paths_are_typed() {
    let mut app = app(&[]);
    type_text(&mut app, "ab");
    assert_eq!(app.input_path, "ab");
    press(&mut app, Key::Tab);
    assert_eq!(app.input_focus, InputFocus::OutputDir);
    type_text(&mut app, "x");
    assert_eq!(app.output_dir, "x");
    press(&mut app, Key::Backspace);
    press(&mut app, Key::Backspace);
    assert_eq!(app.output_dir, "");
    press(&mut app, Key::BackTab);
    press(&mut app, Key::Backspace);
    assert_eq!(app.input_path, "a");
    assert!(matches!(app.handle_key_event(Key::Char('z'), true), Effect::Nothing));
    assert_eq!(app.input_path, "az");
    press(&mut app, Key::Up);
    press(&mut app, Key::Other);
    assert_eq!(app.input_path, "az");
    assert!(!app.quit);
}

#[test]
fn options_are_switched() {
    let mut app = app(&[]);
    let before = app.options;
    press(&mut app, Key::F(3));
    assert!(app.options.overwrite);
    assert_eq!(app.status, "覆盖已切换为 开启");
    press(&mut app, Key::F(4));
    assert!(app.options.recursive);
    assert_eq!(app.status, "目录递归已切换为 开启");
    press(&mut app, Key::F(5));
    assert!(!app.options.keep_structure);
    assert_eq!(app.status, "批量保留目录结构已切换为 关闭（平铺命名）");
    press(&mut app, Key::F(3));
    assert_eq!(app.status, "覆盖已切换为 关闭");
    press(&mut app, Key::F(4));
    press(&mut app, Key::F(5));
    assert_eq!(app.status, "批量保留目录结构已切换为 开启");
    assert_eq!(app.options, before);
    press(&mut app, Key::F(6));
    assert_eq!(app.options, before);
}

#[test]
fn program_is_left() {
    for key in [Key::Char('q'), Key::Esc] {
        let mut app = app(&[]);
        press(&mut app, key);
        assert!(app.quit);
    }
    let mut app = planned(&[]);
    press(&mut app, Key::Char('q'));
    assert!(app.quit);
    let mut app = previewed(&[]);
    app.handle_key_event(Key::Char('c'), true);
    assert!(app.quit);
}

#[test]
fn esc_goes_back() {
    for mut app in [planned(&["h"]), previewed(&["h"])] {
        press(&mut app, Key::Esc);
        assert_eq!(app.stage, Stage::InputDialog);
        assert!(!app.quit);
    }
    let mut app = app(&["h"]);
    press(&mut app, Key::F(2));
    press(&mut app, Key::Char('q'));
    assert!(app.quit);
}

#[test]
fn texts_are_pasted() {
    let mut app = app(&[]);
    app.handle_paste("\r\n\" C:\\a.docx \"\n");
    assert_eq!(app.input_path, "C:\\a.docx");
    assert_eq!(app.status, "已粘贴输入路径");
    press(&mut app, Key::Tab);
    app.handle_paste("out");
    assert_eq!(app.output_dir, "out");
    assert_eq!(app.status, "已粘贴输出目录");
    app.handle_paste(" \n");
    assert_eq!(app.output_dir, "out");
    assert_eq!(app.status, "粘贴内容为空");
}

#[test]
fn clipboard_is_pasted() {
    let mut app = app(&[]);
    assert!(matches!(app.handle_key_event(Key::Char('v'), true), Effect::ReadClipboard));
    app.paste_from_system_clipboard(Ok("\"p\"".to_string()));
    assert_eq!(app.input_path, "p");
    app.paste_from_system_clipboard(Err("gone".to_string()));
    assert_eq!(app.status, "读取剪贴板失败: I/O 失败: gone");
    assert_eq!(app.input_path, "p");
}

#[test]
fn nothing_is_pasted_elsewhere() {
    let mut app = planned(&[]);
    assert!(matches!(app.handle_key_event(Key::Char('v'), true), Effect::Nothing));
    assert_eq!(app.status, "读取剪贴板失败: 输入无效: 请先返回输入界面再粘贴");
    app.handle_paste("x");
    assert_eq!(app.status, "请先返回输入界面再粘贴");
    app.paste_from_system_clipboard(Ok("x".to_string()));
    assert_eq!(app.status, "读取剪贴板失败: 输入无效: 请先返回输入界面再粘贴");
    assert_eq!(app.input_path, "");
}

#[test]
fn plans_are_taken_or_refused() {
    let mut app = app(&[]);
    assert!(matches!(press(&mut app, Key::Enter), Effect::MakePlan));
    app.take_plan(Err(wrong()));
    assert_eq!(app.stage, Stage::InputDialog);
    assert_eq!(app.status, "输入无效: bad");
    app.take_plan(Ok(plan()));
    assert_eq!(app.stage, Stage::PreflightSummary);
    assert_eq!(app.preflight_row, 0);
    assert_eq!(app.status, "请查看转换前摘要并确认");
}

#[test]
fn rows_of_menus_go_round() {
    let mut app = planned(&[]);
    press(&mut app, Key::Up);
    assert_eq!(app.preflight_row, 0);
    for expected in [1, 2, 3, 0] {
        press(&mut app, Key::Down);
        assert_eq!(app.preflight_row, expected);
    }
    for expected in [3, 2] {
        press(&mut app, Key::BackTab);
        assert_eq!(app.preflight_row, expected);
    }
    press(&mut app, Key::Up);
    assert_eq!(app.preflight_row, 1);
    let mut app = previewed(&[]);
    for expected in [1, 2, 3, 0] {
        press(&mut app, Key::Tab);
        assert_eq!(app.preview_row, expected);
    }
    press(&mut app, Key::BackTab);
    assert_eq!(app.preview_row, 3);
    press(&mut app, Key::Up);
    assert_eq!(app.preview_row, 2);
}

#[test]
fn menu_below_the_plan() {
    let mut app = planned(&["h"]);
    press(&mut app, Key::Esc);
    assert_eq!((app.stage, app.status.as_str()), (Stage::InputDialog, "返回输入界面"));
    let mut app = planned(&["h"]);
    press(&mut app, Key::Down);
    press(&mut app, Key::Enter);
    assert_eq!(
        (app.stage, app.status.as_str()),
        (Stage::InputDialog, "返回输入界面，可继续修改")
    );
    let mut app = planned(&["h"]);
    app.preflight_row = 2;
    press(&mut app, Key::Enter);
    assert_eq!(app.stage, Stage::HistoryList);
    let mut app = planned(&[]);
    app.preflight_row = 2;
    press(&mut app, Key::Enter);
    assert_eq!(
        (app.stage, app.status.as_str()),
        (Stage::PreflightSummary, "暂无历史记录")
    );
    app.preflight_row = 3;
    press(&mut app, Key::Enter);
    assert!(app.quit);
}

#[test]
fn preview_is_started() {
    let mut app = planned(&[]);
    app.input_path = " i\tn ".to_string();
    app.options.overwrite = true;
    match press(&mut app, Key::Enter) {
        Effect::SaveSession(text) => assert_eq!(
            text,
            "last_input\tin\nlast_output_dir\t\noverwrite\t1\nrecursive\t0\nkeep_structure\t1\n"
        ),
        other => panic!("{other:?}"),
    }
    assert_eq!(app.stage, Stage::PreflightSummary);
    assert!(matches!(app.save_session(&unsaved()), Effect::StartPreview));
    assert_eq!(app.stage, Stage::Working);
    assert_eq!(app.status, "正在生成转换预览...");
    let task = app.running.as_ref().unwrap();
    assert_eq!(task.kind, TaskKind::Preview);
    assert_eq!((task.progress.done, task.progress.total), (0, 2));
    assert_eq!(task.progress.current, "准备分析 DOCX");
    assert!(app.preview.is_none());
}

#[test]
fn tasks_are_waited_for() {
    let mut app = planned(&["h"]);
    app.save_session(&SaveReport::Saved);
    for key in [Key::Char('q'), Key::Esc] {
        app.status = String::new();
        press(&mut app, key);
        assert_eq!(app.status, "任务执行中，暂不支持中断。请等待完成。");
        assert!(!app.quit);
    }
    for key in [Key::Enter, Key::F(2), Key::Char('x'), Key::Tab] {
        press(&mut app, key);
        assert_eq!(app.stage, Stage::Working);
    }
    let progress = Progress {
        done: 1,
        total: 2,
        current: "c".to_string(),
    };
    app.poll_worker(WorkerMessage::Progress(progress));
    let task = app.running.as_ref().unwrap();
    assert_eq!((task.progress.done, task.progress.current.as_str()), (1, "c"));
    app.poll_worker(WorkerMessage::Gone);
    assert_eq!(app.stage, Stage::InputDialog);
    assert_eq!(app.status, "后台任务异常结束");
    assert!(app.running.is_none());
    app.poll_worker(WorkerMessage::WriteDone(Err(wrong())));
    assert_eq!(app.stage, Stage::InputDialog);
}

#[test]
fn preview_is_shown() {
    let app = previewed(&[]);
    assert_eq!(app.stage, Stage::PreviewSummary);
    assert_eq!(app.status, "预览完成：可转换 1，失败 0。请确认是否写入。");
    assert!(app.running.is_none());
    let mut app = planned(&[]);
    app.save_session(&SaveReport::Saved);
    app.poll_worker(WorkerMessage::PreviewDone(Err(wrong())));
    assert_eq!(app.stage, Stage::PreflightSummary);
    assert_eq!(app.status, "预览失败：输入无效: bad");
}

#[test]
fn menu_below_the_preview() {
    let mut app = previewed(&[]);
    app.preview_row = 2;
    assert!(matches!(press(&mut app, Key::Enter), Effect::StartPreview));
    assert_eq!(app.stage, Stage::Working);
    assert!(app.preview.is_none());
    let mut app = previewed(&[]);
    app.preview_row = 1;
    press(&mut app, Key::Enter);
    assert_eq!(app.stage, Stage::InputDialog);
    let mut app = previewed(&[]);
    press(&mut app, Key::Esc);
    assert_eq!(app.status, "返回输入界面");
    let mut app = previewed(&[]);
    app.preview_row = 3;
    press(&mut app, Key::Enter);
    assert!(app.quit);
}

#[test]
fn outputs_are_written_and_remembered() {
    let mut app = previewed(&["h"]);
    match press(&mut app, Key::Enter) {
        Effect::StartWrite(overwrite) => assert!(overwrite),
        other => panic!("{other:?}"),
    }
    assert_eq!(app.status, "正在写入输出文件...");
    let task = app.running.as_ref().unwrap();
    assert_eq!(task.kind, TaskKind::Write);
    assert_eq!(task.progress.total, 1);
    assert_eq!(task.progress.current, "准备写入 Markdown");
    let outcome = WriteOutcome {
        wrote: 1,
        skipped: 2,
        failed: Vec::new(),
    };
    match app.poll_worker(WorkerMessage::WriteDone(Ok(outcome))) {
        Effect::SaveHistory(text, reported) => {
            assert!(!reported);
            assert_eq!(text, "in\tout\t1\t0\t1\nh\th_md\t1\t1\t0\n");
            assert_eq!(parse_history(&text).len(), app.history_entries.len());
        }
        other => panic!("{other:?}"),
    }
    assert_eq!(app.stage, Stage::PreviewSummary);
    assert_eq!(app.status, "写入完成：成功 1，跳过 2，失败 0");
    assert_eq!(app.history_entries.len(), 2);
    assert_eq!(app.history_row, Some(0));

    press(&mut app, Key::Enter);
    app.poll_worker(WorkerMessage::WriteDone(Err(wrong())));
    assert_eq!(app.stage, Stage::PreviewSummary);
    assert_eq!(app.status, "写入失败：输入无效: bad");
    assert_eq!(app.history_entries.len(), 2);
}

#[test]
fn plan_without_paths_is_not_remembered() {
    let mut app = previewed(&["h"]);
    if let Some(plan) = app.plan.as_mut() {
        plan.output_dir = "\t".to_string();
    }
    assert!(matches!(app.remember_history(), Effect::Nothing));
    assert_eq!(app.history_entries.len(), 1);
}

#[test]
fn history_is_walked() {
    let mut app = app(&["a", "b", "c"]);
    press(&mut app, Key::F(2));
    assert_eq!(app.stage, Stage::HistoryList);
    assert_eq!(app.status, "历史列表：Enter 回填，Delete 删除，Esc 返回");
    for (key, row) in [
        (Key::Up, 2),
        (Key::Down, 0),
        (Key::Tab, 1),
        (Key::BackTab, 0),
        (Key::BackTab, 2),
    ] {
        press(&mut app, key);
        assert_eq!(app.history_row, Some(row));
    }
    press(&mut app, Key::Enter);
    assert_eq!(app.stage, Stage::InputDialog);
    assert_eq!(app.input_path, "c");
    assert_eq!(app.output_dir, "c_md");
    assert!(app.options.overwrite && app.options.recursive && !app.options.keep_structure);
    assert_eq!(app.status, "已从历史回填输入、输出和选项");
    press(&mut app, Key::F(2));
    press(&mut app, Key::Esc);
    assert_eq!(app.status, "已返回输入界面");
}

#[test]
fn history_is_shortened() {
    let mut app = app(&["a", "b"]);
    press(&mut app, Key::F(2));
    press(&mut app, Key::Up);
    match press(&mut app, Key::Delete) {
        Effect::SaveHistory(text, reported) => {
            assert!(reported);
            assert_eq!(text, "a\ta_md\t1\t1\t0\n");
        }
        other => panic!("{other:?}"),
    }
    assert_eq!(app.history_row, Some(0));
    assert_eq!(app.status, "已删除该历史项");
    app.report_history(&SaveReport::Saved);
    assert_eq!(app.status, "已删除该历史项");
    app.report_history(&unsaved());
    assert_eq!(app.status, "保存历史失败: I/O 失败: 写入历史失败: f: why");
    press(&mut app, Key::Delete);
    assert_eq!(app.stage, Stage::InputDialog);
    assert_eq!(app.history_row, None);
    assert_eq!(app.status, "历史已清空，返回输入界面");
    press(&mut app, Key::F(2));
    assert_eq!(app.stage, Stage::InputDialog);
    assert_eq!(app.status, "暂无历史记录");
}
