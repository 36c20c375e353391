//! What keys do.

use vstd::prelude::*;

use crate::app::{
    clipboard_failed,
    entry_deleted,
    entry_filled_in,
    history_key,
    history_opened,
    input_key,
    key_pressed,
    preflight_key,
    preview_key,
    preview_started,
    row_before,
    row_next,
    row_up,
    session_of,
    show_kept,
    show_on,
    working_key,
    write_started,
    App,
    AppView,
    Effect,
    InputFocus,
    Key,
    RunningTask,
    Stage,
    TaskKind,
    MENU_ROWS,
};
use crate::errors::{format_app_error, AppError, ErrorKind};
use crate::history::{entries_of, show_history};
use crate::names::sanitize_field;
use crate::options::{config_text, show_config, AppConfig, ConvertOptions};
use crate::preview::Progress;
use crate::text::concat;

verus! {

fn up(row: usize) -> (r: usize)
    ensures
        r == row_up(row as int),
{
    if row > 0 {
        row - 1
    } else {
        0
    }
}

fn next(row: usize, rows: usize) -> (r: usize)
    ensures
        r == row_next(row as int, rows as int),
{
    if rows == 0 || row >= rows - 1 {
        0
    } else {
        row + 1
    }
}

fn previous(row: usize, rows: usize) -> (r: usize)
    requires
        rows > 0,
    ensures
        r == row_before(row as int, rows as int),
{
    if row == 0 {
        rows - 1
    } else {
        row - 1
    }
}

impl App {
    fn say(&mut self, status: &str)
        ensures
            final(self)@ == old(self)@.says(status@),
    {
        self.status = status.to_owned();
        assert(self@ =~= old(self)@.says(status@));
    }

    fn go(&mut self, stage: Stage, status: &str)
        ensures
            final(self)@ == old(self)@.at(stage, status@),
    {
        self.stage = stage;
        self.status = status.to_owned();
        assert(self@ =~= old(self)@.at(stage, status@));
    }

    fn leave(&mut self)
        ensures
            final(self)@ == (AppView { quit: true, ..old(self)@ }),
    {
        self.quit = true;
        assert(self@ =~= (AppView { quit: true, ..old(self)@ }));
    }

    /// Shows the history, where there is one.
    pub fn open_history(&mut self)
        ensures
            final(self)@ == history_opened(old(self)@),
    {
        assert(self.history_entries@.len() == self@.history.len());
        if self.history_entries.len() == 0 {
            self.say("暂无历史记录");
        } else {
            self.go(Stage::HistoryList, "历史列表：Enter 回填，Delete 删除，Esc 返回");
            self.history_row = Some(0);
            assert(self@ =~= history_opened(old(self)@));
        }
    }

    /// What a key does while paths are typed.
    pub fn handle_input_dialog_keys(&mut self, key: Key) -> (r: Effect)
        ensures
            (final(self)@, r@) == input_key(old(self)@, key),
    {
        let ghost was = self@;
        match key {
            Key::Esc => {
                self.leave();
            },
            Key::F(n) => {
                if n == 2 {
                    self.open_history();
                } else if n == 3 {
                    self.options.overwrite = !self.options.overwrite;
                    self.status = concat("覆盖已切换为 ", show_on(self.options.overwrite));
                } else if n == 4 {
                    self.options.recursive = !self.options.recursive;
                    self.status = concat("目录递归已切换为 ", show_on(self.options.recursive));
                } else if n == 5 {
                    self.options.keep_structure = !self.options.keep_structure;
                    self.status = concat(
                        "批量保留目录结构已切换为 ",
                        show_kept(self.options.keep_structure),
                    );
                }
            },
            Key::Tab | Key::BackTab => {
                self.input_focus = match self.input_focus {
                    InputFocus::SourcePath => InputFocus::OutputDir,
                    InputFocus::OutputDir => InputFocus::SourcePath,
                };
            },
            Key::Backspace => match self.input_focus {
                InputFocus::SourcePath => {
                    self.input_path.pop();
                },
                InputFocus::OutputDir => {
                    self.output_dir.pop();
                },
            },
            Key::Enter => {
                return Effect::MakePlan;
            },
            Key::Char(c) => {
                if c == 'q' {
                    self.leave();
                } else {
                    match self.input_focus {
                        InputFocus::SourcePath => self.input_path.push(c),
                        InputFocus::OutputDir => self.output_dir.push(c),
                    }
                }
            },
            _ => {},
        }
        assert(self@ =~= input_key(was, key).0);
        Effect::Nothing
    }

    /// Starts the preview of the plan.
    pub fn start_preview_task(&mut self)
        requires
            old(self).plan is Some,
        ensures
            final(self)@ == preview_started(old(self)@, old(self)@.plan.unwrap()),
    {
        let ghost was = self@;
        let total: usize = match &self.plan {
            Some(plan) => {
                assert(plan.files@.len() == plan@.files.len());
                if plan.files.len() > 0 {
                    plan.files.len()
                } else {
                    1
                }
            },
            None => 1,
        };
        self.go(Stage::Working, "正在生成转换预览...");
        self.preview = None;
        self.running = Some(
            RunningTask {
                kind: TaskKind::Preview,
                progress: Progress { done: 0, total, current: "准备分析 DOCX".to_owned() },
            },
        );
        assert(self@ =~= preview_started(was, was.plan.unwrap()));
    }

    /// Starts writing the outputs of the preview.
    pub fn start_write_task(&mut self)
        requires
            old(self).preview is Some,
        ensures
            final(self)@ == write_started(old(self)@, old(self)@.preview.unwrap()),
    {
        let ghost was = self@;
        let total: usize = match &self.preview {
            Some(preview) => {
                assert(preview.prepared@.len() == preview@.prepared.len());
                if preview.prepared.len() > 0 {
                    preview.prepared.len()
                } else {
                    1
                }
            },
            None => 1,
        };
        self.go(Stage::Working, "正在写入输出文件...");
        self.running = Some(
            RunningTask {
                kind: TaskKind::Write,
                progress: Progress { done: 0, total, current: "准备写入 Markdown".to_owned() },
            },
        );
        assert(self@ =~= write_started(was, was.preview.unwrap()));
    }

    /// The text of the file that keeps the session.
    pub fn session_text(&self) -> (r: String)
        ensures
            r@ == config_text(session_of(self@)),
    {
        let config = AppConfig {
            last_input: sanitize_field(self.input_path.as_str()),
            last_output_dir: sanitize_field(self.output_dir.as_str()),
            options: self.options,
        };
        assert(config@ =~= session_of(self@));
        show_config(&config)
    }

    /// What a key does while the plan is shown.
    pub fn handle_preflight_keys(&mut self, key: Key) -> (r: Effect)
        requires
            old(self)@.wf(),
        ensures
            (final(self)@, r@) == preflight_key(old(self)@, key),
    {
        let ghost was = self@;
        let row: usize = self.preflight_row;
        match key {
            Key::Char(c) => {
                if c == 'q' {
                    self.leave();
                }
            },
            Key::Esc => {
                self.go(Stage::InputDialog, "返回输入界面");
            },
            Key::Up => {
                self.preflight_row = up(row);
            },
            Key::Down | Key::Tab => {
                self.preflight_row = next(row, MENU_ROWS);
            },
            Key::BackTab => {
                self.preflight_row = previous(row, MENU_ROWS);
            },
            Key::Enter => {
                if row == 0 {
                    if self.plan.is_some() {
                        return Effect::SaveSession(self.session_text());
                    }
                    self.say("缺少转换计划，请返回重新输入");
                } else if row == 1 {
                    self.go(Stage::InputDialog, "返回输入界面，可继续修改");
                } else if row == 2 {
                    self.open_history();
                } else {
                    self.leave();
                }
            },
            _ => {},
        }
        assert(self@ =~= preflight_key(was, key).0);
        Effect::Nothing
    }

    /// What a key does while the preview is shown.
    pub fn handle_preview_keys(&mut self, key: Key) -> (r: Effect)
        requires
            old(self)@.wf(),
        ensures
            (final(self)@, r@) == preview_key(old(self)@, key),
    {
        let ghost was = self@;
        let row: usize = self.preview_row;
        match key {
            Key::Char(c) => {
                if c == 'q' {
                    self.leave();
                }
            },
            Key::Esc => {
                self.go(Stage::InputDialog, "返回输入界面");
            },
            Key::Up => {
                self.preview_row = up(row);
            },
            Key::Down | Key::Tab => {
                self.preview_row = next(row, MENU_ROWS);
            },
            Key::BackTab => {
                self.preview_row = previous(row, MENU_ROWS);
            },
            Key::Enter => {
                if row == 0 {
                    let overwrite = match &self.plan {
                        Some(plan) => Some(plan.options.overwrite),
                        None => None,
                    };
                    match overwrite {
                        Some(overwrite) if self.preview.is_some() => {
                            self.start_write_task();
                            return Effect::StartWrite(overwrite);
                        },
                        _ => {
                            self.say("缺少预览数据，请先重新生成摘要");
                        },
                    }
                } else if row == 1 {
                    self.go(Stage::InputDialog, "返回输入界面，可继续修改");
                } else if row == 2 {
                    if self.plan.is_some() {
                        self.start_preview_task();
                        return Effect::StartPreview;
                    }
                    self.say("缺少转换计划，请返回重新输入");
                } else {
                    self.leave();
                }
            },
            _ => {},
        }
        assert(self@ =~= preview_key(was, key).0);
        Effect::Nothing
    }

    /// Takes the chosen entry out of the history.
    fn delete_entry(&mut self, row: usize)
        requires
            old(self)@.wf(),
            old(self)@.history.len() > 0,
            row == old(self)@.chosen(),
        ensures
            final(self)@ == entry_deleted(old(self)@),
    {
        let ghost was = self@;
        let ghost entries = self.history_entries@;
        assert(entries.len() == was.history.len());
        self.history_entries.remove(row);
        assert(entries_of(self.history_entries@) == was.history.remove(row as int));
        let n: usize = self.history_entries.len();
        if n == 0 {
            self.history_row = None;
            self.stage = Stage::InputDialog;
            self.status = "历史已清空，返回输入界面".to_owned();
        } else {
            self.history_row = Some(
                if row < n {
                    row
                } else {
                    n - 1
                },
            );
            self.status = "已删除该历史项".to_owned();
        }
        assert(self@ =~= entry_deleted(was));
    }

    /// Fills an entry of the history in.
    fn fill_in_entry(&mut self, row: usize)
        requires
            row < old(self)@.history.len(),
        ensures
            final(self)@ == entry_filled_in(old(self)@, old(self)@.history[row as int]),
    {
        let ghost was = self@;
        let item = &self.history_entries[row];
        let ghost e = item@;
        assert(e == was.history[row as int]);
        let input_path = item.input_path.clone();
        let output_dir = item.output_dir.clone();
        let options = ConvertOptions {
            overwrite: item.overwrite,
            recursive: item.recursive,
            keep_structure: item.keep_structure,
        };
        self.input_path = input_path;
        self.output_dir = output_dir;
        self.options = options;
        self.stage = Stage::InputDialog;
        self.status = "已从历史回填输入、输出和选项".to_owned();
        assert(self@ =~= entry_filled_in(was, e));
    }

    /// What a key does while the history is shown.
    pub fn handle_history_keys(&mut self, key: Key) -> (r: Effect)
        requires
            old(self)@.wf(),
        ensures
            (final(self)@, r@) == history_key(old(self)@, key),
    {
        let ghost was = self@;
        let n: usize = self.history_entries.len();
        assert(n == was.history.len());
        if n == 0 {
            self.go(Stage::InputDialog, "暂无历史记录");
            return Effect::Nothing;
        }
        let row: usize = match self.history_row {
            Some(i) => i,
            None => 0,
        };
        match key {
            Key::Char(c) => {
                if c == 'q' {
                    self.leave();
                }
            },
            Key::Esc => {
                self.go(Stage::InputDialog, "已返回输入界面");
            },
            Key::Up | Key::BackTab => {
                self.history_row = Some(previous(row, n));
            },
            Key::Down | Key::Tab => {
                self.history_row = Some(next(row, n));
            },
            Key::Delete => {
                self.delete_entry(row);
                return Effect::SaveHistory(show_history(&self.history_entries), true);
            },
            Key::Enter => {
                self.fill_in_entry(row);
            },
            _ => {},
        }
        assert(self@ =~= history_key(was, key).0);
        Effect::Nothing
    }

    /// What a key does while a task runs.
    pub fn handle_working_keys(&mut self, key: Key) -> (r: Effect)
        ensures
            (final(self)@, r@) == working_key(old(self)@, key),
    {
        match key {
            Key::Esc => {
                self.say("任务执行中，暂不支持中断。请等待完成。");
            },
            Key::Char(c) => {
                if c == 'q' {
                    self.say("任务执行中，暂不支持中断。请等待完成。");
                }
            },
            _ => {},
        }
        Effect::Nothing
    }

    /// Says that the clipboard could not be read.
    pub fn clipboard_error(&mut self, err: &AppError)
        ensures
            final(self)@ == clipboard_failed(old(self)@, err@),
    {
        let status = concat("读取剪贴板失败: ", format_app_error(err).as_str());
        self.say(status.as_str());
    }

    /// What a key does, alone or with Ctrl held.
    pub fn handle_key_event(&mut self, key: Key, ctrl: bool) -> (r: Effect)
        requires
            old(self)@.wf(),
        ensures
            (final(self)@, r@) == key_pressed(old(self)@, key, ctrl),
            final(self)@.wf(),
    {
        if ctrl {
            match key {
                Key::Char(c) => {
                    if c == 'c' {
                        self.leave();
                        return Effect::Nothing;
                    }
                    if c == 'v' {
                        if self.stage == Stage::InputDialog {
                            return Effect::ReadClipboard;
                        }
                        let err = AppError::new(
                            ErrorKind::InvalidInput,
                            "请先返回输入界面再粘贴".to_owned(),
                        );
                        self.clipboard_error(&err);
                        return Effect::Nothing;
                    }
                },
                _ => {},
            }
        }
        match self.stage {
            Stage::InputDialog => self.handle_input_dialog_keys(key),
            Stage::PreflightSummary => self.handle_preflight_keys(key),
            Stage::PreviewSummary => self.handle_preview_keys(key),
            Stage::HistoryList => self.handle_history_keys(key),
            Stage::Working => self.handle_working_keys(key),
        }
    }
}

} // verus!
