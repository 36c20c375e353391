//! The state of the program, and how keys, pastes and tasks change it.

use vstd::prelude::*;

use crate::errors::{shown_error, AppResult, ErrorKind, ErrorView};
use crate::history::{can_keep, entries_of, history_text, remembered, HistoryEntry, HistoryView};
use crate::names::field_text;
use crate::number::decimal;
use crate::options::{config_text, ConfigView, ConvertOptions};
use crate::plan::{ConversionPlan, PlanView};
use crate::preview::{PreviewOutcome, PreviewView, Progress, ProgressView};
use crate::text::{cut_ends, trimmed, CharClass};
use crate::writing::{WriteOutcome, WriteView};

verus! {

/// What the screen shows.
#[derive(Clone, Copy, Debug, PartialEq, Eq, Structural)]
pub enum Stage {
    InputDialog,
    PreflightSummary,
    PreviewSummary,
    HistoryList,
    Working,
}

/// The field that is being edited.
#[derive(Clone, Copy, Debug, PartialEq, Eq, Structural)]
pub enum InputFocus {
    SourcePath,
    OutputDir,
}

/// What runs in the background.
#[derive(Clone, Copy, Debug, PartialEq, Eq, Structural)]
pub enum TaskKind {
    Preview,
    Write,
}

/// A key that the program may listen to.
#[derive(Clone, Copy, Debug, PartialEq, Eq, Structural)]
pub enum Key {
    Char(char),
    F(u8),
    Esc,
    Enter,
    Tab,
    BackTab,
    Backspace,
    Delete,
    Up,
    Down,
    Other,
}

/// A task in the background.
#[derive(Clone, Debug)]
pub struct RunningTask {
    pub kind: TaskKind,
    pub progress: Progress,
}

/// What a task holds.
#[verifier::ext_equal]
pub struct TaskView {
    pub kind: TaskKind,
    pub progress: ProgressView,
}

impl View for RunningTask {
    type V = TaskView;

    open spec fn view(&self) -> TaskView {
        TaskView { kind: self.kind, progress: self.progress@ }
    }
}

/// What a task in the background reports.
#[derive(Debug)]
pub enum WorkerMessage {
    Progress(Progress),
    PreviewDone(AppResult<PreviewOutcome>),
    WriteDone(AppResult<WriteOutcome>),
    /// The task has ended without a result.
    Gone,
}

/// What a task in the background reports.
pub enum MessageView {
    Progress(ProgressView),
    PreviewDone(Result<PreviewView, ErrorView>),
    WriteDone(Result<WriteView, ErrorView>),
    Gone,
}

impl View for WorkerMessage {
    type V = MessageView;

    open spec fn view(&self) -> MessageView {
        match self {
            WorkerMessage::Progress(p) => MessageView::Progress(p@),
            WorkerMessage::PreviewDone(Ok(outcome)) => MessageView::PreviewDone(Ok(outcome@)),
            WorkerMessage::PreviewDone(Err(e)) => MessageView::PreviewDone(Err(e@)),
            WorkerMessage::WriteDone(Ok(outcome)) => MessageView::WriteDone(Ok(outcome@)),
            WorkerMessage::WriteDone(Err(e)) => MessageView::WriteDone(Err(e@)),
            WorkerMessage::Gone => MessageView::Gone,
        }
    }
}

/// What the program wants done outside.
#[derive(Debug)]
pub enum Effect {
    Nothing,
    /// The text of the clipboard is pasted.
    ReadClipboard,
    /// A plan is made of what was typed.
    MakePlan,
    /// The text is kept as the session.
    SaveSession(String),
    /// The preview of the plan is started.
    StartPreview,
    /// The prepared outputs are written, over existing files or not.
    StartWrite(bool),
    /// The text is kept as the history, and what came of it is reported or not.
    SaveHistory(String, bool),
}

/// What the program wants done outside.
pub enum EffectView {
    Nothing,
    ReadClipboard,
    MakePlan,
    SaveSession(Seq<char>),
    StartPreview,
    StartWrite(bool),
    SaveHistory(Seq<char>, bool),
}

impl View for Effect {
    type V = EffectView;

    open spec fn view(&self) -> EffectView {
        match self {
            Effect::Nothing => EffectView::Nothing,
            Effect::ReadClipboard => EffectView::ReadClipboard,
            Effect::MakePlan => EffectView::MakePlan,
            Effect::SaveSession(text) => EffectView::SaveSession(text@),
            Effect::StartPreview => EffectView::StartPreview,
            Effect::StartWrite(overwrite) => EffectView::StartWrite(*overwrite),
            Effect::SaveHistory(text, reported) => EffectView::SaveHistory(text@, *reported),
        }
    }
}

/// The state of the program.
#[derive(Debug)]
pub struct App {
    pub stage: Stage,
    pub input_path: String,
    pub output_dir: String,
    pub input_focus: InputFocus,
    pub options: ConvertOptions,
    pub status: String,
    pub quit: bool,
    /// The chosen row of the menu below the plan.
    pub preflight_row: usize,
    /// The chosen row of the menu below the preview.
    pub preview_row: usize,
    /// The chosen entry of the history.
    pub history_row: Option<usize>,
    pub history_entries: Vec<HistoryEntry>,
    pub plan: Option<ConversionPlan>,
    pub preview: Option<PreviewOutcome>,
    pub running: Option<RunningTask>,
}

/// The state of the program.
#[verifier::ext_equal]
pub struct AppView {
    pub stage: Stage,
    pub input_path: Seq<char>,
    pub output_dir: Seq<char>,
    pub input_focus: InputFocus,
    pub options: ConvertOptions,
    pub status: Seq<char>,
    pub quit: bool,
    pub preflight_row: int,
    pub preview_row: int,
    pub history_row: Option<int>,
    pub history: Seq<HistoryView>,
    pub plan: Option<PlanView>,
    pub preview: Option<PreviewView>,
    pub running: Option<TaskView>,
}

/// The value of an option by its view.
pub open spec fn some_view<T: View>(value: Option<T>) -> Option<T::V> {
    match value {
        Some(v) => Some(v@),
        None => None,
    }
}

impl View for App {
    type V = AppView;

    open spec fn view(&self) -> AppView {
        AppView {
            stage: self.stage,
            input_path: self.input_path@,
            output_dir: self.output_dir@,
            input_focus: self.input_focus,
            options: self.options,
            status: self.status@,
            quit: self.quit,
            preflight_row: self.preflight_row as int,
            preview_row: self.preview_row as int,
            history_row: match self.history_row {
                Some(i) => Some(i as int),
                None => None,
            },
            history: entries_of(self.history_entries@),
            plan: some_view(self.plan),
            preview: some_view(self.preview),
            running: some_view(self.running),
        }
    }
}

/// How many rows each menu has.
pub const MENU_ROWS: usize = 4;

impl AppView {
    /// The chosen rows are there, the history is shown only where there is one, a task runs just
    /// while the program shows it, and a plan stands behind what follows from one.
    pub open spec fn wf(self) -> bool {
        &&& 0 <= self.preflight_row < MENU_ROWS
        &&& 0 <= self.preview_row < MENU_ROWS
        &&& self.history_row matches Some(i) ==> 0 <= i < self.history.len()
        &&& self.stage == Stage::HistoryList ==> self.history.len() > 0
        &&& self.stage == Stage::Working <==> self.running is Some
        &&& self.stage == Stage::PreflightSummary || self.stage == Stage::PreviewSummary
            || self.stage == Stage::Working ==> self.plan is Some
    }

    /// The state with another status line.
    pub open spec fn says(self, status: Seq<char>) -> AppView {
        AppView { status, ..self }
    }

    /// The state at another stage, with another status line.
    pub open spec fn at(self, stage: Stage, status: Seq<char>) -> AppView {
        AppView { stage, status, ..self }
    }

    /// The number of the chosen entry of the history.
    pub open spec fn chosen(self) -> int {
        match self.history_row {
            Some(i) => i,
            None => 0,
        }
    }
}

/// The state after the program has started, with the history and the session of the past.
pub open spec fn started(history: Seq<HistoryView>, config: ConfigView) -> AppView {
    AppView {
        stage: Stage::InputDialog,
        input_path: config.last_input,
        output_dir: config.last_output_dir,
        input_focus: InputFocus::SourcePath,
        options: config.options,
        status: if history.len() == 0 {
            "请输入 DOCX 文件或目录路径，Enter 生成转换摘要（F2 历史）"@
        } else {
            "已加载 "@ + decimal(history.len()) + " 条历史，Enter 生成转换摘要（F2 历史）"@
        },
        quit: false,
        preflight_row: 0,
        preview_row: 0,
        history_row: if history.len() == 0 {
            None
        } else {
            Some(0)
        },
        history,
        plan: None,
        preview: None,
        running: None,
    }
}

/// "On" or "off".
pub open spec fn on_words(v: bool) -> Seq<char> {
    if v {
        "开启"@
    } else {
        "关闭"@
    }
}

/// "On" or "off", for keeping the structure.
pub open spec fn kept_words(v: bool) -> Seq<char> {
    if v {
        "开启"@
    } else {
        "关闭（平铺命名）"@
    }
}

/// "On" or "off".
pub fn show_on(v: bool) -> (r: &'static str)
    ensures
        r@ == on_words(v),
{
    if v {
        "开启"
    } else {
        "关闭"
    }
}

/// "On" or "off", for keeping the structure.
pub fn show_kept(v: bool) -> (r: &'static str)
    ensures
        r@ == kept_words(v),
{
    if v {
        "开启"
    } else {
        "关闭（平铺命名）"
    }
}

/// The other field.
pub open spec fn other_focus(focus: InputFocus) -> InputFocus {
    match focus {
        InputFocus::SourcePath => InputFocus::OutputDir,
        InputFocus::OutputDir => InputFocus::SourcePath,
    }
}

/// The state with the history shown, where there is one.
pub open spec fn history_opened(a: AppView) -> AppView {
    if a.history.len() == 0 {
        a.says("暂无历史记录"@)
    } else {
        AppView {
            history_row: Some(0),
            ..a.at(Stage::HistoryList, "历史列表：Enter 回填，Delete 删除，Esc 返回"@)
        }
    }
}

/// The text without its last character.
pub open spec fn shortened(s: Seq<char>) -> Seq<char> {
    if s.len() > 0 {
        s.drop_last()
    } else {
        s
    }
}

/// The state with the edited field changed.
pub open spec fn edited(a: AppView, text: Seq<char>) -> AppView {
    match a.input_focus {
        InputFocus::SourcePath => AppView { input_path: text, ..a },
        InputFocus::OutputDir => AppView { output_dir: text, ..a },
    }
}

/// The text of the edited field.
pub open spec fn edited_text(a: AppView) -> Seq<char> {
    match a.input_focus {
        InputFocus::SourcePath => a.input_path,
        InputFocus::OutputDir => a.output_dir,
    }
}

/// What a key does while paths are typed.
pub open spec fn input_key(a: AppView, key: Key) -> (AppView, EffectView) {
    let nothing = EffectView::Nothing;
    match key {
        Key::Esc => (AppView { quit: true, ..a }, nothing),
        Key::F(n) => if n == 2 {
            (history_opened(a), nothing)
        } else if n == 3 {
            let v = !a.options.overwrite;
            (
                AppView {
                    options: ConvertOptions { overwrite: v, ..a.options },
                    ..a.says("覆盖已切换为 "@ + on_words(v))
                },
                nothing,
            )
        } else if n == 4 {
            let v = !a.options.recursive;
            (
                AppView {
                    options: ConvertOptions { recursive: v, ..a.options },
                    ..a.says("目录递归已切换为 "@ + on_words(v))
                },
                nothing,
            )
        } else if n == 5 {
            let v = !a.options.keep_structure;
            (
                AppView {
                    options: ConvertOptions { keep_structure: v, ..a.options },
                    ..a.says("批量保留目录结构已切换为 "@ + kept_words(v))
                },
                nothing,
            )
        } else {
            (a, nothing)
        },
        Key::Tab | Key::BackTab => (
            AppView { input_focus: other_focus(a.input_focus), ..a },
            nothing,
        ),
        Key::Backspace => (edited(a, shortened(edited_text(a))), nothing),
        Key::Enter => (a, EffectView::MakePlan),
        Key::Char(c) => if c == 'q' {
            (AppView { quit: true, ..a }, nothing)
        } else {
            (edited(a, edited_text(a).push(c)), nothing)
        },
        _ => (a, nothing),
    }
}

/// The row above, where there is one.
pub open spec fn row_up(row: int) -> int {
    if row > 0 {
        row - 1
    } else {
        0
    }
}

/// The row below, or the first behind the last.
pub open spec fn row_next(row: int, rows: int) -> int {
    if row + 1 >= rows {
        0
    } else {
        row + 1
    }
}

/// The row above, or the last before the first.
pub open spec fn row_before(row: int, rows: int) -> int {
    if row == 0 {
        rows - 1
    } else {
        row - 1
    }
}

/// What is kept of the session.
pub open spec fn session_of(a: AppView) -> ConfigView {
    ConfigView {
        last_input: field_text(a.input_path),
        last_output_dir: field_text(a.output_dir),
        options: a.options,
    }
}

/// At least one.
pub open spec fn at_least_one(n: nat) -> int {
    if n > 0 {
        n as int
    } else {
        1
    }
}

/// The state with the preview of the plan running.
pub open spec fn preview_started(a: AppView, plan: PlanView) -> AppView {
    AppView {
        preview: None,
        running: Some(
            TaskView {
                kind: TaskKind::Preview,
                progress: ProgressView {
                    done: 0,
                    total: at_least_one(plan.files.len()),
                    current: "准备分析 DOCX"@,
                },
            },
        ),
        ..a.at(Stage::Working, "正在生成转换预览..."@)
    }
}

/// The state with the outputs of a preview being written.
pub open spec fn write_started(a: AppView, preview: PreviewView) -> AppView {
    AppView {
        running: Some(
            TaskView {
                kind: TaskKind::Write,
                progress: ProgressView {
                    done: 0,
                    total: at_least_one(preview.prepared.len()),
                    current: "准备写入 Markdown"@,
                },
            },
        ),
        ..a.at(Stage::Working, "正在写入输出文件..."@)
    }
}

/// The state with what a plan is missing said.
pub open spec fn plan_missing(a: AppView) -> AppView {
    a.says("缺少转换计划，请返回重新输入"@)
}

/// What a key does while the plan is shown.
pub open spec fn preflight_key(a: AppView, key: Key) -> (AppView, EffectView) {
    let nothing = EffectView::Nothing;
    let row = a.preflight_row;
    match key {
        Key::Char(c) => if c == 'q' {
            (AppView { quit: true, ..a }, nothing)
        } else {
            (a, nothing)
        },
        Key::Esc => (a.at(Stage::InputDialog, "返回输入界面"@), nothing),
        Key::Up => (AppView { preflight_row: row_up(row), ..a }, nothing),
        Key::Down | Key::Tab => (
            AppView { preflight_row: row_next(row, MENU_ROWS as int), ..a },
            nothing,
        ),
        Key::BackTab => (
            AppView { preflight_row: row_before(row, MENU_ROWS as int), ..a },
            nothing,
        ),
        Key::Enter => if row == 0 {
            match a.plan {
                Some(_) => (a, EffectView::SaveSession(config_text(session_of(a)))),
                None => (plan_missing(a), nothing),
            }
        } else if row == 1 {
            (a.at(Stage::InputDialog, "返回输入界面，可继续修改"@), nothing)
        } else if row == 2 {
            (history_opened(a), nothing)
        } else {
            (AppView { quit: true, ..a }, nothing)
        },
        _ => (a, nothing),
    }
}

/// What a key does while the preview is shown.
pub open spec fn preview_key(a: AppView, key: Key) -> (AppView, EffectView) {
    let nothing = EffectView::Nothing;
    let row = a.preview_row;
    match key {
        Key::Char(c) => if c == 'q' {
            (AppView { quit: true, ..a }, nothing)
        } else {
            (a, nothing)
        },
        Key::Esc => (a.at(Stage::InputDialog, "返回输入界面"@), nothing),
        Key::Up => (AppView { preview_row: row_up(row), ..a }, nothing),
        Key::Down | Key::Tab => (
            AppView { preview_row: row_next(row, MENU_ROWS as int), ..a },
            nothing,
        ),
        Key::BackTab => (
            AppView { preview_row: row_before(row, MENU_ROWS as int), ..a },
            nothing,
        ),
        Key::Enter => if row == 0 {
            match (a.plan, a.preview) {
                (Some(plan), Some(preview)) => (
                    write_started(a, preview),
                    EffectView::StartWrite(plan.options.overwrite),
                ),
                _ => (a.says("缺少预览数据，请先重新生成摘要"@), nothing),
            }
        } else if row == 1 {
            (a.at(Stage::InputDialog, "返回输入界面，可继续修改"@), nothing)
        } else if row == 2 {
            match a.plan {
                Some(plan) => (preview_started(a, plan), EffectView::StartPreview),
                None => (plan_missing(a), nothing),
            }
        } else {
            (AppView { quit: true, ..a }, nothing)
        },
        _ => (a, nothing),
    }
}

/// The state with the chosen entry of the history taken out.
pub open spec fn entry_deleted(a: AppView) -> AppView {
    let rest = a.history.remove(a.chosen());
    if rest.len() == 0 {
        AppView {
            history: rest,
            history_row: None,
            ..a.at(Stage::InputDialog, "历史已清空，返回输入界面"@)
        }
    } else {
        AppView {
            history: rest,
            history_row: Some(
                if a.chosen() < rest.len() {
                    a.chosen()
                } else {
                    rest.len() - 1
                },
            ),
            ..a.says("已删除该历史项"@)
        }
    }
}

/// The state with an entry of the history filled in.
pub open spec fn entry_filled_in(a: AppView, e: HistoryView) -> AppView {
    AppView {
        input_path: e.input_path,
        output_dir: e.output_dir,
        options: e.options,
        ..a.at(Stage::InputDialog, "已从历史回填输入、输出和选项"@)
    }
}

/// What a key does while the history is shown.
pub open spec fn history_key(a: AppView, key: Key) -> (AppView, EffectView) {
    let nothing = EffectView::Nothing;
    let n = a.history.len() as int;
    if n == 0 {
        (a.at(Stage::InputDialog, "暂无历史记录"@), nothing)
    } else {
        match key {
            Key::Char(c) => if c == 'q' {
                (AppView { quit: true, ..a }, nothing)
            } else {
                (a, nothing)
            },
            Key::Esc => (a.at(Stage::InputDialog, "已返回输入界面"@), nothing),
            Key::Up | Key::BackTab => (
                AppView { history_row: Some(row_before(a.chosen(), n)), ..a },
                nothing,
            ),
            Key::Down | Key::Tab => (
                AppView { history_row: Some(row_next(a.chosen(), n)), ..a },
                nothing,
            ),
            Key::Delete => (
                entry_deleted(a),
                EffectView::SaveHistory(history_text(entry_deleted(a).history), true),
            ),
            Key::Enter => (entry_filled_in(a, a.history[a.chosen()]), nothing),
            _ => (a, nothing),
        }
    }
}

/// What a key does while a task runs.
pub open spec fn working_key(a: AppView, key: Key) -> (AppView, EffectView) {
    if key == Key::Char('q') || key == Key::Esc {
        (a.says("任务执行中，暂不支持中断。请等待完成。"@), EffectView::Nothing)
    } else {
        (a, EffectView::Nothing)
    }
}

/// The error for a paste where nothing can be pasted.
pub open spec fn no_paste_here() -> ErrorView {
    ErrorView { kind: ErrorKind::InvalidInput, message: "请先返回输入界面再粘贴"@ }
}

/// The state with a failed read of the clipboard said.
pub open spec fn clipboard_failed(a: AppView, e: ErrorView) -> AppView {
    a.says("读取剪贴板失败: "@ + shown_error(e))
}

/// What a key does, alone or with Ctrl held.
pub open spec fn key_pressed(a: AppView, key: Key, ctrl: bool) -> (AppView, EffectView) {
    if ctrl && key == Key::Char('c') {
        (AppView { quit: true, ..a }, EffectView::Nothing)
    } else if ctrl && key == Key::Char('v') {
        if a.stage == Stage::InputDialog {
            (a, EffectView::ReadClipboard)
        } else {
            (clipboard_failed(a, no_paste_here()), EffectView::Nothing)
        }
    } else {
        match a.stage {
            Stage::InputDialog => input_key(a, key),
            Stage::PreflightSummary => preflight_key(a, key),
            Stage::PreviewSummary => preview_key(a, key),
            Stage::HistoryList => history_key(a, key),
            Stage::Working => working_key(a, key),
        }
    }
}

/// A pasted text without line ends and quotes, and then without white space around it.
pub open spec fn pasted_text(text: Seq<char>) -> Seq<char> {
    trimmed(cut_ends(text, CharClass::QuoteOrLineEnd))
}

/// The state with a text pasted into the edited field.
pub open spec fn pasted(a: AppView, text: Seq<char>) -> AppView {
    if a.stage != Stage::InputDialog {
        a.says("请先返回输入界面再粘贴"@)
    } else if pasted_text(text).len() == 0 {
        a.says("粘贴内容为空"@)
    } else {
        edited(a, pasted_text(text)).says(
            match a.input_focus {
                InputFocus::SourcePath => "已粘贴输入路径"@,
                InputFocus::OutputDir => "已粘贴输出目录"@,
            },
        )
    }
}

/// The state after a read of the clipboard, with its text or why there is none.
pub open spec fn clipboard_read(a: AppView, read: Result<Seq<char>, Seq<char>>) -> AppView {
    if a.stage != Stage::InputDialog {
        clipboard_failed(a, no_paste_here())
    } else {
        match read {
            Ok(text) => pasted(a, text),
            Err(reason) => clipboard_failed(
                a,
                ErrorView { kind: ErrorKind::IoFailure, message: reason },
            ),
        }
    }
}

/// The state after a plan was made, or could not be.
pub open spec fn planned(a: AppView, result: Result<PlanView, ErrorView>) -> AppView {
    match result {
        Ok(plan) => AppView {
            plan: Some(plan),
            preflight_row: 0,
            ..a.at(Stage::PreflightSummary, "请查看转换前摘要并确认"@)
        },
        Err(e) => a.says(shown_error(e)),
    }
}

/// The entry that the history keeps of a plan.
pub open spec fn entry_of_plan(plan: PlanView) -> HistoryView {
    HistoryView {
        input_path: plan.input_path,
        output_dir: plan.output_dir,
        options: plan.options,
    }
}

/// The state with the plan remembered in the history.
pub open spec fn plan_remembered(a: AppView) -> (AppView, EffectView) {
    match a.plan {
        Some(plan) if can_keep(entry_of_plan(plan)) => {
            let history = remembered(a.history, entry_of_plan(plan));
            (
                AppView { history, history_row: Some(0), ..a },
                EffectView::SaveHistory(history_text(history), false),
            )
        },
        _ => (a, EffectView::Nothing),
    }
}

/// What a report of a task does. Without a task nothing is reported.
pub open spec fn reported(a: AppView, message: MessageView) -> (AppView, EffectView) {
    let nothing = EffectView::Nothing;
    let ended = AppView { running: None, ..a };
    match a.running {
        None => (a, nothing),
        Some(task) => match message {
            MessageView::Progress(progress) => (
                AppView { running: Some(TaskView { kind: task.kind, progress }), ..a },
                nothing,
            ),
            MessageView::Gone => (ended.at(Stage::InputDialog, "后台任务异常结束"@), nothing),
            MessageView::PreviewDone(Ok(outcome)) => (
                AppView {
                    preview: Some(outcome),
                    preview_row: 0,
                    ..ended.at(
                        Stage::PreviewSummary,
                        "预览完成：可转换 "@ + decimal(outcome.prepared.len()) + "，失败 "@
                            + decimal(outcome.failures.len()) + "。请确认是否写入。"@,
                    )
                },
                nothing,
            ),
            MessageView::PreviewDone(Err(e)) => (
                ended.at(Stage::PreflightSummary, "预览失败："@ + shown_error(e)),
                nothing,
            ),
            MessageView::WriteDone(Ok(outcome)) => plan_remembered(
                ended.at(
                    Stage::PreviewSummary,
                    "写入完成：成功 "@ + decimal(outcome.wrote as nat) + "，跳过 "@ + decimal(
                        outcome.skipped as nat,
                    ) + "，失败 "@ + decimal(outcome.failed.len()),
                ),
            ),
            MessageView::WriteDone(Err(e)) => (
                ended.at(Stage::PreviewSummary, "写入失败："@ + shown_error(e)),
                nothing,
            ),
        },
    }
}

/// What the text of a clipboard, or the reason why there is none, holds.
pub open spec fn read_of(read: Result<String, String>) -> Result<Seq<char>, Seq<char>> {
    match read {
        Ok(text) => Ok(text@),
        Err(reason) => Err(reason@),
    }
}

} // verus!
