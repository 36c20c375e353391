//! What the start of the program, pastes, plans and tasks do.

use vstd::prelude::*;

use crate::app::{
    clipboard_read,
    entry_of_plan,
    pasted,
    plan_remembered,
    planned,
    preview_started,
    read_of,
    reported,
    started,
    App,
    AppView,
    Effect,
    EffectView,
    InputFocus,
    MessageView,
    RunningTask,
    Stage,
    WorkerMessage,
};
use crate::errors::{
    format_app_error,
    outcome,
    shown_error,
    AppError,
    AppResult,
    ErrorKind,
    ErrorView,
};
use crate::history::{
    entries_of,
    history_outcome,
    remember,
    show_history,
    HistoryEntry,
    HistoryView,
};
use crate::number::{decimal, show};
use crate::options::{AppConfig, ConfigView};
use crate::plan::ConversionPlan;
use crate::preview::{failures_of, PreviewOutcome};
use crate::saving::{
    config_saved,
    history_saved,
    save_config,
    save_history,
    SaveReport,
    SaveReportView,
};
use crate::text::{concat, trim, trim_of, CharClass};

verus! {

/// The history to start with: none where it cannot be read.
pub open spec fn history_or_none(r: Result<Seq<HistoryView>, ErrorView>) -> Seq<HistoryView> {
    match r {
        Ok(history) => history,
        Err(_) => seq![],
    }
}

/// The session to start with: the initial one where it cannot be read.
pub open spec fn config_or_initial(r: Result<ConfigView, ErrorView>) -> ConfigView {
    match r {
        Ok(config) => config,
        Err(_) => ConfigView::initial(),
    }
}

/// The state after the session was kept, or could not be: the preview of the plan runs.
pub open spec fn session_kept(a: AppView, report: SaveReportView) -> AppView {
    let told = match config_saved(report) {
        Ok(()) => a,
        Err(e) => a.says("保存配置失败: "@ + shown_error(e)),
    };
    preview_started(told, a.plan.unwrap())
}

/// The state after the history was kept, or could not be.
pub open spec fn history_kept(a: AppView, report: SaveReportView) -> AppView {
    match history_saved(report) {
        Ok(()) => a,
        Err(e) => a.says("保存历史失败: "@ + shown_error(e)),
    }
}

fn numbers_between(a: &str, n: usize, b: &str, m: usize, c: &str) -> (r: String)
    ensures
        r@ == a@ + decimal(n as nat) + b@ + decimal(m as nat) + c@,
{
    let mut r = a.to_owned();
    r.append(show(n).as_str());
    r.append(b);
    r.append(show(m).as_str());
    r.append(c);
    r
}

impl App {
    /// The program at its start, with what came of reading the history and the session.
    pub fn new(history: AppResult<Vec<HistoryEntry>>, config: AppResult<AppConfig>) -> (r: App)
        ensures
            r@ == started(
                history_or_none(history_outcome(history)),
                config_or_initial(outcome(config)),
            ),
            r@.wf(),
    {
        let history_entries = match history {
            Ok(entries) => entries,
            Err(_) => {
                let none: Vec<HistoryEntry> = Vec::new();
                assert(entries_of(none@) == Seq::<HistoryView>::empty());
                none
            },
        };
        let config = match config {
            Ok(config) => config,
            Err(_) => AppConfig::default(),
        };
        let n: usize = history_entries.len();
        assert(n == entries_of(history_entries@).len());
        let (status, history_row) = if n == 0 {
            ("请输入 DOCX 文件或目录路径，Enter 生成转换摘要（F2 历史）".to_owned(), None)
        } else {
            let mut status = "已加载 ".to_owned();
            status.append(show(n).as_str());
            status.append(" 条历史，Enter 生成转换摘要（F2 历史）");
            (status, Some(0))
        };
        let ghost entries = entries_of(history_entries@);
        let ghost kept = config@;
        let app = App {
            stage: Stage::InputDialog,
            input_path: config.last_input,
            output_dir: config.last_output_dir,
            input_focus: InputFocus::SourcePath,
            options: config.options,
            status,
            quit: false,
            preflight_row: 0,
            preview_row: 0,
            history_row,
            history_entries,
            plan: None,
            preview: None,
            running: None,
        };
        assert(app@ =~= started(entries, kept));
        app
    }

    /// Pastes a text into the edited field.
    pub fn handle_paste(&mut self, text: &str)
        ensures
            final(self)@ == pasted(old(self)@, text@),
            old(self)@.wf() ==> final(self)@.wf(),
    {
        let ghost was = self@;
        if self.stage != Stage::InputDialog {
            self.status = "请先返回输入界面再粘贴".to_owned();
            assert(self@ =~= pasted(was, text@));
            return;
        }
        let cleaned = trim(trim_of(text, CharClass::QuoteOrLineEnd).as_str());
        if cleaned.as_str().is_empty() {
            self.status = "粘贴内容为空".to_owned();
            assert(self@ =~= pasted(was, text@));
            return;
        }
        match self.input_focus {
            InputFocus::SourcePath => {
                self.input_path = cleaned;
                self.status = "已粘贴输入路径".to_owned();
            },
            InputFocus::OutputDir => {
                self.output_dir = cleaned;
                self.status = "已粘贴输出目录".to_owned();
            },
        }
        assert(self@ =~= pasted(was, text@));
    }

    /// Pastes the text of the clipboard, or says why there is none.
    pub fn paste_from_system_clipboard(&mut self, read: Result<String, String>)
        ensures
            final(self)@ == clipboard_read(old(self)@, read_of(read)),
            old(self)@.wf() ==> final(self)@.wf(),
    {
        if self.stage != Stage::InputDialog {
            let err = AppError::new(
                ErrorKind::InvalidInput,
                "请先返回输入界面再粘贴".to_owned(),
            );
            self.clipboard_error(&err);
            return;
        }
        match read {
            Ok(text) => self.handle_paste(text.as_str()),
            Err(reason) => {
                let err = AppError::new(ErrorKind::IoFailure, reason);
                self.clipboard_error(&err);
            },
        }
    }

    /// Takes a plan, or says why there is none.
    pub fn take_plan(&mut self, result: AppResult<ConversionPlan>)
        requires
            old(self)@.wf(),
            old(self).stage == Stage::InputDialog,
        ensures
            final(self)@ == planned(old(self)@, outcome(result)),
            final(self)@.wf(),
    {
        let ghost was = self@;
        match result {
            Ok(plan) => {
                let ghost made = plan@;
                self.plan = Some(plan);
                self.preflight_row = 0;
                self.stage = Stage::PreflightSummary;
                self.status = "请查看转换前摘要并确认".to_owned();
                assert(self@ =~= planned(was, Ok(made)));
            },
            Err(e) => {
                self.status = format_app_error(&e);
                assert(self@ =~= planned(was, Err(e@)));
            },
        }
    }

    /// Goes on once the session is kept, or could not be: the preview of the plan is started.
    pub fn save_session(&mut self, report: &SaveReport) -> (r: Effect)
        requires
            old(self)@.wf(),
            old(self).stage == Stage::PreflightSummary,
        ensures
            final(self)@ == session_kept(old(self)@, report@),
            r@ == EffectView::StartPreview,
            final(self)@.wf(),
    {
        let ghost was = self@;
        if let Err(e) = save_config(report) {
            self.status = concat("保存配置失败: ", format_app_error(&e).as_str());
            assert(self@ =~= was.says("保存配置失败: "@ + shown_error(e@)));
        }
        self.start_preview_task();
        Effect::StartPreview
    }

    /// Says that the history could not be kept, where it could not.
    pub fn report_history(&mut self, report: &SaveReport)
        ensures
            final(self)@ == history_kept(old(self)@, report@),
            old(self)@.wf() ==> final(self)@.wf(),
    {
        let ghost was = self@;
        if let Err(e) = save_history(report) {
            self.status = concat("保存历史失败: ", format_app_error(&e).as_str());
            assert(self@ =~= was.says("保存历史失败: "@ + shown_error(e@)));
        }
    }

    /// Remembers the plan in the history.
    pub fn remember_history(&mut self) -> (r: Effect)
        ensures
            (final(self)@, r@) == plan_remembered(old(self)@),
    {
        let ghost was = self@;
        let entry = match &self.plan {
            Some(plan) => HistoryEntry {
                input_path: plan.input_path.clone(),
                output_dir: plan.output_dir.clone(),
                overwrite: plan.options.overwrite,
                recursive: plan.options.recursive,
                keep_structure: plan.options.keep_structure,
            },
            None => return Effect::Nothing,
        };
        assert(entry@ =~= entry_of_plan(was.plan.unwrap()));
        if remember(&mut self.history_entries, entry) {
            self.history_row = Some(0);
            assert(self@ =~= plan_remembered(was).0);
            Effect::SaveHistory(show_history(&self.history_entries), false)
        } else {
            assert(self@ =~= was);
            Effect::Nothing
        }
    }

    /// Takes in what the task in the background reports.
    pub fn poll_worker(&mut self, message: WorkerMessage) -> (r: Effect)
        requires
            old(self)@.wf(),
        ensures
            (final(self)@, r@) == reported(old(self)@, message@),
            final(self)@.wf(),
    {
        let ghost was = self@;
        let kind = match &self.running {
            Some(task) => task.kind,
            None => return Effect::Nothing,
        };
        match message {
            WorkerMessage::Progress(progress) => {
                let ghost told = progress@;
                self.running = Some(RunningTask { kind, progress });
                assert(self@ =~= reported(was, MessageView::Progress(told)).0);
                Effect::Nothing
            },
            WorkerMessage::Gone => {
                self.running = None;
                self.stage = Stage::InputDialog;
                self.status = "后台任务异常结束".to_owned();
                assert(self@ =~= reported(was, MessageView::Gone).0);
                Effect::Nothing
            },
            WorkerMessage::PreviewDone(result) => {
                self.running = None;
                self.end_preview(result);
                assert(self@ =~= reported(was, message@).0);
                Effect::Nothing
            },
            WorkerMessage::WriteDone(result) => {
                self.running = None;
                self.stage = Stage::PreviewSummary;
                match result {
                    Ok(outcome) => {
                        let failed: usize = outcome.failed.len();
                        assert(failed == failures_of(outcome.failed@).len());
                        let mut status = numbers_between(
                            "写入完成：成功 ",
                            outcome.wrote,
                            "，跳过 ",
                            outcome.skipped,
                            "，失败 ",
                        );
                        status.append(show(failed).as_str());
                        self.status = status;
                        proof {
                            lemma_remembered(was, outcome@, self@);
                        }
                        self.remember_history()
                    },
                    Err(e) => {
                        self.status = concat("写入失败：", format_app_error(&e).as_str());
                        assert(self@ =~= reported(was, MessageView::WriteDone(Err(e@))).0);
                        Effect::Nothing
                    },
                }
            },
        }
    }

    /// Shows a preview, or says why there is none.
    fn end_preview(&mut self, result: AppResult<PreviewOutcome>)
        requires
            old(self).running is None,
        ensures
            final(self)@ == match outcome(result) {
                Ok(shown) => AppView {
                    preview: Some(shown),
                    preview_row: 0,
                    ..old(self)@.at(
                        Stage::PreviewSummary,
                        "预览完成：可转换 "@ + decimal(shown.prepared.len()) + "，失败 "@
                            + decimal(shown.failures.len()) + "。请确认是否写入。"@,
                    )
                },
                Err(e) => old(self)@.at(
                    Stage::PreflightSummary,
                    "预览失败："@ + shown_error(e),
                ),
            },
    {
        let ghost was = self@;
        match result {
            Ok(shown) => {
                let ok: usize = shown.prepared.len();
                let fail: usize = shown.failures.len();
                assert(ok == shown@.prepared.len() && fail == shown@.failures.len());
                self.status = numbers_between(
                    "预览完成：可转换 ",
                    ok,
                    "，失败 ",
                    fail,
                    "。请确认是否写入。",
                );
                self.preview = Some(shown);
                self.preview_row = 0;
                self.stage = Stage::PreviewSummary;
                assert(self@ =~= (AppView {
                    preview: Some(shown@),
                    preview_row: 0,
                    ..was.at(Stage::PreviewSummary, self.status@)
                }));
            },
            Err(e) => {
                self.stage = Stage::PreflightSummary;
                self.status = concat("预览失败：", format_app_error(&e).as_str());
                assert(self@ =~= was.at(Stage::PreflightSummary, self.status@));
            },
        }
    }
}

/// What follows the end of a write is the remembering of the plan.
proof fn lemma_remembered(was: AppView, written: crate::writing::WriteView, now: AppView)
    requires
        was.wf(),
        was.running is Some,
        now == (AppView {
            running: None,
            stage: Stage::PreviewSummary,
            status: "写入完成：成功 "@ + decimal(written.wrote as nat) + "，跳过 "@ + decimal(
                written.skipped as nat,
            ) + "，失败 "@ + decimal(written.failed.len()),
            ..was
        }),
    ensures
        reported(was, MessageView::WriteDone(Ok(written))) == plan_remembered(now),
        plan_remembered(now).0.wf(),
{
    assert(now =~= AppView { running: None, ..was }.at(Stage::PreviewSummary, now.status));
}

} // verus!
