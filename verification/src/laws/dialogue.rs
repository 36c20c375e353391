//! The dialogue: what keys, pastes, plans and reports change, and what they leave as it is.

use vstd::prelude::*;

use crate::app::{
    clipboard_read,
    key_pressed,
    pasted,
    pasted_text,
    planned,
    reported,
    started,
    AppView,
    EffectView,
    InputFocus,
    Key,
    MessageView,
    Stage,
    TaskKind,
};
use crate::errors::{shown_error, ErrorView};
use crate::events::{config_or_initial, history_kept, history_or_none, session_kept};
use crate::history::{can_keep, history_text, remembered, HistoryView};
use crate::names::field_text;
use crate::number::decimal;
use crate::options::{config_text, ConfigView, ConvertOptions};
use crate::plan::PlanView;
use crate::preview::{PreviewView, ProgressView};
use crate::saving::{config_saved, history_saved, SaveReportView};
use crate::text::is_white;
use crate::writing::WriteView;

verus! {

/// A typed character goes to the end of the field that is edited, Backspace takes the last one off,
/// and nothing else changes.
pub proof fn typing_edits_one_field(a: AppView, c: char)
    requires
        a.stage == Stage::InputDialog,
        c != 'q',
    ensures
        ({
            let (b, effect) = key_pressed(a, Key::Char(c), false);
            &&& effect is Nothing
            &&& a.input_focus == InputFocus::SourcePath ==> b == AppView {
                input_path: a.input_path + seq![c],
                ..a
            }
            &&& a.input_focus == InputFocus::OutputDir ==> b == AppView {
                output_dir: a.output_dir + seq![c],
                ..a
            }
        }),
        ({
            let (b, effect) = key_pressed(a, Key::Backspace, false);
            &&& effect is Nothing
            &&& a.input_focus == InputFocus::SourcePath ==> b == AppView {
                input_path: b.input_path,
                ..a
            } && b.input_path == a.input_path.take(
                if a.input_path.len() > 0 {
                    a.input_path.len() - 1
                } else {
                    0
                },
            )
            &&& a.input_focus == InputFocus::OutputDir ==> b == AppView {
                output_dir: b.output_dir,
                ..a
            } && b.output_dir == a.output_dir.take(
                if a.output_dir.len() > 0 {
                    a.output_dir.len() - 1
                } else {
                    0
                },
            )
        }),
{
    assert(a.input_path.push(c) == a.input_path + seq![c]);
    assert(a.output_dir.push(c) == a.output_dir + seq![c]);
    let b = key_pressed(a, Key::Backspace, false).0;
    assert(a.input_focus == InputFocus::SourcePath ==> b.input_path == a.input_path.take(
        if a.input_path.len() > 0 {
            a.input_path.len() - 1
        } else {
            0
        },
    ));
    assert(a.input_focus == InputFocus::OutputDir ==> b.output_dir == a.output_dir.take(
        if a.output_dir.len() > 0 {
            a.output_dir.len() - 1
        } else {
            0
        },
    ));
}

/// F3, F4 and F5 switch one option each, and say so; Tab goes to the other field; Enter asks for a
/// plan of what was typed; and other keys change nothing.
pub proof fn input_keys_have_one_effect(a: AppView, key: Key)
    requires
        a.stage == Stage::InputDialog,
    ensures
        ({
            let (b, effect) = key_pressed(a, key, false);
            let o = a.options;
            &&& key == Key::F(3) ==> effect is Nothing && b == AppView {
                options: ConvertOptions { overwrite: !o.overwrite, ..o },
                status: "覆盖已切换为 "@ + if o.overwrite {
                    "关闭"@
                } else {
                    "开启"@
                },
                ..a
            }
            &&& key == Key::F(4) ==> effect is Nothing && b == AppView {
                options: ConvertOptions { recursive: !o.recursive, ..o },
                status: "目录递归已切换为 "@ + if o.recursive {
                    "关闭"@
                } else {
                    "开启"@
                },
                ..a
            }
            &&& key == Key::F(5) ==> effect is Nothing && b == AppView {
                options: ConvertOptions { keep_structure: !o.keep_structure, ..o },
                status: "批量保留目录结构已切换为 "@ + if o.keep_structure {
                    "关闭（平铺命名）"@
                } else {
                    "开启"@
                },
                ..a
            }
            &&& key == Key::Tab || key == Key::BackTab ==> effect is Nothing && b == AppView {
                input_focus: b.input_focus,
                ..a
            } && b.input_focus != a.input_focus
            &&& key == Key::Enter ==> effect is MakePlan && b == a
            &&& key == Key::Up || key == Key::Down || key == Key::Delete || key == Key::Other || (
            key matches Key::F(n) && (n < 2 || n > 5)) ==> effect is Nothing && b == a
        }),
{
}

/// The history is shown from its newest entry on; without entries nothing but the status changes.
pub proof fn history_is_shown_from_the_top(a: AppView)
    requires
        a.stage == Stage::InputDialog,
    ensures
        ({
            let (b, effect) = key_pressed(a, Key::F(2), false);
            &&& effect is Nothing
            &&& a.history.len() == 0 ==> b == AppView { status: "暂无历史记录"@, ..a }
            &&& a.history.len() > 0 ==> b == AppView {
                stage: Stage::HistoryList,
                history_row: Some(0),
                status: "历史列表：Enter 回填，Delete 删除，Esc 返回"@,
                ..a
            }
        }),
{
}

/// The row below another in a menu of so many, round its end.
pub open spec fn below(row: int, rows: int) -> int {
    (row + 1) % rows
}

/// The row above another in a menu of so many, round its end.
pub open spec fn above(row: int, rows: int) -> int {
    (row + rows - 1) % rows
}

/// While the plan is shown, Down and Tab go to the next of four rows and Shift+Tab to the one
/// before, both round the ends, and Up to the one above, where there is one.
pub proof fn plan_rows_are_walked(a: AppView)
    requires
        a.wf(),
        a.stage == Stage::PreflightSummary,
    ensures
        key_pressed(a, Key::Down, false) == (
            AppView { preflight_row: below(a.preflight_row, 4), ..a },
            EffectView::Nothing,
        ),
        key_pressed(a, Key::Tab, false) == key_pressed(a, Key::Down, false),
        key_pressed(a, Key::BackTab, false) == (
            AppView { preflight_row: above(a.preflight_row, 4), ..a },
            EffectView::Nothing,
        ),
        key_pressed(a, Key::Up, false) == (
            AppView {
                preflight_row: if a.preflight_row > 0 {
                    a.preflight_row - 1
                } else {
                    0
                },
                ..a
            },
            EffectView::Nothing,
        ),
{
}

/// While the preview is shown, the rows are walked as while the plan is shown.
pub proof fn preview_rows_are_walked(a: AppView)
    requires
        a.wf(),
        a.stage == Stage::PreviewSummary,
    ensures
        key_pressed(a, Key::Down, false) == (
            AppView { preview_row: below(a.preview_row, 4), ..a },
            EffectView::Nothing,
        ),
        key_pressed(a, Key::Tab, false) == key_pressed(a, Key::Down, false),
        key_pressed(a, Key::BackTab, false) == (
            AppView { preview_row: above(a.preview_row, 4), ..a },
            EffectView::Nothing,
        ),
        key_pressed(a, Key::Up, false) == (
            AppView {
                preview_row: if a.preview_row > 0 {
                    a.preview_row - 1
                } else {
                    0
                },
                ..a
            },
            EffectView::Nothing,
        ),
{
}

/// Enter on a row below the plan: the first keeps the session of what was typed and chosen, the
/// second goes back, the third shows the history, and the last leaves.
pub proof fn plan_rows_are_entered(a: AppView)
    requires
        a.wf(),
        a.stage == Stage::PreflightSummary,
    ensures
        ({
            let (b, effect) = key_pressed(a, Key::Enter, false);
            &&& a.preflight_row == 0 ==> b == a && effect == EffectView::SaveSession(
                config_text(
                    ConfigView {
                        last_input: field_text(a.input_path),
                        last_output_dir: field_text(a.output_dir),
                        options: a.options,
                    },
                ),
            )
            &&& a.preflight_row == 1 ==> effect is Nothing && b == AppView {
                stage: Stage::InputDialog,
                status: "返回输入界面，可继续修改"@,
                ..a
            }
            &&& a.preflight_row == 2 && a.history.len() > 0 ==> effect is Nothing && b == AppView {
                stage: Stage::HistoryList,
                history_row: Some(0),
                status: b.status,
                ..a
            }
            &&& a.preflight_row == 2 && a.history.len() == 0 ==> effect is Nothing && b == AppView {
                status: b.status,
                ..a
            }
            &&& a.preflight_row == 3 ==> effect is Nothing && b == AppView { quit: true, ..a }
        }),
{
}

/// Enter on a row below the preview: the first writes the outputs, over existing files where the
/// plan says so; the second goes back; the third makes the preview again; and the last leaves.
pub proof fn preview_rows_are_entered(a: AppView)
    requires
        a.wf(),
        a.stage == Stage::PreviewSummary,
        a.preview is Some,
    ensures
        ({
            let (b, effect) = key_pressed(a, Key::Enter, false);
            let n = a.preview.unwrap().prepared.len();
            let files = a.plan.unwrap().files.len();
            &&& a.preview_row == 0 ==> {
                &&& effect == EffectView::StartWrite(a.plan.unwrap().options.overwrite)
                &&& b == AppView {
                    stage: Stage::Working,
                    status: "正在写入输出文件..."@,
                    running: b.running,
                    ..a
                }
                &&& b.running matches Some(task) && task.kind == TaskKind::Write
                    && task.progress.done == 0 && task.progress.total == if n > 0 {
                    n as int
                } else {
                    1
                }
            }
            &&& a.preview_row == 1 ==> effect is Nothing && b == AppView {
                stage: Stage::InputDialog,
                status: "返回输入界面，可继续修改"@,
                ..a
            }
            &&& a.preview_row == 2 ==> {
                &&& effect is StartPreview
                &&& b == AppView {
                    stage: Stage::Working,
                    status: "正在生成转换预览..."@,
                    preview: None,
                    running: b.running,
                    ..a
                }
                &&& b.running matches Some(task) && task.kind == TaskKind::Preview
                    && task.progress.done == 0 && task.progress.total == if files > 0 {
                    files as int
                } else {
                    1
                }
            }
            &&& a.preview_row == 3 ==> effect is Nothing && b == AppView { quit: true, ..a }
        }),
{
}

/// While the history is shown, its entries are walked round their ends; Enter fills in the chosen
/// one, whichever it is, and goes back to where paths are typed; Delete takes the chosen one out,
/// and the file is given the rest.
pub proof fn chosen_entry_is_used(a: AppView, i: int)
    requires
        a.wf(),
        a.stage == Stage::HistoryList,
        a.history_row == Some(i),
    ensures
        ({
            let n = a.history.len() as int;
            let (filled, _) = key_pressed(a, Key::Enter, false);
            let (shorter, effect) = key_pressed(a, Key::Delete, false);
            &&& key_pressed(a, Key::Down, false) == (
                AppView { history_row: Some(below(i, n)), ..a },
                EffectView::Nothing,
            )
            &&& key_pressed(a, Key::Tab, false) == key_pressed(a, Key::Down, false)
            &&& key_pressed(a, Key::Up, false) == (
                AppView { history_row: Some(above(i, n)), ..a },
                EffectView::Nothing,
            )
            &&& key_pressed(a, Key::BackTab, false) == key_pressed(a, Key::Up, false)
            &&& key_pressed(a, Key::Enter, false).1 is Nothing
            &&& filled == AppView {
                stage: Stage::InputDialog,
                input_path: a.history[i].input_path,
                output_dir: a.history[i].output_dir,
                options: a.history[i].options,
                status: "已从历史回填输入、输出和选项"@,
                ..a
            }
            &&& shorter.history.len() == n - 1
            &&& forall|k: int|
                0 <= k < i ==> #[trigger] shorter.history[k] == a.history[k]
            &&& forall|k: int|
                i <= k < n - 1 ==> #[trigger] shorter.history[k] == a.history[k + 1]
            &&& effect == EffectView::SaveHistory(history_text(shorter.history), true)
            &&& n == 1 ==> shorter.stage == Stage::InputDialog && shorter.history_row is None
            &&& n > 1 ==> shorter.stage == Stage::HistoryList && shorter.history_row == Some(
                if i < n - 1 {
                    i
                } else {
                    n - 2
                },
            )
            &&& shorter.input_path == a.input_path && shorter.output_dir == a.output_dir
                && shorter.options == a.options
        }),
{
    let n = a.history.len() as int;
    if i + 1 < n {
        assert((i + 1) % n == i + 1) by (nonlinear_arith)
            requires
                0 <= i + 1 < n,
        ;
    } else {
        assert((i + 1) % n == 0) by (nonlinear_arith)
            requires
                i + 1 == n,
                n > 0,
        ;
    }
    if i > 0 {
        assert((i + n - 1) % n == i - 1) by (nonlinear_arith)
            requires
                0 < i < n,
        ;
    } else {
        assert((i + n - 1) % n == n - 1) by (nonlinear_arith)
            requires
                i == 0,
                n > 0,
        ;
    }
}

/// Ctrl+V asks for the clipboard where paths are typed, and elsewhere nothing but the status
/// changes.
pub proof fn clipboard_is_asked_where_paths_are_typed(a: AppView)
    ensures
        a.stage == Stage::InputDialog ==> key_pressed(a, Key::Char('v'), true) == (
            a,
            EffectView::ReadClipboard,
        ),
        a.stage != Stage::InputDialog ==> key_pressed(a, Key::Char('v'), true).1 is Nothing
            && key_pressed(a, Key::Char('v'), true).0 == (AppView {
            status: key_pressed(a, Key::Char('v'), true).0.status,
            ..a
        }),
{
}

/// A pasted text loses the line ends and quotes around it, then the white space around it, and
/// takes the place of what the edited field held; of a text with nothing left, and elsewhere,
/// nothing but the status changes.
pub proof fn pasting_replaces_one_field(
    a: AppView,
    q: Seq<char>,
    w: Seq<char>,
    s: Seq<char>,
    x: Seq<char>,
    r: Seq<char>,
)
    requires
        forall|i: int| 0 <= i < q.len() ==> #[trigger] q[i] == '"' || q[i] == '\r' || q[i] == '\n',
        forall|i: int| 0 <= i < r.len() ==> #[trigger] r[i] == '"' || r[i] == '\r' || r[i] == '\n',
        forall|i: int| 0 <= i < w.len() ==> #[trigger] w[i] == ' ',
        forall|i: int| 0 <= i < x.len() ==> #[trigger] x[i] == ' ',
        s.len() > 0,
        s[0] != '"' && s.last() != '"',
        !is_white(s[0]) && !is_white(s.last()),
    ensures
        ({
            let b = pasted(a, q + (w + s + x) + r);
            &&& pasted_text(q + (w + s + x) + r) == s
            &&& a.stage == Stage::InputDialog && a.input_focus == InputFocus::SourcePath ==> b
                == AppView { input_path: s, status: "已粘贴输入路径"@, ..a }
            &&& a.stage == Stage::InputDialog && a.input_focus == InputFocus::OutputDir ==> b
                == AppView { output_dir: s, status: "已粘贴输出目录"@, ..a }
            &&& a.stage != Stage::InputDialog ==> b == AppView {
                status: "请先返回输入界面再粘贴"@,
                ..a
            }
        }),
        pasted(a, q + r) == (AppView { status: pasted(a, q + r).status, ..a }),
{
    let mid = w + s + x;
    let class = crate::text::CharClass::QuoteOrLineEnd;
    assert forall|i: int| 0 <= i < q.len() implies class.holds(#[trigger] q[i]) by {}
    assert forall|i: int| 0 <= i < r.len() implies class.holds(#[trigger] r[i]) by {}
    assert(mid[0] == if w.len() > 0 {
        w[0]
    } else {
        s[0]
    });
    assert(mid.last() == if x.len() > 0 {
        x[x.len() - 1]
    } else {
        s.last()
    });
    super::cuts::ends_are_cut_off(q, mid, r, class);
    super::cuts::white_space_is_trimmed(w, s, x);
    let none = Seq::<char>::empty();
    super::cuts::ends_are_cut_off(q, none, r, class);
    assert(q + none + r == q + r);
    assert(none + none + none == none);
    super::cuts::white_space_is_trimmed(none, none, none);
    assert(pasted_text(q + r).len() == 0);
}

/// The text of the clipboard is pasted where paths are typed; why there is none is told, and
/// nothing else changes.
pub proof fn clipboard_is_pasted(a: AppView, read: Result<Seq<char>, Seq<char>>)
    ensures
        a.stage == Stage::InputDialog ==> match read {
            Ok(text) => clipboard_read(a, read) == pasted(a, text),
            Err(reason) => clipboard_read(a, read) == (AppView {
                status: "读取剪贴板失败: I/O 失败: "@ + reason,
                ..a
            }),
        },
        a.stage != Stage::InputDialog ==> clipboard_read(a, read) == (AppView {
            status: clipboard_read(a, read).status,
            ..a
        }),
{
    if let Err(reason) = read {
        reveal_strlit("读取剪贴板失败: ");
        reveal_strlit("读取剪贴板失败: I/O 失败: ");
        reveal_strlit("I/O 失败");
        reveal_strlit(": ");
        if a.stage == Stage::InputDialog {
            assert(clipboard_read(a, read).status =~= "读取剪贴板失败: I/O 失败: "@ + reason);
        }
    }
}

/// A plan that is made is shown, with its first row chosen; why there is none is told; nothing else
/// changes.
pub proof fn plans_are_shown(a: AppView, result: Result<PlanView, ErrorView>)
    ensures
        match result {
            Ok(plan) => planned(a, result) == (AppView {
                stage: Stage::PreflightSummary,
                plan: Some(plan),
                preflight_row: 0,
                status: "请查看转换前摘要并确认"@,
                ..a
            }),
            Err(e) => planned(a, result) == (AppView { status: shown_error(e), ..a }),
        },
{
}

/// Once the session is kept, or could not be, the preview of the plan runs, from nothing done to as
/// many documents as the plan has.
pub proof fn preview_follows_the_plan(a: AppView, report: SaveReportView)
    requires
        a.plan is Some,
    ensures
        ({
            let b = session_kept(a, report);
            let files = a.plan.unwrap().files.len();
            &&& b == AppView {
                stage: Stage::Working,
                status: "正在生成转换预览..."@,
                preview: None,
                running: b.running,
                ..a
            }
            &&& b.running matches Some(task) && task.kind == TaskKind::Preview && task.progress.done
                == 0 && task.progress.total == if files > 0 {
                files as int
            } else {
                1
            }
        }),
{
}

/// What a report on a file says: nothing where it is written, and otherwise an error that names the
/// path and the reason.
pub proof fn saves_are_reported(a: AppView, report: SaveReportView)
    ensures
        report is Saved ==> config_saved(report) is Ok && history_saved(report) is Ok
            && history_kept(a, report) == a,
        report matches SaveReportView::NoDirectory(path, e) ==> {
            &&& config_saved(report) matches Err(f) && f.message == "创建配置目录失败: "@ + path
                + ": "@ + e.message
            &&& history_saved(report) matches Err(f) && f.message == "创建历史目录失败: "@ + path
                + ": "@ + e.message && history_kept(a, report) == (AppView {
                status: "保存历史失败: "@ + shown_error(f),
                ..a
            })
        },
        report matches SaveReportView::Unwritten(path, e) ==> {
            &&& config_saved(report) matches Err(f) && f.message == "写入配置文件失败: "@ + path
                + ": "@ + e.message
            &&& history_saved(report) matches Err(f) && f.message == "写入历史失败: "@ + path + ": "@
                + e.message && history_kept(a, report) == (AppView {
                status: "保存历史失败: "@ + shown_error(f),
                ..a
            })
        },
{
}

/// A report of progress is shown, and nothing else changes; without a task nothing changes at all.
pub proof fn progress_is_shown(a: AppView, progress: ProgressView)
    ensures
        a.running is None ==> reported(a, MessageView::Progress(progress)) == (
            a,
            EffectView::Nothing,
        ),
        a.running matches Some(task) ==> {
            let (b, effect) = reported(a, MessageView::Progress(progress));
            &&& effect is Nothing
            &&& b == AppView { running: b.running, ..a }
            &&& b.running matches Some(now) && now.kind == task.kind && now.progress == progress
        },
{
}

/// A preview that is done is shown with its first row chosen, and told with the numbers of outputs
/// and failures; one that failed leads back to the plan; a task that ends without a result leads
/// back to where paths are typed. No task runs then.
pub proof fn previews_are_shown(a: AppView, result: Result<PreviewView, ErrorView>)
    requires
        a.running is Some,
    ensures
        ({
            let (b, effect) = reported(a, MessageView::PreviewDone(result));
            &&& effect is Nothing
            &&& match result {
                Ok(shown) => b == AppView {
                    stage: Stage::PreviewSummary,
                    preview: Some(shown),
                    preview_row: 0,
                    running: None,
                    status: "预览完成：可转换 "@ + decimal(shown.prepared.len()) + "，失败 "@
                        + decimal(shown.failures.len()) + "。请确认是否写入。"@,
                    ..a
                },
                Err(e) => b == AppView {
                    stage: Stage::PreflightSummary,
                    running: None,
                    status: "预览失败："@ + shown_error(e),
                    ..a
                },
            }
        }),
        reported(a, MessageView::Gone) == (
            AppView {
                stage: Stage::InputDialog,
                running: None,
                status: "后台任务异常结束"@,
                ..a
            },
            EffectView::Nothing,
        ),
{
}

/// A write that is done is told with the numbers of outputs written, skipped and failed, and its
/// plan is remembered as it was planned; one that failed is told and not remembered.
pub proof fn writes_are_remembered(a: AppView, result: Result<WriteView, ErrorView>)
    requires
        a.running is Some,
        a.plan is Some,
    ensures
        ({
            let (b, effect) = reported(a, MessageView::WriteDone(result));
            let plan = a.plan.unwrap();
            let e = HistoryView {
                input_path: plan.input_path,
                output_dir: plan.output_dir,
                options: plan.options,
            };
            match result {
                Ok(written) => {
                    let status = "写入完成：成功 "@ + decimal(written.wrote as nat) + "，跳过 "@
                        + decimal(written.skipped as nat) + "，失败 "@ + decimal(
                        written.failed.len(),
                    );
                    if can_keep(e) {
                        &&& b == AppView {
                            stage: Stage::PreviewSummary,
                            running: None,
                            status,
                            history: remembered(a.history, e),
                            history_row: Some(0),
                            ..a
                        }
                        &&& effect == EffectView::SaveHistory(
                            history_text(remembered(a.history, e)),
                            false,
                        )
                    } else {
                        &&& b == AppView {
                            stage: Stage::PreviewSummary,
                            running: None,
                            status,
                            ..a
                        }
                        &&& effect is Nothing
                    }
                },
                Err(f) => effect is Nothing && b == AppView {
                    stage: Stage::PreviewSummary,
                    running: None,
                    status: "写入失败："@ + shown_error(f),
                    ..a
                },
            }
        }),
{
}

/// The program starts where paths are typed, with the paths and options of the last session, the
/// whole history with its newest entry chosen, and nothing planned, shown or running.
pub proof fn program_starts_with_the_last_session(
    history: Result<Seq<HistoryView>, ErrorView>,
    config: Result<ConfigView, ErrorView>,
)
    ensures
        ({
            let a = started(history_or_none(history), config_or_initial(config));
            &&& a.stage == Stage::InputDialog
            &&& a.input_focus == InputFocus::SourcePath
            &&& !a.quit
            &&& a.preflight_row == 0 && a.preview_row == 0
            &&& a.plan is None && a.preview is None && a.running is None
            &&& match history {
                Ok(h) => a.history == h && (h.len() > 0 ==> a.history_row == Some(0int)),
                Err(_) => a.history.len() == 0 && a.history_row is None,
            }
            &&& a.history.len() == 0 ==> a.history_row is None
            &&& match config {
                Ok(c) => a.input_path == c.last_input && a.output_dir == c.last_output_dir
                    && a.options == c.options,
                Err(_) => a.input_path.len() == 0 && a.output_dir.len() == 0 && a.options == (
                ConvertOptions { overwrite: false, recursive: false, keep_structure: true }),
            }
        }),
{
}

} // verus!
