//! Keys: what they undo, and what they leave alone.

use vstd::prelude::*;

use crate::app::{
    entry_deleted,
    input_key,
    key_pressed,
    planned,
    reported,
    row_before,
    row_next,
    AppView,
    EffectView,
    Key,
    MessageView,
    Stage,
    TaskKind,
};
use crate::history::{can_keep, entries_in, fit, history_text, remembered, HistoryView};
use crate::plan::PlanView;
use crate::text::line_texts;
use super::files::{fit_history_survives, remembered_stands_first};
use super::texts::field_text_is_fit;

verus! {

/// To switch an option twice leaves the options as they were.
pub proof fn switching_twice_changes_nothing(a: AppView, n: u8)
    requires
        3 <= n <= 5,
    ensures
        input_key(input_key(a, Key::F(n)).0, Key::F(n)).0.options == a.options,
        input_key(a, Key::F(n)).0.options != a.options,
{
}

/// To change the field twice leaves all as it was.
pub proof fn changing_fields_twice_changes_nothing(a: AppView)
    ensures
        input_key(input_key(a, Key::Tab).0, Key::Tab).0 == a,
        input_key(a, Key::Tab) == input_key(a, Key::BackTab),
{
    assert(input_key(input_key(a, Key::Tab).0, Key::Tab).0 =~= a);
}

/// Backspace takes back the character that was typed. The key `q` types none: it leaves.
pub proof fn backspace_undoes_typing(a: AppView, c: char)
    requires
        c != 'q',
    ensures
        input_key(input_key(a, Key::Char(c)).0, Key::Backspace).0 == a,
{
    assert(a.input_path.push(c).drop_last() == a.input_path);
    assert(a.output_dir.push(c).drop_last() == a.output_dir);
    assert(input_key(input_key(a, Key::Char(c)).0, Key::Backspace).0 =~= a);
}

/// In a menu that goes round, one step back undoes one step on, and the other way round.
pub proof fn rows_go_round(row: int, rows: int)
    requires
        0 <= row < rows,
    ensures
        0 <= row_next(row, rows) < rows,
        0 <= row_before(row, rows) < rows,
        row_before(row_next(row, rows), rows) == row,
        row_next(row_before(row, rows), rows) == row,
{
}

/// Ctrl+C leaves at every stage.
pub proof fn ctrl_c_leaves(a: AppView)
    ensures
        key_pressed(a, Key::Char('c'), true).0 == (AppView { quit: true, ..a }),
{
}

/// What `q` does at each stage: it leaves, except while a task runs.
pub proof fn q_leaves(a: AppView)
    requires
        a.wf(),
    ensures
        a.stage != Stage::Working ==> key_pressed(a, Key::Char('q'), false) == (
            AppView { quit: true, ..a },
            EffectView::Nothing,
        ),
        a.stage == Stage::Working ==> key_pressed(a, Key::Char('q'), false) == (
            a.says("任务执行中，暂不支持中断。请等待完成。"@),
            EffectView::Nothing,
        ),
{
}

/// What Esc does at each stage: it leaves where paths are typed, and elsewhere goes back there,
/// except while a task runs.
pub proof fn esc_leaves_or_goes_back(a: AppView)
    requires
        a.wf(),
    ensures
        ({
            let (b, effect) = key_pressed(a, Key::Esc, false);
            &&& effect is Nothing
            &&& match a.stage {
                Stage::InputDialog => b == (AppView { quit: true, ..a }),
                Stage::PreflightSummary => b == a.at(Stage::InputDialog, "返回输入界面"@),
                Stage::PreviewSummary => b == a.at(Stage::InputDialog, "返回输入界面"@),
                Stage::HistoryList => b == a.at(Stage::InputDialog, "已返回输入界面"@),
                Stage::Working => b == a.says("任务执行中，暂不支持中断。请等待完成。"@),
            }
        }),
{
}

/// While a task runs, keys change nothing but the status line, unless the program is left.
pub proof fn tasks_are_not_disturbed(a: AppView, key: Key, ctrl: bool)
    requires
        a.stage == Stage::Working,
    ensures
        key_pressed(a, key, ctrl).0 == (AppView {
            status: key_pressed(a, key, ctrl).0.status,
            quit: key_pressed(a, key, ctrl).0.quit,
            ..a
        }),
        key_pressed(a, key, ctrl).1 is Nothing,
        !a.quit && key_pressed(a, key, ctrl).0.quit ==> ctrl && key == Key::Char('c'),
{
}

/// What was typed and chosen changes only where paths are typed, or where an entry of the history
/// is filled in.
pub proof fn inputs_are_kept(a: AppView, key: Key, ctrl: bool)
    requires
        a.wf(),
        a.stage != Stage::InputDialog,
        a.stage == Stage::HistoryList ==> key != Key::Enter,
    ensures
        key_pressed(a, key, ctrl).0.input_path == a.input_path,
        key_pressed(a, key, ctrl).0.output_dir == a.output_dir,
        key_pressed(a, key, ctrl).0.options == a.options,
        key_pressed(a, key, ctrl).0.input_focus == a.input_focus,
{
}

/// Whether there is a preview wherever one is shown or written.
pub open spec fn has_preview(a: AppView) -> bool {
    &&& a.stage == Stage::PreviewSummary ==> a.preview is Some
    &&& a.running matches Some(task) ==> (task.kind == TaskKind::Write ==> a.preview is Some)
}

/// Whether a report is of the task that runs.
pub open spec fn is_of_task(message: MessageView, kind: TaskKind) -> bool {
    match message {
        MessageView::PreviewDone(_) => kind == TaskKind::Preview,
        MessageView::WriteDone(_) => kind == TaskKind::Write,
        _ => true,
    }
}

/// No key leads to a preview that is not there.
pub proof fn keys_keep_previews(a: AppView, key: Key, ctrl: bool)
    requires
        a.wf(),
        has_preview(a),
    ensures
        has_preview(key_pressed(a, key, ctrl).0),
{
}

/// No report of the task that runs leads to a preview that is not there.
pub proof fn reports_keep_previews(a: AppView, message: MessageView)
    requires
        a.wf(),
        has_preview(a),
        a.running matches Some(task) ==> is_of_task(message, task.kind),
    ensures
        has_preview(reported(a, message).0),
{
}

/// Enter at the top of the preview writes the outputs: what it needs is there.
pub proof fn enter_writes(a: AppView)
    requires
        a.wf(),
        has_preview(a),
        a.stage == Stage::PreviewSummary,
        a.preview_row == 0,
    ensures
        key_pressed(a, Key::Enter, false).1 is StartWrite,
        key_pressed(a, Key::Enter, false).0.stage == Stage::Working,
{
}

/// A plan that is made is confirmed with Enter: the session is kept, and the preview follows.
pub proof fn enter_confirms(a: AppView, plan: PlanView)
    ensures
        key_pressed(planned(a, Ok(plan)), Key::Enter, false).1 is SaveSession,
        planned(a, Ok(plan)).stage == Stage::PreflightSummary,
{
}

/// The history key and Enter fill in the newest entry of the history.
pub proof fn history_fills_in(a: AppView)
    requires
        a.stage == Stage::InputDialog,
        a.history.len() > 0,
    ensures
        ({
            let filled = key_pressed(key_pressed(a, Key::F(2), false).0, Key::Enter, false).0;
            &&& filled.stage == Stage::InputDialog
            &&& filled.input_path == a.history[0].input_path
            &&& filled.output_dir == a.history[0].output_dir
            &&& filled.options == a.history[0].options
        }),
{
}

/// Whether a file can hold each entry of a history as it is.
pub open spec fn can_be_kept(history: Seq<HistoryView>) -> bool {
    forall|i: int|
        0 <= i < history.len() ==> can_keep(#[trigger] history[i]) && fit(history[i])
            == history[i]
}

proof fn lemma_fit_again(e: HistoryView)
    requires
        can_keep(e),
    ensures
        can_keep(fit(e)),
        fit(fit(e)) == fit(e),
{
    field_text_is_fit(e.input_path);
    field_text_is_fit(e.output_dir);
    assert(fit(fit(e)) =~= fit(e));
}

/// The history that a file is given after a conversion comes back from it as it is.
pub proof fn remembered_history_survives(history: Seq<HistoryView>, e: HistoryView)
    requires
        can_be_kept(history),
    ensures
        can_be_kept(remembered(history, e)),
        entries_in(line_texts(history_text(remembered(history, e)))) == remembered(history, e),
{
    let r = remembered(history, e);
    if can_keep(e) {
        lemma_fit_again(e);
        remembered_stands_first(history, e);
        assert forall|i: int| 0 <= i < r.len() implies can_keep(#[trigger] r[i]) && fit(r[i])
            == r[i] by {
            if i >= 1 {
                assert(history.contains(r[i]));
                let k = choose|k: int| 0 <= k < history.len() && history[k] == r[i];
                assert(can_keep(history[k]));
            }
        }
    }
    fit_history_survives(r);
}

/// The history that a file is given after an entry was deleted comes back from it as it is, and
/// is one entry shorter.
pub proof fn shortened_history_survives(a: AppView)
    requires
        a.wf(),
        a.stage == Stage::HistoryList,
        can_be_kept(a.history),
    ensures
        ({
            let rest = entry_deleted(a).history;
            &&& rest.len() == a.history.len() - 1
            &&& can_be_kept(rest)
            &&& entries_in(line_texts(history_text(rest))) == rest
        }),
{
    let rest = entry_deleted(a).history;
    assert forall|i: int| 0 <= i < rest.len() implies can_keep(#[trigger] rest[i]) && fit(rest[i])
        == rest[i] by {
        if i < a.chosen() {
            assert(rest[i] == a.history[i]);
        } else {
            assert(rest[i] == a.history[i + 1]);
        }
    }
    fit_history_survives(rest);
}

} // verus!
