//! Texts on the screen: each tells what it is for.

use vstd::prelude::*;

use crate::app::TaskKind;
use crate::errors::shown_error;
use crate::history::HistoryView;
use crate::number::decimal;
use crate::options::ConvertOptions;
use crate::plan::{InputType, PlanView};
use crate::preview::{analysing, finished, numbered_words, PreviewView};
use crate::saving::{config_names, history_names};
use crate::screens::{
    boundary_lines,
    failure_remarks,
    history_lines,
    option_lines,
    output_hint,
    plan_lines,
    preview_lines,
    remark_lines,
    remarks_of,
    risk_lines,
    task_words,
};
use crate::text::is_white;
use super::texts::{cut_ends_is_final, trimmed_already};

verus! {

/// A choice that is on is told otherwise than one that is off.
pub open spec fn on_or_off(v: bool) -> Seq<char> {
    if v {
        seq!['开']
    } else {
        seq!['关']
    }
}

/// The plan is summed up in its own texts and numbers; the last line names its first output.
pub proof fn plans_are_summed_up(plan: PlanView)
    requires
        plan.files.len() > 0,
    ensures
        ({
            let lines = plan_lines(plan);
            &&& lines.len() == 7
            &&& lines[0] == "输入路径: "@ + plan.input_path
            &&& lines[1] == "输出目录: "@ + plan.output_dir
            &&& lines[2] == if plan.input_type == InputType::SingleFile {
                "输入类型: 单文件"@
            } else {
                "输入类型: 目录批量"@
            }
            &&& lines[3] == "待处理文件: "@ + decimal(plan.files.len())
            &&& lines[4] == "关键选项: 覆盖="@ + on_or_off(plan.options.overwrite) + " / 递归="@
                + on_or_off(plan.options.recursive) + " / 保留结构="@ + on_or_off(
                plan.options.keep_structure,
            )
            &&& lines[5] == "输出冲突提示: 已存在 "@ + decimal(plan.existing_outputs as nat)
                + " 个，平铺重命名 "@ + decimal(plan.renamed_outputs as nat) + " 个"@
            &&& lines[6] == "示例输出: "@ + plan.files[0].output
        }),
{
    lemma_words();
}

proof fn lemma_words()
    ensures
        "开"@ == seq!['开'],
        "关"@ == seq!['关'],
{
    reveal_strlit("开");
    reveal_strlit("关");
    assert("开"@ == seq!['开']);
    assert("关"@ == seq!['关']);
}

/// Each risk is told in a line of its own, in order, behind what a conversion leaves out; without a
/// risk a line says so.
pub proof fn risks_are_told(risks: Seq<Seq<char>>)
    ensures
        ({
            let lines = risk_lines(risks);
            let n = boundary_lines().len() as int;
            &&& lines.take(n) == seq![
                "边界说明："@,
                "保留: 段落、Heading1..6、简单列表"@,
                "降级: 制表符/换行为纯文本"@,
                "忽略: 图片、表格、脚注/尾注、公式"@,
            ]
            &&& risks.len() == 0 ==> lines.len() == n + 1 && lines[n]
                == "风险提示: 暂无明显风险"@
            &&& risks.len() > 0 ==> lines.len() == n + risks.len()
            &&& forall|i: int|
                0 <= i < risks.len() ==> #[trigger] lines[n + i] == "风险提示: "@ + risks[i]
        }),
{
    assert(risk_lines(risks).take(boundary_lines().len() as int) == boundary_lines());
}

/// The preview is summed up in its own numbers, and behind them stand the lines that it shows.
pub proof fn previews_are_summed_up(v: PreviewView)
    ensures
        ({
            let lines = preview_lines(v);
            let t = v.totals;
            let u = v.unsupported;
            let n = v.sample_lines.len();
            &&& lines.len() == if n == 0 {
                4
            } else {
                5 + n
            }
            &&& lines[0] == "输入文件总数: "@ + decimal(v.total_inputs as nat) + " | 可写入: "@
                + decimal(v.prepared.len()) + " | 失败: "@ + decimal(v.failures.len())
            &&& lines[1] == "统计: 行数 "@ + decimal(t.lines as nat) + " / 段落 "@ + decimal(
                t.paragraphs as nat,
            ) + " / 标题 "@ + decimal(t.headings as nat) + " / 列表 "@ + decimal(
                t.list_items as nat,
            )
            &&& lines[2] == "边界统计: 表格已转 "@ + decimal(u.tables_converted as nat)
                + " / 表格降级 "@ + decimal(u.tables_degraded as nat) + " / 图片导出 "@ + decimal(
                u.images_exported as nat,
            ) + " / 图片未解析 "@ + decimal(u.images_unresolved as nat)
            &&& lines[3] == "忽略统计: 脚注 "@ + decimal(u.footnotes_ignored as nat)
                + " / 公式 "@ + decimal(u.equations_ignored as nat)
            &&& forall|i: int|
                0 <= i < n ==> #[trigger] lines[5 + i] == seq![' ', ' '] + v.sample_lines[i]
        }),
{
    reveal_strlit("  ");
    assert("  "@ == seq![' ', ' ']);
}

/// Of remarks the first two are told, in order, and of the others their number.
pub proof fn two_remarks_are_told(
    words: Seq<char>,
    remarks: Seq<Seq<char>>,
    rest: Seq<char>,
    end: Seq<char>,
)
    ensures
        ({
            let lines = remark_lines(words, remarks, rest, end);
            &&& remarks.len() <= 2 ==> lines.len() == remarks.len()
            &&& remarks.len() > 2 ==> lines.len() == 3 && lines[2] == rest + decimal(
                (remarks.len() - 2) as nat,
            ) + end
            &&& forall|i: int|
                0 <= i < remarks.len() && i < 2 ==> #[trigger] lines[i] == words + remarks[i]
        }),
{
}

/// All remarks of a preview are told: failures with their paths and errors, then tables as plain
/// text, what was left out, and images; without any a line says so.
pub proof fn remarks_are_told(v: PreviewView)
    ensures
        ({
            let failed = failure_remarks(v.failures);
            &&& failed.len() == v.failures.len()
            &&& forall|i: int|
                0 <= i < failed.len() ==> #[trigger] failed[i] == v.failures[i].src + " -> "@
                    + shown_error(v.failures[i].error)
            &&& v.failures.len() == 0 && v.degraded_files.len() == 0 && v.ignored_files.len() == 0
                && v.image_files.len() == 0 ==> remarks_of(v).len() == 2 && remarks_of(v)[1]
                == "无失败项，且无降级/忽略项"@
            &&& v.failures.len() > 0 || v.degraded_files.len() > 0 || v.ignored_files.len() > 0
                || v.image_files.len() > 0 ==> remarks_of(v).skip(1) == remark_lines(
                "失败: "@,
                failed,
                "... 其余失败 "@,
                " 条请调整后重试"@,
            ) + remark_lines("降级: "@, v.degraded_files, "... 其余降级 "@, " 条"@) + remark_lines(
                "忽略: "@,
                v.ignored_files,
                "... 其余忽略 "@,
                " 条"@,
            ) + remark_lines("图片: "@, v.image_files, "... 其余图片提取 "@, " 条"@)
        }),
{
    let failed = failure_remarks(v.failures);
    let all = remark_lines("失败: "@, failed, "... 其余失败 "@, " 条请调整后重试"@) + remark_lines(
        "降级: "@,
        v.degraded_files,
        "... 其余降级 "@,
        " 条"@,
    ) + remark_lines("忽略: "@, v.ignored_files, "... 其余忽略 "@, " 条"@) + remark_lines(
        "图片: "@,
        v.image_files,
        "... 其余图片提取 "@,
        " 条"@,
    );
    if v.failures.len() > 0 || v.degraded_files.len() > 0 || v.ignored_files.len() > 0
        || v.image_files.len() > 0 {
        assert(remarks_of(v).skip(1) == all);
    }
}

/// Each entry of the history has a line, in order, with its number, its paths and its choices.
pub proof fn entries_are_shown(entries: Seq<HistoryView>)
    ensures
        history_lines(entries).len() == entries.len(),
        forall|i: int|
            0 <= i < entries.len() ==> #[trigger] history_lines(entries)[i] == decimal(
                (i + 1) as nat,
            ) + ". "@ + entries[i].input_path + " | out="@ + entries[i].output_dir + " | 覆盖:"@
                + on_or_off(entries[i].options.overwrite) + " 递归:"@ + on_or_off(
                entries[i].options.recursive,
            ) + " 保留结构:"@ + on_or_off(entries[i].options.keep_structure),
{
    lemma_words();
}

/// Each option is shown with its key, as on or off.
pub proof fn options_are_shown(options: ConvertOptions)
    ensures
        option_lines(options).len() == 3,
        option_lines(options)[0] == "覆盖已存在文件(F3): "@ + if options.overwrite {
            "开启"@
        } else {
            "关闭"@
        },
        option_lines(options)[1] == "目录递归扫描(F4): "@ + if options.recursive {
            "开启"@
        } else {
            "关闭"@
        },
        option_lines(options)[2] == "批量保留目录结构(F5): "@ + if options.keep_structure {
            "开启"@
        } else {
            "关闭（平铺命名）"@
        },
{
}

/// An output directory that was typed is shown as it is; of one that is blank it is told how it is
/// derived.
pub proof fn typed_directories_are_shown(s: Seq<char>, i: int)
    requires
        0 <= i < s.len(),
        !is_white(s[i]),
    ensures
        output_hint(s) == s,
{
    let mid = crate::text::cut_start(s, crate::text::CharClass::White);
    super::texts::cut_start_leaves_end(s, crate::text::CharClass::White);
    super::texts::cut_end_leaves_start(mid, crate::text::CharClass::White);
    lemma_not_cut(s, i);
}

proof fn lemma_not_cut(s: Seq<char>, i: int)
    requires
        0 <= i < s.len(),
        !is_white(s[i]),
    ensures
        crate::text::trimmed(s).len() > 0,
{
    let class = crate::text::CharClass::White;
    lemma_start_stops(s, i, class);
    let mid = crate::text::cut_start(s, class);
    super::texts::cut_start_leaves_end(s, class);
    let k = i - (s.len() - mid.len());
    assert(mid[k] == s[i]);
    lemma_end_stops(mid, k, class);
}

proof fn lemma_start_stops(s: Seq<char>, i: int, class: crate::text::CharClass)
    requires
        0 <= i < s.len(),
        !class.holds(s[i]),
    ensures
        crate::text::cut_start(s, class).len() >= s.len() - i,
    decreases i,
{
    if i > 0 && class.holds(s[0]) {
        assert(s.drop_first()[i - 1] == s[i]);
        lemma_start_stops(s.drop_first(), i - 1, class);
    }
}

proof fn lemma_end_stops(s: Seq<char>, i: int, class: crate::text::CharClass)
    requires
        0 <= i < s.len(),
        !class.holds(s[i]),
    ensures
        crate::text::cut_end(s, class).len() > i,
    decreases s.len(),
{
    if class.holds(s.last()) {
        assert(i < s.len() - 1);
        assert(s.drop_last()[i] == s[i]);
        lemma_end_stops(s.drop_last(), i, class);
    }
}

/// A document is told with its number, counted from one, the number of all, and its path.
pub proof fn documents_are_told_by_number(done: int, total: int, path: Seq<char>)
    ensures
        numbered_words("写入中"@, done, total, path) == "写入中"@ + seq![' ', '('] + decimal(
            (done + 1) as nat,
        ) + seq!['/'] + decimal(total as nat) + seq![')', ' '] + path,
        analysing(done, total, path).done == done,
        analysing(done, total, path).total == total,
        analysing(done, total, path).current == "分析中"@ + seq![' ', '('] + decimal(
            (done + 1) as nat,
        ) + seq!['/'] + decimal(total as nat) + seq![')', ' '] + path,
        finished(done, total).done == done,
        finished(done, total).total == total,
        finished(done, total).current == "已完成 "@ + decimal(done as nat) + seq!['/'] + decimal(
            total as nat,
        ),
{
    reveal_strlit(" (");
    reveal_strlit("/");
    reveal_strlit(") ");
    assert(" ("@ == seq![' ', '(']);
    assert("/"@ == seq!['/']);
    assert(") "@ == seq![')', ' ']);
}

/// The two tasks are told differently.
pub proof fn tasks_are_told()
    ensures
        task_words(TaskKind::Preview) == "正在生成预览摘要"@,
        task_words(TaskKind::Write) == "正在写入输出文件"@,
{
}

/// The history and the session are kept in files of their own, beside each other.
pub proof fn files_are_kept_apart(in_appdata: bool)
    ensures
        history_names(in_appdata).len() == config_names(in_appdata).len(),
        history_names(in_appdata).last() != config_names(in_appdata).last(),
        in_appdata ==> history_names(in_appdata) == seq!["docx2md_tui"@, "history.tsv"@]
            && config_names(in_appdata) == seq!["docx2md_tui"@, "config.tsv"@],
        !in_appdata ==> history_names(in_appdata) == seq!["docx2md_tui_history.tsv"@]
            && config_names(in_appdata) == seq!["docx2md_tui_config.tsv"@],
{
    reveal_strlit("history.tsv");
    reveal_strlit("config.tsv");
    reveal_strlit("docx2md_tui_history.tsv");
    reveal_strlit("docx2md_tui_config.tsv");
    assert("history.tsv"@.len() != "config.tsv"@.len());
    assert("docx2md_tui_history.tsv"@.len() != "docx2md_tui_config.tsv"@.len());
}

} // verus!
