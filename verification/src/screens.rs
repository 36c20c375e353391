//! The texts on the screen.

use vstd::prelude::*;

use crate::app::{kept_words, on_words, show_kept, show_on, TaskKind};
use crate::errors::{format_app_error, shown_error};
use crate::history::{entries_of, HistoryEntry, HistoryView};
use crate::number::{decimal, show};
use crate::options::{bool_zh, switch_word, ConvertOptions};
use crate::plan::{ConversionPlan, InputType, PlanView};
use crate::preview::{failures_of, FailureView, FileFailure, PreviewOutcome, PreviewView, Progress};
use crate::text::{concat, push_text, texts, trim, trimmed};

verus! {

/// What the field of the output directory shows: how it is derived where nothing is typed.
pub open spec fn output_hint(output_dir: Seq<char>) -> Seq<char> {
    if trimmed(output_dir).len() == 0 {
        "（为空时自动推导：文件同目录 / 目录输出到 <输入目录>_md）"@
    } else {
        output_dir
    }
}

/// What the field of the output directory shows.
pub fn show_output_hint(output_dir: &str) -> (r: String)
    ensures
        r@ == output_hint(output_dir@),
{
    if trim(output_dir).as_str().is_empty() {
        "（为空时自动推导：文件同目录 / 目录输出到 <输入目录>_md）".to_owned()
    } else {
        output_dir.to_owned()
    }
}

/// The lines on the options.
pub open spec fn option_lines(options: ConvertOptions) -> Seq<Seq<char>> {
    seq![
        "覆盖已存在文件(F3): "@ + on_words(options.overwrite),
        "目录递归扫描(F4): "@ + on_words(options.recursive),
        "批量保留目录结构(F5): "@ + kept_words(options.keep_structure),
    ]
}

/// The lines on the options.
pub fn show_options(options: ConvertOptions) -> (r: Vec<String>)
    ensures
        texts(r@) == option_lines(options),
{
    let mut r: Vec<String> = Vec::new();
    r.push(concat("覆盖已存在文件(F3): ", show_on(options.overwrite)));
    r.push(concat("目录递归扫描(F4): ", show_on(options.recursive)));
    r.push(concat("批量保留目录结构(F5): ", show_kept(options.keep_structure)));
    assert(texts(r@) == option_lines(options));
    r
}

/// The three options in short.
pub open spec fn options_words(options: ConvertOptions) -> Seq<char> {
    "关键选项: 覆盖="@ + switch_word(options.overwrite) + " / 递归="@ + switch_word(
        options.recursive,
    ) + " / 保留结构="@ + switch_word(options.keep_structure)
}

/// The words for what is converted.
pub open spec fn type_words(input_type: InputType) -> Seq<char> {
    match input_type {
        InputType::SingleFile => "输入类型: 单文件"@,
        InputType::Directory => "输入类型: 目录批量"@,
    }
}

/// The lines that sum a plan up; the last one names the first output.
pub open spec fn plan_lines(plan: PlanView) -> Seq<Seq<char>> {
    let all = seq![
        "输入路径: "@ + plan.input_path,
        "输出目录: "@ + plan.output_dir,
        type_words(plan.input_type),
        "待处理文件: "@ + decimal(plan.files.len()),
        options_words(plan.options),
        "输出冲突提示: 已存在 "@ + decimal(plan.existing_outputs as nat) + " 个，平铺重命名 "@
            + decimal(plan.renamed_outputs as nat) + " 个"@,
    ];
    if plan.files.len() > 0 {
        all.push("示例输出: "@ + plan.files[0].output)
    } else {
        all
    }
}

/// The lines that sum a plan up.
pub fn show_plan(plan: &ConversionPlan) -> (r: Vec<String>)
    ensures
        texts(r@) == plan_lines(plan@),
{
    let mut r: Vec<String> = Vec::new();
    r.push(concat("输入路径: ", plan.input_path.as_str()));
    r.push(concat("输出目录: ", plan.output_dir.as_str()));
    r.push(
        match plan.input_type {
            InputType::SingleFile => "输入类型: 单文件".to_owned(),
            InputType::Directory => "输入类型: 目录批量".to_owned(),
        },
    );
    r.push(concat("待处理文件: ", show(plan.files.len()).as_str()));
    let mut options = "关键选项: 覆盖=".to_owned();
    options.append(bool_zh(plan.options.overwrite));
    options.append(" / 递归=");
    options.append(bool_zh(plan.options.recursive));
    options.append(" / 保留结构=");
    options.append(bool_zh(plan.options.keep_structure));
    r.push(options);
    let mut conflicts = "输出冲突提示: 已存在 ".to_owned();
    conflicts.append(show(plan.existing_outputs).as_str());
    conflicts.append(" 个，平铺重命名 ");
    conflicts.append(show(plan.renamed_outputs).as_str());
    conflicts.append(" 个");
    r.push(conflicts);
    if plan.files.len() > 0 {
        r.push(concat("示例输出: ", plan.files[0].output.as_str()));
    }
    assert(texts(r@) =~= plan_lines(plan@));
    r
}

/// What a conversion keeps and leaves out, in general.
pub open spec fn boundary_lines() -> Seq<Seq<char>> {
    seq![
        "边界说明："@,
        "保留: 段落、Heading1..6、简单列表"@,
        "降级: 制表符/换行为纯文本"@,
        "忽略: 图片、表格、脚注/尾注、公式"@,
    ]
}

/// The lines on what a conversion leaves out, and on the risks of a plan.
pub open spec fn risk_lines(risks: Seq<Seq<char>>) -> Seq<Seq<char>> {
    boundary_lines() + if risks.len() == 0 {
        seq!["风险提示: 暂无明显风险"@]
    } else {
        Seq::new(risks.len(), |i: int| "风险提示: "@ + risks[i])
    }
}

/// The lines on what a conversion leaves out, and on the risks of a plan.
pub fn show_risks(plan: &ConversionPlan) -> (r: Vec<String>)
    ensures
        texts(r@) == risk_lines(plan@.risks),
{
    let ghost risks = plan@.risks;
    let mut r: Vec<String> = Vec::new();
    r.push("边界说明：".to_owned());
    r.push("保留: 段落、Heading1..6、简单列表".to_owned());
    r.push("降级: 制表符/换行为纯文本".to_owned());
    r.push("忽略: 图片、表格、脚注/尾注、公式".to_owned());
    assert(texts(r@) == boundary_lines());
    let n: usize = plan.risks.len();
    assert(n == risks.len());
    if n == 0 {
        r.push("风险提示: 暂无明显风险".to_owned());
        assert(texts(r@) == risk_lines(risks));
        return r;
    }
    let ghost wanted = risk_lines(risks);
    let mut i: usize = 0;
    assert(wanted.take(4) == boundary_lines());
    while i < n
        invariant
            i <= n == plan.risks@.len(),
            n > 0,
            risks == texts(plan.risks@),
            wanted == risk_lines(risks),
            texts(r@) == wanted.take(i + 4),
        decreases n - i,
    {
        push_text(&mut r, concat("风险提示: ", plan.risks[i].as_str()));
        i = i + 1;
        assert(wanted[i + 3] == "风险提示: "@ + risks[i - 1]);
        assert(texts(r@) == wanted.take(i + 4));
    }
    assert(wanted.take(n + 4) == wanted);
    r
}

/// The lines that sum a preview up, with the first lines of the first document.
pub open spec fn preview_lines(preview: PreviewView) -> Seq<Seq<char>> {
    let t = preview.totals;
    let u = preview.unsupported;
    let counts = seq![
        "输入文件总数: "@ + decimal(preview.total_inputs as nat) + " | 可写入: "@ + decimal(
            preview.prepared.len(),
        ) + " | 失败: "@ + decimal(preview.failures.len()),
        "统计: 行数 "@ + decimal(t.lines as nat) + " / 段落 "@ + decimal(t.paragraphs as nat)
            + " / 标题 "@ + decimal(t.headings as nat) + " / 列表 "@ + decimal(
            t.list_items as nat,
        ),
        "边界统计: 表格已转 "@ + decimal(u.tables_converted as nat) + " / 表格降级 "@ + decimal(
            u.tables_degraded as nat,
        ) + " / 图片导出 "@ + decimal(u.images_exported as nat) + " / 图片未解析 "@ + decimal(
            u.images_unresolved as nat,
        ),
        "忽略统计: 脚注 "@ + decimal(u.footnotes_ignored as nat) + " / 公式 "@ + decimal(
            u.equations_ignored as nat,
        ),
    ];
    if preview.sample_lines.len() == 0 {
        counts
    } else {
        counts.push("示例输出（首个成功文件前几行）："@) + Seq::new(
            preview.sample_lines.len(),
            |i: int| "  "@ + preview.sample_lines[i],
        )
    }
}

fn two_numbers(a: &str, n: usize, b: &str, m: usize) -> (r: String)
    ensures
        r@ == a@ + decimal(n as nat) + b@ + decimal(m as nat),
{
    let mut r = a.to_owned();
    r.append(show(n).as_str());
    r.append(b);
    r.append(show(m).as_str());
    r
}

fn add_number(line: &mut String, words: &str, n: usize)
    ensures
        final(line)@ == old(line)@ + words@ + decimal(n as nat),
{
    line.append(words);
    line.append(show(n).as_str());
}

/// The lines that sum a preview up, with the first lines of the first document.
pub fn show_preview(preview: &PreviewOutcome) -> (r: Vec<String>)
    ensures
        texts(r@) == preview_lines(preview@),
{
    let t = &preview.totals;
    let u = &preview.unsupported;
    let mut r: Vec<String> = Vec::new();
    let mut inputs = two_numbers(
        "输入文件总数: ",
        preview.total_inputs,
        " | 可写入: ",
        preview.prepared.len(),
    );
    add_number(&mut inputs, " | 失败: ", preview.failures.len());
    r.push(inputs);
    let mut counts = two_numbers("统计: 行数 ", t.lines, " / 段落 ", t.paragraphs);
    add_number(&mut counts, " / 标题 ", t.headings);
    add_number(&mut counts, " / 列表 ", t.list_items);
    r.push(counts);
    let mut bounds = two_numbers(
        "边界统计: 表格已转 ",
        u.tables_converted,
        " / 表格降级 ",
        u.tables_degraded,
    );
    add_number(&mut bounds, " / 图片导出 ", u.images_exported);
    add_number(&mut bounds, " / 图片未解析 ", u.images_unresolved);
    r.push(bounds);
    r.push(
        two_numbers("忽略统计: 脚注 ", u.footnotes_ignored, " / 公式 ", u.equations_ignored),
    );
    let ghost wanted = preview_lines(preview@);
    let ghost samples = preview@.sample_lines;
    assert(texts(r@) =~= wanted.take(4));
    let n: usize = preview.sample_lines.len();
    assert(n == samples.len());
    if n == 0 {
        assert(wanted.take(4) == wanted);
        return r;
    }
    push_text(&mut r, "示例输出（首个成功文件前几行）：".to_owned());
    assert(texts(r@) =~= wanted.take(5));
    let mut i: usize = 0;
    while i < n
        invariant
            i <= n == preview.sample_lines@.len(),
            n > 0,
            samples == texts(preview.sample_lines@),
            wanted == preview_lines(preview@),
            samples == preview@.sample_lines,
            texts(r@) == wanted.take(i + 5),
        decreases n - i,
    {
        push_text(&mut r, concat("  ", preview.sample_lines[i].as_str()));
        i = i + 1;
        assert(wanted[i + 4] == "  "@ + samples[i - 1]);
        assert(texts(r@) == wanted.take(i + 5));
    }
    assert(wanted.take(n + 5) == wanted);
    r
}

/// How many lines of each kind of remark are shown.
pub const SHOWN_REMARKS: usize = 2;

/// The first remarks of a kind, and how many are left.
pub open spec fn remark_lines(
    words: Seq<char>,
    remarks: Seq<Seq<char>>,
    rest: Seq<char>,
    rest_end: Seq<char>,
) -> Seq<Seq<char>> {
    if remarks.len() > SHOWN_REMARKS {
        Seq::new(SHOWN_REMARKS as nat, |i: int| words + remarks[i]).push(
            rest + decimal((remarks.len() - SHOWN_REMARKS) as nat) + rest_end,
        )
    } else {
        Seq::new(remarks.len(), |i: int| words + remarks[i])
    }
}

/// A failure as a remark.
pub open spec fn failure_remark(f: FailureView) -> Seq<char> {
    f.src + " -> "@ + shown_error(f.error)
}

/// The failures as remarks.
pub open spec fn failure_remarks(failures: Seq<FailureView>) -> Seq<Seq<char>> {
    Seq::new(failures.len(), |i: int| failure_remark(failures[i]))
}

/// The lines on what failed and what was left out.
pub open spec fn remarks_of(preview: PreviewView) -> Seq<Seq<char>> {
    let head = seq!["失败和边界明细（最多各显示 2 条）："@];
    if preview.failures.len() == 0 && preview.degraded_files.len() == 0
        && preview.ignored_files.len() == 0 && preview.image_files.len() == 0 {
        head.push("无失败项，且无降级/忽略项"@)
    } else {
        head + remark_lines(
            "失败: "@,
            failure_remarks(preview.failures),
            "... 其余失败 "@,
            " 条请调整后重试"@,
        ) + remark_lines("降级: "@, preview.degraded_files, "... 其余降级 "@, " 条"@)
            + remark_lines("忽略: "@, preview.ignored_files, "... 其余忽略 "@, " 条"@)
            + remark_lines("图片: "@, preview.image_files, "... 其余图片提取 "@, " 条"@)
    }
}

fn add_remarks(lines: &mut Vec<String>, words: &str, remarks: &Vec<String>, rest: &str, end: &str)
    ensures
        texts(final(lines)@) == texts(old(lines)@) + remark_lines(
            words@,
            texts(remarks@),
            rest@,
            end@,
        ),
{
    let ghost was = texts(lines@);
    let ghost all = texts(remarks@);
    let ghost wanted = remark_lines(words@, all, rest@, end@);
    let n: usize = remarks.len();
    assert(n == all.len());
    let mut i: usize = 0;
    assert(was + wanted.take(0) == was);
    while i < n && i < SHOWN_REMARKS
        invariant
            i <= n == remarks@.len(),
            i <= SHOWN_REMARKS,
            all == texts(remarks@),
            wanted == remark_lines(words@, all, rest@, end@),
            texts(lines@) == was + wanted.take(i as int),
        decreases n - i,
    {
        push_text(lines, concat(words, remarks[i].as_str()));
        i = i + 1;
        assert(wanted[i - 1] == words@ + all[i - 1]);
        assert(texts(lines@) == was + wanted.take(i as int));
    }
    if n > SHOWN_REMARKS {
        let mut line = rest.to_owned();
        line.append(show(n - SHOWN_REMARKS).as_str());
        line.append(end);
        push_text(lines, line);
        assert(wanted[SHOWN_REMARKS as int] == line@);
        assert(texts(lines@) == was + wanted.take(SHOWN_REMARKS + 1));
        assert(wanted.take(SHOWN_REMARKS + 1) == wanted);
    } else {
        assert(wanted.take(i as int) == wanted);
    }
}

fn show_failures(failures: &Vec<FileFailure>) -> (r: Vec<String>)
    ensures
        texts(r@) == failure_remarks(failures_of(failures@)),
{
    let ghost wanted = failure_remarks(failures_of(failures@));
    let mut r: Vec<String> = Vec::new();
    let n: usize = failures.len();
    let mut i: usize = 0;
    assert(texts(r@) == wanted.take(0));
    while i < n
        invariant
            i <= n == failures@.len(),
            wanted == failure_remarks(failures_of(failures@)),
            texts(r@) == wanted.take(i as int),
        decreases n - i,
    {
        let f = &failures[i];
        let mut line = f.src.clone();
        line.append(" -> ");
        line.append(format_app_error(&f.error).as_str());
        push_text(&mut r, line);
        assert(wanted[i as int] == failure_remark(failures@[i as int]@));
        i = i + 1;
        assert(texts(r@) == wanted.take(i as int));
    }
    assert(wanted.take(n as int) == wanted);
    r
}

/// The lines on what failed and what was left out.
pub fn show_remarks(preview: &PreviewOutcome) -> (r: Vec<String>)
    ensures
        texts(r@) == remarks_of(preview@),
{
    let mut r: Vec<String> = Vec::new();
    r.push("失败和边界明细（最多各显示 2 条）：".to_owned());
    assert(texts(r@) == seq!["失败和边界明细（最多各显示 2 条）："@]);
    assert(preview.failures@.len() == preview@.failures.len());
    assert(preview.degraded_files@.len() == preview@.degraded_files.len());
    assert(preview.ignored_files@.len() == preview@.ignored_files.len());
    assert(preview.image_files@.len() == preview@.image_files.len());
    if preview.failures.len() == 0 && preview.degraded_files.len() == 0
        && preview.ignored_files.len() == 0 && preview.image_files.len() == 0 {
        push_text(&mut r, "无失败项，且无降级/忽略项".to_owned());
        return r;
    }
    let failures = show_failures(&preview.failures);
    add_remarks(&mut r, "失败: ", &failures, "... 其余失败 ", " 条请调整后重试");
    add_remarks(&mut r, "降级: ", &preview.degraded_files, "... 其余降级 ", " 条");
    add_remarks(&mut r, "忽略: ", &preview.ignored_files, "... 其余忽略 ", " 条");
    add_remarks(&mut r, "图片: ", &preview.image_files, "... 其余图片提取 ", " 条");
    r
}

/// The line of an entry of the history.
pub open spec fn history_line(i: int, e: HistoryView) -> Seq<char> {
    decimal((i + 1) as nat) + ". "@ + e.input_path + " | out="@ + e.output_dir + " | 覆盖:"@
        + switch_word(e.options.overwrite) + " 递归:"@ + switch_word(e.options.recursive)
        + " 保留结构:"@ + switch_word(e.options.keep_structure)
}

/// The lines of the history.
pub open spec fn history_lines(entries: Seq<HistoryView>) -> Seq<Seq<char>> {
    Seq::new(entries.len(), |i: int| history_line(i, entries[i]))
}

/// The lines of the history.
pub fn show_entries(entries: &Vec<HistoryEntry>) -> (r: Vec<String>)
    ensures
        texts(r@) == history_lines(entries_of(entries@)),
{
    let ghost wanted = history_lines(entries_of(entries@));
    let mut r: Vec<String> = Vec::new();
    let n: usize = entries.len();
    let mut i: usize = 0;
    assert(texts(r@) == wanted.take(0));
    while i < n
        invariant
            i <= n == entries@.len(),
            wanted == history_lines(entries_of(entries@)),
            texts(r@) == wanted.take(i as int),
        decreases n - i,
    {
        let e = &entries[i];
        let mut line = show(i + 1);
        line.append(". ");
        line.append(e.input_path.as_str());
        line.append(" | out=");
        line.append(e.output_dir.as_str());
        line.append(" | 覆盖:");
        line.append(bool_zh(e.overwrite));
        line.append(" 递归:");
        line.append(bool_zh(e.recursive));
        line.append(" 保留结构:");
        line.append(bool_zh(e.keep_structure));
        push_text(&mut r, line);
        assert(wanted[i as int] == history_line(i as int, entries@[i as int]@));
        i = i + 1;
        assert(texts(r@) == wanted.take(i as int));
    }
    assert(wanted.take(n as int) == wanted);
    r
}

/// The words for a task.
pub open spec fn task_words(kind: TaskKind) -> Seq<char> {
    match kind {
        TaskKind::Preview => "正在生成预览摘要"@,
        TaskKind::Write => "正在写入输出文件"@,
    }
}

/// The words for a task.
pub fn show_task(kind: TaskKind) -> (r: &'static str)
    ensures
        r@ == task_words(kind),
{
    match kind {
        TaskKind::Preview => "正在生成预览摘要",
        TaskKind::Write => "正在写入输出文件",
    }
}

/// How far a task has come, in numbers.
pub fn show_progress(progress: &Progress) -> (r: String)
    ensures
        r@ == decimal(progress.done as nat) + "/"@ + decimal(progress.total as nat),
{
    let mut r = show(progress.done);
    r.append("/");
    r.append(show(progress.total).as_str());
    r
}

} // verus!
