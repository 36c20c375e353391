use docx2md_tui::app::TaskKind;
use docx2md_tui::errors::{AppError, ErrorKind};
use docx2md_tui::history::HistoryEntry;
use docx2md_tui::options::ConvertOptions;
use docx2md_tui::plan::{ConversionPlan, InputType, PlannedFile};
use docx2md_tui::preview::{FileFailure, PreviewOutcome, PreviewRun, Progress};
use docx2md_tui::screens::{
    show_entries, show_options, show_output_hint, show_plan, show_preview, show_progress,
    show_remarks, show_risks, show_task,
};

fn plan(files: usize, risks: &[&str]) -> ConversionPlan {
    ConversionPlan {
        input_type: InputType::Directory,
        input_path: "in".to_string(),
        output_dir: "out".to_string(),
        options: ConvertOptions {
            overwrite: true,
            recursive: false,
            keep_structure: true,
        },
        files: (0..files)
            .map(|i| PlannedFile {
                doc: i,
                src: format!("s{i}"),
                output: format!("o{i}"),
            })
            .collect(),
        existing_outputs: 3,
        renamed_outputs: 4,
        risks: risks.iter().map(|r| r.to_string()).collect(),
    }
}

fn preview() -> PreviewOutcome {
    PreviewRun::start(plan(2, &[]).files).unwrap().outcome
}

fn texts(n: usize, word: &str) -> Vec<String> {
    (0..n).map(|i| format!("{word}{i}")).collect()
}

#[test]
fn empty_output_directory_is_explained() {
    assert_eq!(
        show_output_hint(" \t"),
        "（为空时自动推导：文件同目录 / 目录输出到 <输入目录>_md）"
    );
    assert_eq!(show_output_hint(" x "), " x ");
}

#[test]
fn options_are_listed() {
    let options = ConvertOptions {
        overwrite: true,
        recursive: false,
        keep_structure: false,
    };
    assert_eq!(
        show_options(options),
        vec![
            "覆盖已存在文件(F3): 开启",
            "目录递归扫描(F4): 关闭",
            "批量保留目录结构(F5): 关闭（平铺命名）",
        ]
    );
    assert_eq!(
        show_options(ConvertOptions::default())[2],
        "批量保留目录结构(F5): 开启"
    );
}

#[test]
fn plan_is_summed_up() {
    assert_eq!(
        show_plan(&plan(2, &[])),
        vec![
            "输入路径: in",
            "输出目录: out",
            "输入类型: 目录批量",
            "待处理文件: 2",
            "关键选项: 覆盖=开 / 递归=关 / 保留结构=开",
            "输出冲突提示: 已存在 3 个，平铺重命名 4 个",
            "示例输出: o0",
        ]
    );
    let mut single = plan(0, &[]);
    single.input_type = InputType::SingleFile;
    let lines = show_plan(&single);
    assert_eq!(lines.len(), 6);
    assert_eq!(lines[2], "输入类型: 单文件");
}

#[test]
fn risks_are_listed() {
    let lines = show_risks(&plan(1, &[]));
    assert_eq!(
        lines,
        vec![
            "边界说明：",
            "保留: 段落、Heading1..6、简单列表",
            "降级: 制表符/换行为纯文本",
            "忽略: 图片、表格、脚注/尾注、公式",
            "风险提示: 暂无明显风险",
        ]
    );
    let lines = show_risks(&plan(1, &["a", "b"]));
    assert_eq!(lines[4..], ["风险提示: a", "风险提示: b"]);
}

#[test]
fn preview_is_summed_up() {
    let mut outcome = preview();
    outcome.totals.lines = 1;
    outcome.totals.paragraphs = 2;
    outcome.totals.headings = 3;
    outcome.totals.list_items = 4;
    outcome.unsupported.tables_converted = 5;
    outcome.unsupported.tables_degraded = 6;
    outcome.unsupported.images_exported = 7;
    outcome.unsupported.images_unresolved = 8;
    outcome.unsupported.footnotes_ignored = 9;
    outcome.unsupported.equations_ignored = 10;
    let counts = vec![
        "输入文件总数: 2 | 可写入: 0 | 失败: 0",
        "统计: 行数 1 / 段落 2 / 标题 3 / 列表 4",
        "边界统计: 表格已转 5 / 表格降级 6 / 图片导出 7 / 图片未解析 8",
        "忽略统计: 脚注 9 / 公式 10",
    ];
    assert_eq!(show_preview(&outcome), counts);
    outcome.sample_lines = texts(2, "line");
    assert_eq!(
        show_preview(&outcome)[4..],
        ["示例输出（首个成功文件前几行）：", "  line0", "  line1"]
    );
}

#[test]
fn remarks_are_listed() {
    let mut outcome = preview();
    assert_eq!(
        show_remarks(&outcome),
        vec!["失败和边界明细（最多各显示 2 条）：", "无失败项，且无降级/忽略项"]
    );
    for i in 0..3 {
        outcome.failures.push(FileFailure {
            src: format!("s{i}"),
            error: AppError::new(ErrorKind::ParseFailed, "m".to_string()),
        });
    }
    outcome.degraded_files = texts(2, "d");
    outcome.ignored_files = texts(5, "i");
    outcome.image_files = texts(1, "p");
    assert_eq!(
        show_remarks(&outcome),
        vec![
            "失败和边界明细（最多各显示 2 条）：",
            "失败: s0 -> 解析失败: m",
            "失败: s1 -> 解析失败: m",
            "... 其余失败 1 条请调整后重试",
            "降级: d0",
            "降级: d1",
            "忽略: i0",
            "忽略: i1",
            "... 其余忽略 3 条",
            "图片: p0",
        ]
    );
    outcome.image_files = texts(3, "p");
    outcome.degraded_files = texts(3, "d");
    let lines = show_remarks(&outcome);
    assert_eq!(lines[6], "... 其余降级 1 条");
    assert_eq!(lines[12], "... 其余图片提取 1 条");
}

#[test]
fn history_is_listed() {
    let entries = vec![HistoryEntry {
        input_path: "a".to_string(),
        output_dir: "b".to_string(),
        overwrite: true,
        recursive: false,
        keep_structure: true,
    }];
    assert_eq!(
        show_entries(&entries),
        vec!["1. a | out=b | 覆盖:开 递归:关 保留结构:开"]
    );
}

#[test]
fn tasks_are_named() {
    assert_eq!(show_task(TaskKind::Preview), "正在生成预览摘要");
    assert_eq!(show_task(TaskKind::Write), "正在写入输出文件");
    let progress = Progress {
        done: 3,
        total: 12,
        current: String::new(),
    };
    assert_eq!(show_progress(&progress), "3/12");
}
