use docx2md_tui::errors::{AppResult, ErrorKind, IoFailure, IoFailureKind};
use docx2md_tui::names::FilePath;
use docx2md_tui::options::ConvertOptions;
use docx2md_tui::plan::{
    build_conversion_plan, resolve_output_dir, ConversionPlan, InputLook, InputType, OutputDir,
    OutputSite, OutputsFound, PlanFindings, PlanStep,
};
use docx2md_tui::search::{collect_docx_files, DirListing, EntryLook, FoundFile};
use docx2md_tui::targets::{
    build_batch_files, count_renamed_outputs, place_documents, PathKind, Place, SourceDoc, Target,
};

fn failure() -> IoFailure {
    IoFailure {
        kind: IoFailureKind::Other,
        message: "why".to_string(),
    }
}

fn options(recursive: bool, keep_structure: bool) -> ConvertOptions {
    ConvertOptions {
        overwrite: false,
        recursive,
        keep_structure,
    }
}

fn path(parent: Option<&str>, name: Option<&str>) -> FilePath {
    FilePath {
        parent: parent.map(|p| p.to_string()),
        file_name: name.map(|n| n.to_string()),
    }
}

/// The file at a path below `root`.
fn file(number: usize, below: &str) -> EntryLook {
    EntryLook::File(FoundFile {
        number,
        text: format!("root/{below}"),
        name: below.rsplit('/').next().unwrap().to_string(),
    })
}

fn directory(dir: &str, looks: Vec<EntryLook>) -> DirListing {
    DirListing {
        dir: dir.to_string(),
        looks: Ok(looks),
    }
}

/// A directory below `root`, by its path there.
fn subdirectory(below: &str, looks: Vec<EntryLook>) -> EntryLook {
    let name = below.rsplit('/').next().unwrap().to_string();
    EntryLook::Directory(name, directory(&format!("root/{below}"), looks))
}

/// The directory `root` with the files, numbered in order. No two stand in one directory below it.
fn listing(files: &[&str]) -> DirListing {
    let looks = files
        .iter()
        .enumerate()
        .map(|(number, below)| match below.split_once('/') {
            Some((dir, _)) => subdirectory(dir, vec![file(number, below)]),
            None => file(number, below),
        })
        .collect();
    directory("root", looks)
}

fn shown(target: &Target) -> String {
    let mut parts = target.place.dirs.clone();
    parts.push(target.place.name.clone());
    format!("{}:{}={}", target.doc, target.src, parts.join("/"))
}

fn no_findings() -> PlanFindings {
    PlanFindings {
        input: None,
        listing: None,
        outputs: None,
    }
}

fn found(sites: &[(&str, bool)]) -> OutputsFound {
    OutputsFound {
        dir: "out".to_string(),
        sites: sites
            .iter()
            .map(|(p, exists)| OutputSite {
                path: p.to_string(),
                exists: *exists,
            })
            .collect(),
    }
}

fn done(step: PlanStep) -> AppResult<ConversionPlan> {
    match step {
        PlanStep::Done(result) => result,
        other => panic!("{other:?}"),
    }
}

#[test]
fn output_directory_is_derived() {
    let file = path(Some("/home"), Some("a.docx"));
    let at = |dir: OutputDir| match dir {
        OutputDir::At(p) => format!("at {p}"),
        OutputDir::Beside(n) => format!("beside {n}"),
    };
    assert_eq!(at(resolve_output_dir(&file, InputType::SingleFile, " \"x y\" ")), "at x y");
    assert_eq!(at(resolve_output_dir(&file, InputType::SingleFile, " ")), "at /home");
    assert_eq!(at(resolve_output_dir(&file, InputType::Directory, "\"\"")), "beside a.docx_md");
    let root = path(None, None);
    assert_eq!(at(resolve_output_dir(&root, InputType::SingleFile, "")), "at .");
    assert_eq!(at(resolve_output_dir(&root, InputType::Directory, "")), "beside output_md");
}

fn tree(below: Vec<EntryLook>) -> DirListing {
    directory(
        "root",
        vec![
            file(0, "b.docx"),
            EntryLook::Other,
            subdirectory("d.docx", below),
            file(1, "b.txt"),
            file(2, "a.DOCX"),
        ],
    )
}

fn found_texts(listing: &DirListing, recursive: bool) -> Vec<String> {
    collect_docx_files(listing, &Vec::new(), recursive)
        .unwrap()
        .into_iter()
        .map(|d| d.text)
        .collect()
}

#[test]
fn directories_are_searched() {
    let below = vec![
        file(3, "d.docx/x.docx"),
        subdirectory("d.docx/e", vec![file(4, "d.docx/e/y.docx")]),
    ];
    let tree = tree(below);
    let docs = collect_docx_files(&tree, &vec!["top".to_string()], true).unwrap();
    assert_eq!(docs[2].number, 4);
    assert_eq!(docs[2].place.dirs, vec!["top", "d.docx", "e"]);
    assert_eq!(docs[2].place.name, "y.docx");
    assert_eq!(found_texts(&tree, false), vec!["root/b.docx", "root/a.DOCX"]);
    assert_eq!(
        found_texts(&tree, true),
        vec![
            "root/b.docx",
            "root/d.docx/x.docx",
            "root/d.docx/e/y.docx",
            "root/a.DOCX",
        ]
    );
    let targets = build_batch_files(&tree, options(true, true)).unwrap();
    let sources: Vec<&str> = targets.iter().map(|t| t.src.as_str()).collect();
    assert_eq!(
        sources,
        vec![
            "root/a.DOCX",
            "root/b.docx",
            "root/d.docx/e/y.docx",
            "root/d.docx/x.docx",
        ]
    );
    let flat = build_batch_files(&tree, options(true, false)).unwrap();
    let flat_sources: Vec<&str> = flat.iter().map(|t| t.src.as_str()).collect();
    assert_eq!(flat_sources, sources);
    assert!(found_texts(&directory("root", Vec::new()), true).is_empty());
}

#[test]
fn unreadable_directories_are_errors() {
    let unread = DirListing {
        dir: "d".to_string(),
        looks: Err(failure()),
    };
    let err = collect_docx_files(&unread, &Vec::new(), false).unwrap_err();
    assert_eq!(err.kind, ErrorKind::IoFailure);
    assert_eq!(err.message, "无法读取目录: d: why");
    let err = build_batch_files(&unread, options(false, true)).unwrap_err();
    assert_eq!(err.message, "无法读取目录: d: why");
    let below = tree(vec![EntryLook::Unread(failure())]);
    assert_eq!(found_texts(&below, false).len(), 2);
    let err = collect_docx_files(&below, &Vec::new(), true).unwrap_err();
    assert_eq!(err.message, "无法读取目录项: root/d.docx: why");
    let untold = EntryLook::Untold("d/x".to_string(), failure());
    let err = collect_docx_files(&directory("d", vec![untold]), &Vec::new(), false).unwrap_err();
    assert_eq!(err.message, "无法读取文件类型: d/x: why");
    let below = tree(vec![EntryLook::Directory("d".to_string(), unread)]);
    assert_eq!(
        collect_docx_files(&below, &Vec::new(), true).unwrap_err().message,
        "无法读取目录: d: why"
    );
}

#[test]
fn structure_is_kept() {
    let files = listing(&["b.docx", "sub/x.v1.DOCX", "a.docx"]);
    let targets = build_batch_files(&files, options(true, true)).unwrap();
    let all: Vec<String> = targets.iter().map(shown).collect();
    assert_eq!(
        all,
        vec![
            "2:root/a.docx=a.md",
            "0:root/b.docx=b.md",
            "1:root/sub/x.v1.DOCX=sub/x.v1.md",
        ]
    );
    assert_eq!(count_renamed_outputs(&targets), 0);
}

#[test]
fn flattened_names_are_numbered() {
    let files = listing(&[
        "z/Été.docx",
        "a.docx",
        "s/A.docx",
        "t/a.docx",
        "y/été.docx",
    ]);
    let targets = build_batch_files(&files, options(true, false)).unwrap();
    let all: Vec<String> = targets.iter().map(shown).collect();
    assert_eq!(
        all,
        vec![
            "1:root/a.docx=a.md",
            "2:root/s/A.docx=A_2.md",
            "3:root/t/a.docx=a_3.md",
            "4:root/y/été.docx=été.md",
            "0:root/z/Été.docx=Été_2.md",
        ]
    );
    assert_eq!(count_renamed_outputs(&targets), 3);
}

fn flat_names(files: &[&str]) -> Vec<String> {
    let docs: Vec<SourceDoc> = files
        .iter()
        .map(|below| {
            let mut dirs: Vec<String> = below.split('/').map(|s| s.to_string()).collect();
            let name = dirs.pop().unwrap();
            SourceDoc {
                number: 0,
                text: below.to_string(),
                place: Place { dirs, name },
            }
        })
        .collect();
    place_documents(&docs, false)
        .into_iter()
        .map(|t| t.place.name)
        .collect()
}

#[test]
fn reading_order_does_not_matter() {
    let listed = |files: &[&str], keep: bool| -> Vec<String> {
        build_batch_files(&listing(files), options(true, keep))
            .unwrap()
            .iter()
            .map(|t| format!("{} {}/{}", t.src, t.place.dirs.join("/"), t.place.name))
            .collect()
    };
    let one = ["c/a.docx", "a.docx", "b/A.docx"];
    let other = ["b/A.docx", "c/a.docx", "a.docx"];
    assert_eq!(listed(&one, true), listed(&other, true));
    assert_eq!(listed(&one, false), listed(&other, false));
    assert_eq!(
        listed(&one, false),
        vec!["root/a.docx /a.md", "root/b/A.docx /A_2.md", "root/c/a.docx /a_3.md"]
    );
}

#[test]
fn flattened_names_stay_apart() {
    let names = flat_names(&["a.docx", "b/a.docx", "b/a_.docx", "c/A.docx", "c/a2.docx"]);
    assert_eq!(names, vec!["a.md", "a_2.md", "a_.md", "A_3.md", "a2.md"]);
    let numbered = flat_names(&["a.docx", "b/a.docx", "c/a_2.docx"]);
    assert_eq!(numbered, vec!["a.md", "a_2.md", "a_2.md"]);
}

#[test]
fn numbered_names_are_counted() {
    let target = |name: &str| Target {
        doc: 0,
        src: String::new(),
        place: Place {
            dirs: Vec::new(),
            name: name.to_string(),
        },
    };
    for (name, numbered) in [
        ("ab_.md", true),
        ("a_2.md", true),
        ("_2.md", false),
        ("_23.md", true),
        ("é_.md", true),
        ("a_2b.md", false),
        ("a2.md", false),
        ("123.md", false),
        ("a_2.x.md", false),
    ] {
        assert_eq!(count_renamed_outputs(&vec![target(name)]) == 1, numbered, "{name}");
    }
}

#[test]
fn planning_asks_for_what_it_needs() {
    let opts = options(true, true);
    let mut findings = no_findings();
    match build_conversion_plan(" \"in\" ", "", opts, &findings) {
        PlanStep::LookAt(p) => assert_eq!(p, "in"),
        other => panic!("{other:?}"),
    }
    findings.input = Some((path(Some("/r"), Some("in")), InputLook::Told(PathKind::Directory)));
    assert!(matches!(
        build_conversion_plan("in", "", opts, &findings),
        PlanStep::ReadDirectory
    ));
    findings.listing = Some(listing(&["b.docx", "a.docx"]));
    match build_conversion_plan("in", "", opts, &findings) {
        PlanStep::LookFor(OutputDir::Beside(name), targets) => {
            assert_eq!(name, "in_md");
            assert_eq!(targets.len(), 2);
        }
        other => panic!("{other:?}"),
    }
    findings.outputs = Some(found(&[("out/a.md", true)]));
    assert!(matches!(
        build_conversion_plan("in", "", opts, &findings),
        PlanStep::LookFor(_, _)
    ));
    findings.outputs = Some(found(&[("out/a.md", true), ("out/b.md", false)]));
    let plan = done(build_conversion_plan("in", "", opts, &findings)).unwrap();
    assert_eq!(plan.input_type, InputType::Directory);
    assert_eq!(plan.input_path, "in");
    assert_eq!(plan.output_dir, "out");
    assert_eq!(plan.options, opts);
    assert_eq!(plan.files.len(), 2);
    assert_eq!(plan.files[0].doc, 1);
    assert_eq!(plan.files[0].src, "root/a.docx");
    assert_eq!(plan.files[0].output, "out/a.md");
    assert_eq!(plan.files[1].output, "out/b.md");
    assert_eq!(plan.existing_outputs, 1);
    assert_eq!(plan.renamed_outputs, 0);
    assert_eq!(plan.risks, vec!["检测到 1 个已有输出文件，将在写入阶段自动跳过"]);
}

#[test]
fn single_file_stands_beside_its_document() {
    let findings = PlanFindings {
        input: Some((
            path(Some("/home"), Some("report.v1.docx")),
            InputLook::Told(PathKind::File),
        )),
        listing: None,
        outputs: None,
    };
    let typed = " \"/home//report.v1.docx\" ";
    match build_conversion_plan(typed, "", options(false, false), &findings) {
        PlanStep::LookFor(OutputDir::At(dir), targets) => {
            assert_eq!(dir, "/home");
            assert_eq!(targets.len(), 1);
            assert_eq!(shown(&targets[0]), "0:/home//report.v1.docx=report.v1.md");
        }
        other => panic!("{other:?}"),
    }
    let findings = PlanFindings {
        outputs: Some(found(&[("/home/report_2.md", false)])),
        ..findings
    };
    let plan = done(build_conversion_plan(typed, "", options(false, false), &findings)).unwrap();
    assert_eq!(plan.input_type, InputType::SingleFile);
    assert_eq!(plan.input_path, "/home//report.v1.docx");
    assert_eq!(plan.files[0].src, "/home//report.v1.docx");
    assert_eq!(plan.renamed_outputs, 0);
    assert!(plan.risks.is_empty());
}

#[test]
fn wrong_inputs_are_refused() {
    let refused = |raw: &str, findings: &PlanFindings| {
        done(build_conversion_plan(raw, "", options(true, true), findings)).unwrap_err()
    };
    let err = refused(" \"\" ", &no_findings());
    assert_eq!(err.kind, ErrorKind::InvalidInput);
    assert_eq!(err.message, "输入路径不能为空");
    let look = |name: &str, look: InputLook| PlanFindings {
        input: Some((path(Some("d"), Some(name)), look)),
        listing: None,
        outputs: None,
    };
    let err = refused("\"d/a.docx\"", &look("a.docx", InputLook::Missing));
    assert_eq!(err.kind, ErrorKind::FileNotFound);
    assert_eq!(err.message, "文件或目录不存在: d/a.docx");
    let err = refused(" d/a.docx", &look("a.docx", InputLook::Untold(failure())));
    assert_eq!(err.kind, ErrorKind::IoFailure);
    assert_eq!(err.message, "无法读取输入路径信息: d/a.docx: why");
    let err = refused("x", &look("a.txt", InputLook::Told(PathKind::File)));
    assert_eq!(err.message, "输入文件不是 .docx，请提供 docx 文件路径或目录路径");
    let err = refused("x", &look("a.docx", InputLook::Told(PathKind::Other)));
    assert_eq!(err.message, "输入路径既不是文件也不是目录");
    let mut empty = look("d", InputLook::Told(PathKind::Directory));
    empty.listing = Some(directory("d/d", Vec::new()));
    assert_eq!(refused("x", &empty).message, "目录中未找到可转换的 .docx 文件");
    empty.listing = Some(DirListing {
        dir: "d/d".to_string(),
        looks: Err(failure()),
    });
    assert_eq!(refused("x", &empty).message, "无法读取目录: d/d: why");
}

#[test]
fn risks_are_told() {
    let mut files = vec!["s.docx".to_string()];
    files.extend((0..100).map(|i| format!("s_{i}.docx")));
    let files: Vec<&str> = files.iter().map(|f| f.as_str()).collect();
    let sites: Vec<(&str, bool)> = (0..101).map(|i| ("x", i < 2)).collect();
    let findings = PlanFindings {
        input: Some((path(None, Some("d")), InputLook::Told(PathKind::Directory))),
        listing: Some(listing(&files)),
        outputs: Some(found(&sites)),
    };
    let plan = done(build_conversion_plan("d", "", options(false, false), &findings)).unwrap();
    assert_eq!(plan.renamed_outputs, 100);
    assert_eq!(
        plan.risks,
        vec![
            "文件数量较多（101），转换可能耗时",
            "检测到 2 个已有输出文件，将在写入阶段自动跳过",
            "目录模式未开启递归，仅处理顶层 .docx 文件",
            "平铺命名存在重名，已为 100 个文件追加序号后缀",
        ]
    );
    let overwriting = ConvertOptions {
        overwrite: true,
        recursive: true,
        keep_structure: true,
    };
    let plan = done(build_conversion_plan("d", "", overwriting, &findings)).unwrap();
    assert_eq!(plan.risks, vec!["文件数量较多（101），转换可能耗时"]);
}
