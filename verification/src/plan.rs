//! The plan of a conversion.

use vstd::prelude::*;

use crate::errors::{
    io_error,
    map_io_error,
    AppError,
    AppResult,
    ErrorKind,
    ErrorView,
    IoFailure,
    IoFailureView,
};
use crate::names::{docx_name, is_docx_path, sanitize_path_input, typed_path, FilePath, PathView};
use crate::number::{decimal, show};
use crate::options::ConvertOptions;
use crate::search::DirListing;
use crate::targets::{
    batch_of,
    build_batch_files,
    count_renamed_outputs,
    numbered_before,
    single_file,
    single_target,
    targets_of,
    PathKind,
    Target,
    TargetView,
};
use crate::text::{concat, texts};

verus! {

/// What is converted.
#[derive(Clone, Copy, Debug, PartialEq, Eq, Structural)]
pub enum InputType {
    SingleFile,
    Directory,
}

/// Where results go.
#[derive(Clone, Debug)]
pub enum OutputDir {
    /// To the directory at the path.
    At(String),
    /// To the directory of the name that stands beside the input.
    Beside(String),
}

/// Where results go.
pub enum OutputDirView {
    At(Seq<char>),
    Beside(Seq<char>),
}

impl View for OutputDir {
    type V = OutputDirView;

    open spec fn view(&self) -> OutputDirView {
        match self {
            OutputDir::At(path) => OutputDirView::At(path@),
            OutputDir::Beside(name) => OutputDirView::Beside(name@),
        }
    }
}

/// The directory that results go to: the one that was typed, or without one the directory of a
/// file, and beside a directory the one with `_md` behind its name.
pub open spec fn output_dir_of(
    path: PathView,
    input_type: InputType,
    output_raw: Seq<char>,
) -> OutputDirView {
    let typed = typed_path(output_raw);
    if typed.len() > 0 {
        OutputDirView::At(typed)
    } else {
        match input_type {
            InputType::SingleFile => OutputDirView::At(
                match path.parent {
                    Some(parent) => parent,
                    None => "."@,
                },
            ),
            InputType::Directory => OutputDirView::Beside(
                match path.file_name {
                    Some(name) => name,
                    None => "output"@,
                } + "_md"@,
            ),
        }
    }
}

/// The directory that results go to.
pub fn resolve_output_dir(path: &FilePath, input_type: InputType, output_raw: &str) -> (r: OutputDir)
    ensures
        r@ == output_dir_of(path@, input_type, output_raw@),
{
    let output = sanitize_path_input(output_raw);
    if !output.as_str().is_empty() {
        return OutputDir::At(output);
    }
    match input_type {
        InputType::SingleFile => match &path.parent {
            Some(parent) => OutputDir::At(parent.clone()),
            None => OutputDir::At(".".to_owned()),
        },
        InputType::Directory => {
            let mut base = match &path.file_name {
                Some(name) => name.clone(),
                None => "output".to_owned(),
            };
            base.append("_md");
            OutputDir::Beside(base)
        },
    }
}

/// What came of looking at the input path.
#[derive(Debug)]
pub enum InputLook {
    /// Nothing is there.
    Missing,
    /// Something is there, and what it is cannot be told.
    Untold(IoFailure),
    /// What is there.
    Told(PathKind),
}

/// What came of looking at the input path.
pub enum InputLookView {
    Missing,
    Untold(IoFailureView),
    Told(PathKind),
}

impl View for InputLook {
    type V = InputLookView;

    open spec fn view(&self) -> InputLookView {
        match self {
            InputLook::Missing => InputLookView::Missing,
            InputLook::Untold(e) => InputLookView::Untold(e@),
            InputLook::Told(kind) => InputLookView::Told(*kind),
        }
    }
}

/// An error of the kind for wrong input.
pub open spec fn wrong_input(message: Seq<char>) -> ErrorView {
    ErrorView { kind: ErrorKind::InvalidInput, message }
}

/// What is converted: a DOCX file, or a directory.
pub open spec fn input_type_of(
    input: Seq<char>,
    path: PathView,
    look: InputLookView,
) -> Result<InputType, ErrorView> {
    match look {
        InputLookView::Missing => Err(
            ErrorView {
                kind: ErrorKind::FileNotFound,
                message: "文件或目录不存在: "@ + input,
            },
        ),
        InputLookView::Untold(e) => Err(io_error(e, "无法读取输入路径信息: "@ + input)),
        InputLookView::Told(PathKind::File) => if docx_name(path.file_name) {
            Ok(InputType::SingleFile)
        } else {
            Err(wrong_input("输入文件不是 .docx，请提供 docx 文件路径或目录路径"@))
        },
        InputLookView::Told(PathKind::Directory) => Ok(InputType::Directory),
        InputLookView::Told(PathKind::Other) => Err(wrong_input("输入路径既不是文件也不是目录"@)),
    }
}

/// What a kind of input, or the error in its place, holds.
pub open spec fn input_outcome(r: AppResult<InputType>) -> Result<InputType, ErrorView> {
    match r {
        Ok(input_type) => Ok(input_type),
        Err(e) => Err(e@),
    }
}

fn refuse(message: &str) -> (r: AppError)
    ensures
        r@ == wrong_input(message@),
{
    AppError::new(ErrorKind::InvalidInput, message.to_owned())
}

/// What is converted.
pub fn input_type(input: &str, path: &FilePath, look: &InputLook) -> (r: AppResult<InputType>)
    ensures
        input_outcome(r) == input_type_of(input@, path@, look@),
{
    match look {
        InputLook::Missing => Err(
            AppError::new(
                ErrorKind::FileNotFound,
                concat("文件或目录不存在: ", input),
            ),
        ),
        InputLook::Untold(e) => Err(
            map_io_error(e, concat("无法读取输入路径信息: ", input).as_str()),
        ),
        InputLook::Told(PathKind::File) => {
            if is_docx_path(path) {
                Ok(InputType::SingleFile)
            } else {
                Err(refuse("输入文件不是 .docx，请提供 docx 文件路径或目录路径"))
            }
        },
        InputLook::Told(PathKind::Directory) => Ok(InputType::Directory),
        InputLook::Told(PathKind::Other) => Err(refuse("输入路径既不是文件也不是目录")),
    }
}

/// A document, and the file that its result is written to.
#[derive(Clone, Debug)]
pub struct PlannedFile {
    /// The number that the document is known by.
    pub doc: usize,
    pub src: String,
    pub output: String,
}

/// What a planned file holds.
#[verifier::ext_equal]
pub struct PlannedView {
    pub doc: int,
    pub src: Seq<char>,
    pub output: Seq<char>,
}

impl View for PlannedFile {
    type V = PlannedView;

    open spec fn view(&self) -> PlannedView {
        PlannedView { doc: self.doc as int, src: self.src@, output: self.output@ }
    }
}

/// What each planned file of a list holds.
pub open spec fn planned_of(files: Seq<PlannedFile>) -> Seq<PlannedView> {
    Seq::new(files.len(), |i: int| files[i]@)
}

/// The plan of a conversion.
#[derive(Clone, Debug)]
pub struct ConversionPlan {
    pub input_type: InputType,
    pub input_path: String,
    pub output_dir: String,
    pub options: ConvertOptions,
    pub files: Vec<PlannedFile>,
    pub existing_outputs: usize,
    pub renamed_outputs: usize,
    pub risks: Vec<String>,
}

/// What a plan holds.
#[verifier::ext_equal]
pub struct PlanView {
    pub input_type: InputType,
    pub input_path: Seq<char>,
    pub output_dir: Seq<char>,
    pub options: ConvertOptions,
    pub files: Seq<PlannedView>,
    pub existing_outputs: int,
    pub renamed_outputs: int,
    pub risks: Seq<Seq<char>>,
}

impl View for ConversionPlan {
    type V = PlanView;

    open spec fn view(&self) -> PlanView {
        PlanView {
            input_type: self.input_type,
            input_path: self.input_path@,
            output_dir: self.output_dir@,
            options: self.options,
            files: planned_of(self.files@),
            existing_outputs: self.existing_outputs as int,
            renamed_outputs: self.renamed_outputs as int,
            risks: texts(self.risks@),
        }
    }
}

/// The file that a result is written to: its path, and whether it is there already.
#[derive(Clone, Debug)]
pub struct OutputSite {
    pub path: String,
    pub exists: bool,
}

/// What a site holds.
pub struct SiteView {
    pub path: Seq<char>,
    pub exists: bool,
}

impl View for OutputSite {
    type V = SiteView;

    open spec fn view(&self) -> SiteView {
        SiteView { path: self.path@, exists: self.exists }
    }
}

/// What each site of a list holds.
pub open spec fn sites_of(sites: Seq<OutputSite>) -> Seq<SiteView> {
    Seq::new(sites.len(), |i: int| sites[i]@)
}

/// The output directory, and the files that the results are written to in it.
#[derive(Clone, Debug)]
pub struct OutputsFound {
    pub dir: String,
    pub sites: Vec<OutputSite>,
}

/// What was found of the outputs.
pub struct OutputsView {
    pub dir: Seq<char>,
    pub sites: Seq<SiteView>,
}

impl View for OutputsFound {
    type V = OutputsView;

    open spec fn view(&self) -> OutputsView {
        OutputsView { dir: self.dir@, sites: sites_of(self.sites@) }
    }
}

/// How many of the first `n` files are there already.
pub open spec fn existing_before(sites: Seq<SiteView>, n: int) -> nat
    decreases n,
{
    if n <= 0 {
        0
    } else {
        existing_before(sites, n - 1) + if sites[n - 1].exists {
            1nat
        } else {
            0
        }
    }
}

/// A list with one text more, where a condition holds.
pub open spec fn with_if(list: Seq<Seq<char>>, condition: bool, text: Seq<char>) -> Seq<Seq<char>> {
    if condition {
        list.push(text)
    } else {
        list
    }
}

/// What the user is told of before a conversion.
pub open spec fn risks_of(
    files: nat,
    existing: nat,
    renamed: nat,
    input_type: InputType,
    options: ConvertOptions,
) -> Seq<Seq<char>> {
    let many = with_if(
        seq![],
        files > 100,
        "文件数量较多（"@ + decimal(files) + "），转换可能耗时"@,
    );
    let skipped = with_if(
        many,
        existing > 0 && !options.overwrite,
        "检测到 "@ + decimal(existing) + " 个已有输出文件，将在写入阶段自动跳过"@,
    );
    let flat = with_if(
        skipped,
        input_type == InputType::Directory && !options.recursive,
        "目录模式未开启递归，仅处理顶层 .docx 文件"@,
    );
    with_if(
        flat,
        renamed > 0,
        "平铺命名存在重名，已为 "@ + decimal(renamed) + " 个文件追加序号后缀"@,
    )
}

/// How many targets were given numbers: none unless a directory is flattened.
pub open spec fn renamed_of(
    targets: Seq<TargetView>,
    input_type: InputType,
    options: ConvertOptions,
) -> nat {
    if input_type == InputType::Directory && !options.keep_structure {
        numbered_before(targets, targets.len() as int)
    } else {
        0
    }
}

/// The plan over targets, with what was found of their outputs.
pub open spec fn plan_over(
    input_type: InputType,
    input_path: Seq<char>,
    options: ConvertOptions,
    targets: Seq<TargetView>,
    outputs: OutputsView,
) -> PlanView {
    let existing = existing_before(outputs.sites, outputs.sites.len() as int);
    let renamed = renamed_of(targets, input_type, options);
    PlanView {
        input_type,
        input_path,
        output_dir: outputs.dir,
        options,
        files: Seq::new(
            targets.len(),
            |i: int|
                PlannedView {
                    doc: targets[i].doc,
                    src: targets[i].src,
                    output: outputs.sites[i].path,
                },
        ),
        existing_outputs: existing as int,
        renamed_outputs: renamed as int,
        risks: risks_of(targets.len(), existing, renamed, input_type, options),
    }
}

/// What has been found out for a plan so far.
#[derive(Debug)]
pub struct PlanFindings {
    /// What is known of the input path, and what came of looking at it.
    pub input: Option<(FilePath, InputLook)>,
    /// What came of reading the input directory.
    pub listing: Option<DirListing>,
    /// The files that the results are written to.
    pub outputs: Option<OutputsFound>,
}

/// What has been found out for a plan so far.
pub struct FindingsView {
    pub input: Option<(PathView, InputLookView)>,
    pub listing: Option<DirListing>,
    pub outputs: Option<OutputsView>,
}

impl View for PlanFindings {
    type V = FindingsView;

    open spec fn view(&self) -> FindingsView {
        FindingsView {
            input: match self.input {
                Some((path, look)) => Some((path@, look@)),
                None => None,
            },
            listing: self.listing,
            outputs: match self.outputs {
                Some(outputs) => Some(outputs@),
                None => None,
            },
        }
    }
}

/// What has to be done next for a plan.
#[derive(Debug)]
pub enum PlanStep {
    /// The input path has to be looked at.
    LookAt(String),
    /// The input directory has to be read, and all below it where the search is recursive.
    ReadDirectory,
    /// The targets have to be looked for in the output directory.
    LookFor(OutputDir, Vec<Target>),
    /// Nothing: this is what came of it.
    Done(AppResult<ConversionPlan>),
}

/// What has to be done next for a plan.
pub enum PlanStepView {
    LookAt(Seq<char>),
    ReadDirectory,
    LookFor(OutputDirView, Seq<TargetView>),
    Done(Result<PlanView, ErrorView>),
}

impl View for PlanStep {
    type V = PlanStepView;

    open spec fn view(&self) -> PlanStepView {
        match self {
            PlanStep::LookAt(path) => PlanStepView::LookAt(path@),
            PlanStep::ReadDirectory => PlanStepView::ReadDirectory,
            PlanStep::LookFor(dir, targets) => PlanStepView::LookFor(
                dir@,
                targets_of(targets@),
            ),
            PlanStep::Done(Ok(plan)) => PlanStepView::Done(Ok(plan@)),
            PlanStep::Done(Err(e)) => PlanStepView::Done(Err(e@)),
        }
    }
}

/// The step behind targets: they are looked for, until what was found covers them.
pub open spec fn step_over(
    input_type: InputType,
    input: Seq<char>,
    path: PathView,
    output_raw: Seq<char>,
    options: ConvertOptions,
    targets: Seq<TargetView>,
    outputs: Option<OutputsView>,
) -> PlanStepView {
    if targets.len() == 0 {
        PlanStepView::Done(Err(wrong_input("目录中未找到可转换的 .docx 文件"@)))
    } else {
        match outputs {
            Some(found) if found.sites.len() == targets.len() => PlanStepView::Done(
                Ok(plan_over(input_type, input, options, targets, found)),
            ),
            _ => PlanStepView::LookFor(output_dir_of(path, input_type, output_raw), targets),
        }
    }
}

/// The next step of a plan, by what was typed and what has been found out.
pub open spec fn plan_step(
    input_raw: Seq<char>,
    output_raw: Seq<char>,
    options: ConvertOptions,
    findings: FindingsView,
) -> PlanStepView {
    let input = typed_path(input_raw);
    if input.len() == 0 {
        PlanStepView::Done(Err(wrong_input("输入路径不能为空"@)))
    } else {
        match findings.input {
            None => PlanStepView::LookAt(input),
            Some((path, look)) => match input_type_of(input, path, look) {
                Err(e) => PlanStepView::Done(Err(e)),
                Ok(InputType::SingleFile) => step_over(
                    InputType::SingleFile,
                    input,
                    path,
                    output_raw,
                    options,
                    seq![single_target(input, path.file_name)],
                    findings.outputs,
                ),
                Ok(InputType::Directory) => match findings.listing {
                    None => PlanStepView::ReadDirectory,
                    Some(listing) => match batch_of(listing, options) {
                        Err(e) => PlanStepView::Done(Err(e)),
                        Ok(targets) => step_over(
                            InputType::Directory,
                            input,
                            path,
                            output_raw,
                            options,
                            targets,
                            findings.outputs,
                        ),
                    },
                },
            },
        }
    }
}

fn number_between(words: &str, n: usize, rest: &str) -> (r: String)
    ensures
        r@ == words@ + decimal(n as nat) + rest@,
{
    let mut r = words.to_owned();
    r.append(show(n).as_str());
    r.append(rest);
    r
}

fn count_existing(sites: &Vec<OutputSite>) -> (r: usize)
    ensures
        r == existing_before(sites_of(sites@), sites@.len() as int),
{
    let ghost all = sites_of(sites@);
    let n: usize = sites.len();
    let mut count: usize = 0;
    let mut i: usize = 0;
    while i < n
        invariant
            i <= n == sites@.len(),
            all == sites_of(sites@),
            count <= i,
            count == existing_before(all, i as int),
        decreases n - i,
    {
        assert(all[i as int] == sites@[i as int]@);
        if sites[i].exists {
            count = count + 1;
        }
        i = i + 1;
    }
    count
}

fn push_if(list: &mut Vec<String>, condition: bool, text: String)
    ensures
        texts(final(list)@) == with_if(texts(old(list)@), condition, text@),
{
    let ghost was = texts(list@);
    if condition {
        list.push(text);
        assert(texts(list@) == was.push(text@));
    }
}

fn list_risks(
    files: usize,
    existing: usize,
    renamed: usize,
    input_type: InputType,
    options: ConvertOptions,
) -> (r: Vec<String>)
    ensures
        texts(r@) == risks_of(
            files as nat,
            existing as nat,
            renamed as nat,
            input_type,
            options,
        ),
{
    let mut risks: Vec<String> = Vec::new();
    assert(texts(risks@) == Seq::<Seq<char>>::empty());
    push_if(
        &mut risks,
        files > 100,
        number_between("文件数量较多（", files, "），转换可能耗时"),
    );
    push_if(
        &mut risks,
        existing > 0 && !options.overwrite,
        number_between("检测到 ", existing, " 个已有输出文件，将在写入阶段自动跳过"),
    );
    push_if(
        &mut risks,
        input_type == InputType::Directory && !options.recursive,
        "目录模式未开启递归，仅处理顶层 .docx 文件".to_owned(),
    );
    push_if(
        &mut risks,
        renamed > 0,
        number_between("平铺命名存在重名，已为 ", renamed, " 个文件追加序号后缀"),
    );
    risks
}

fn plan_files(targets: &Vec<Target>, sites: &Vec<OutputSite>) -> (r: Vec<PlannedFile>)
    requires
        sites@.len() == targets@.len(),
    ensures
        planned_of(r@) == Seq::new(
            targets@.len(),
            |i: int|
                PlannedView {
                    doc: targets_of(targets@)[i].doc,
                    src: targets_of(targets@)[i].src,
                    output: sites_of(sites@)[i].path,
                },
        ),
{
    let n: usize = targets.len();
    let mut files: Vec<PlannedFile> = Vec::new();
    while files.len() < n
        invariant
            files@.len() <= n == targets@.len(),
            sites@.len() == n,
            forall|i: int|
                0 <= i < files@.len() ==> (#[trigger] files@[i])@ == (PlannedView {
                    doc: targets@[i].doc as int,
                    src: targets@[i].src@,
                    output: sites@[i].path@,
                }),
        decreases n - files.len(),
    {
        let i: usize = files.len();
        files.push(
            PlannedFile {
                doc: targets[i].doc,
                src: targets[i].src.clone(),
                output: sites[i].path.clone(),
            },
        );
    }
    files
}

/// The step behind targets.
fn after_targets(
    input_type: InputType,
    input: &str,
    path: &FilePath,
    output_raw: &str,
    options: ConvertOptions,
    targets: Vec<Target>,
    outputs: &Option<OutputsFound>,
) -> (r: PlanStep)
    ensures
        r@ == step_over(
            input_type,
            input@,
            path@,
            output_raw@,
            options,
            targets_of(targets@),
            match *outputs {
                Some(found) => Some(found@),
                None => None,
            },
        ),
{
    if targets.len() == 0 {
        return PlanStep::Done(Err(refuse("目录中未找到可转换的 .docx 文件")));
    }
    if let Some(found) = outputs {
        assert(found@.sites.len() == found.sites@.len());
        if found.sites.len() == targets.len() {
            let existing = count_existing(&found.sites);
            let renamed: usize = if input_type == InputType::Directory
                && !options.keep_structure {
                count_renamed_outputs(&targets)
            } else {
                0
            };
            let plan = ConversionPlan {
                input_type,
                input_path: input.to_owned(),
                output_dir: found.dir.clone(),
                options,
                files: plan_files(&targets, &found.sites),
                existing_outputs: existing,
                renamed_outputs: renamed,
                risks: list_risks(targets.len(), existing, renamed, input_type, options),
            };
            assert(plan@ =~= plan_over(
                input_type,
                input@,
                options,
                targets_of(targets@),
                found@,
            ));
            return PlanStep::Done(Ok(plan));
        }
    }
    PlanStep::LookFor(resolve_output_dir(path, input_type, output_raw), targets)
}

/// Says what has to be done next for a plan, by what was typed and what has been found out, until
/// the plan is made or cannot be made.
pub fn build_conversion_plan(
    input_raw: &str,
    output_raw: &str,
    options: ConvertOptions,
    findings: &PlanFindings,
) -> (r: PlanStep)
    ensures
        r@ == plan_step(input_raw@, output_raw@, options, findings@),
{
    let input = sanitize_path_input(input_raw);
    if input.as_str().is_empty() {
        return PlanStep::Done(Err(refuse("输入路径不能为空")));
    }
    let (path, look) = match &findings.input {
        Some((path, look)) => (path, look),
        None => return PlanStep::LookAt(input),
    };
    match input_type(input.as_str(), path, look) {
        Err(e) => PlanStep::Done(Err(e)),
        Ok(InputType::SingleFile) => {
            let mut targets: Vec<Target> = Vec::new();
            targets.push(single_file(input.as_str(), path));
            assert(targets_of(targets@) == seq![single_target(input@, path@.file_name)]);
            after_targets(
                InputType::SingleFile,
                input.as_str(),
                path,
                output_raw,
                options,
                targets,
                &findings.outputs,
            )
        },
        Ok(InputType::Directory) => match &findings.listing {
            None => PlanStep::ReadDirectory,
            Some(listing) => match build_batch_files(listing, options) {
                Err(e) => PlanStep::Done(Err(e)),
                Ok(targets) => after_targets(
                    InputType::Directory,
                    input.as_str(),
                    path,
                    output_raw,
                    options,
                    targets,
                    &findings.outputs,
                ),
            },
        },
    }
}

} // verus!
