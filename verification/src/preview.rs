//! The preview: the documents of a plan converted, and nothing written yet.

use vstd::prelude::*;

use crate::archive::{extract_markdown_from_docx, extracted, DocxSource};
use crate::errors::{outcome, AppError, AppResult, ErrorKind, ErrorView};
use crate::number::{decimal, show};
use crate::plan::{planned_of, PlannedFile, PlannedView};
use crate::summary::{
    assets_of,
    AssetFile,
    AssetView,
    ParseStats,
    ParsedMarkdown,
    ParsedView,
    StatsView,
    UnsupportedSummary,
    UnsupportedView,
};
use crate::text::{line_texts, lines, push_text, texts};

verus! {

/// How many lines of the first document the preview shows.
pub const PREVIEW_SAMPLE_LINES: usize = 8;

/// How far a task has come.
#[derive(Clone, Debug)]
pub struct Progress {
    pub done: usize,
    pub total: usize,
    pub current: String,
}

/// How far a task has come.
#[verifier::ext_equal]
pub struct ProgressView {
    pub done: int,
    pub total: int,
    pub current: Seq<char>,
}

impl View for Progress {
    type V = ProgressView;

    open spec fn view(&self) -> ProgressView {
        ProgressView {
            done: self.done as int,
            total: self.total as int,
            current: self.current@,
        }
    }
}

/// A converted document, ready to be written.
#[derive(Clone, Debug)]
pub struct PreparedOutput {
    /// The number that the document is known by.
    pub doc: usize,
    pub src: String,
    pub output: String,
    pub markdown: String,
    pub assets: Vec<AssetFile>,
}

/// What a prepared output holds.
#[verifier::ext_equal]
pub struct PreparedView {
    pub doc: int,
    pub src: Seq<char>,
    pub output: Seq<char>,
    pub markdown: Seq<char>,
    pub assets: Seq<AssetView>,
}

impl View for PreparedOutput {
    type V = PreparedView;

    open spec fn view(&self) -> PreparedView {
        PreparedView {
            doc: self.doc as int,
            src: self.src@,
            output: self.output@,
            markdown: self.markdown@,
            assets: assets_of(self.assets@),
        }
    }
}

/// What each prepared output of a list holds.
pub open spec fn prepared_of(prepared: Seq<PreparedOutput>) -> Seq<PreparedView> {
    Seq::new(prepared.len(), |i: int| prepared[i]@)
}

/// A document that failed.
#[derive(Clone, Debug)]
pub struct FileFailure {
    pub src: String,
    pub error: AppError,
}

/// What a failure holds.
#[verifier::ext_equal]
pub struct FailureView {
    pub src: Seq<char>,
    pub error: ErrorView,
}

impl View for FileFailure {
    type V = FailureView;

    open spec fn view(&self) -> FailureView {
        FailureView { src: self.src@, error: self.error@ }
    }
}

/// What each failure of a list holds.
pub open spec fn failures_of(failures: Seq<FileFailure>) -> Seq<FailureView> {
    Seq::new(failures.len(), |i: int| failures[i]@)
}

/// What a preview shows.
#[derive(Clone, Debug)]
pub struct PreviewOutcome {
    pub total_inputs: usize,
    pub prepared: Vec<PreparedOutput>,
    pub failures: Vec<FileFailure>,
    pub totals: ParseStats,
    pub unsupported: UnsupportedSummary,
    pub sample_lines: Vec<String>,
    pub degraded_files: Vec<String>,
    pub ignored_files: Vec<String>,
    pub image_files: Vec<String>,
}

/// What a preview shows.
#[verifier::ext_equal]
pub struct PreviewView {
    pub total_inputs: int,
    pub prepared: Seq<PreparedView>,
    pub failures: Seq<FailureView>,
    pub totals: StatsView,
    pub unsupported: UnsupportedView,
    pub sample_lines: Seq<Seq<char>>,
    pub degraded_files: Seq<Seq<char>>,
    pub ignored_files: Seq<Seq<char>>,
    pub image_files: Seq<Seq<char>>,
}

impl View for PreviewOutcome {
    type V = PreviewView;

    open spec fn view(&self) -> PreviewView {
        PreviewView {
            total_inputs: self.total_inputs as int,
            prepared: prepared_of(self.prepared@),
            failures: failures_of(self.failures@),
            totals: self.totals@,
            unsupported: self.unsupported@,
            sample_lines: texts(self.sample_lines@),
            degraded_files: texts(self.degraded_files@),
            ignored_files: texts(self.ignored_files@),
            image_files: texts(self.image_files@),
        }
    }
}

impl PreviewView {
    /// The preview of so many documents before any is converted.
    pub open spec fn start(total: int) -> PreviewView {
        PreviewView {
            total_inputs: total,
            prepared: seq![],
            failures: seq![],
            totals: StatsView::zero(),
            unsupported: UnsupportedView::zero(),
            sample_lines: seq![],
            degraded_files: seq![],
            ignored_files: seq![],
            image_files: seq![],
        }
    }

    /// Whether the counts can take those of one document more.
    pub open spec fn has_room(self, result: Result<ParsedView, ErrorView>) -> bool {
        match result {
            Ok(parsed) => self.totals.plus(parsed.stats).fits() && self.unsupported.plus(
                parsed.unsupported,
            ).fits(),
            Err(_) => true,
        }
    }

    /// The preview with what came of one document more.
    pub open spec fn with_result(
        self,
        file: PlannedView,
        result: Result<ParsedView, ErrorView>,
    ) -> PreviewView {
        match result {
            Ok(parsed) => PreviewView {
                prepared: self.prepared.push(
                    PreparedView {
                        doc: file.doc,
                        src: file.src,
                        output: file.output,
                        markdown: parsed.markdown,
                        assets: parsed.assets,
                    },
                ),
                totals: self.totals.plus(parsed.stats),
                unsupported: self.unsupported.plus(parsed.unsupported),
                sample_lines: if self.sample_lines.len() == 0 {
                    sample_of(parsed.markdown)
                } else {
                    self.sample_lines
                },
                degraded_files: if parsed.unsupported.tables_degraded > 0 {
                    self.degraded_files.push(degraded_line(file.src, parsed.unsupported))
                } else {
                    self.degraded_files
                },
                ignored_files: if parsed.unsupported.images_unresolved > 0
                    || parsed.unsupported.footnotes_ignored > 0
                    || parsed.unsupported.equations_ignored > 0 {
                    self.ignored_files.push(ignored_line(file.src, parsed.unsupported))
                } else {
                    self.ignored_files
                },
                image_files: if parsed.unsupported.images_exported > 0 {
                    self.image_files.push(images_line(file.src, parsed.unsupported))
                } else {
                    self.image_files
                },
                ..self
            },
            Err(e) => PreviewView {
                failures: self.failures.push(FailureView { src: file.src, error: e }),
                ..self
            },
        }
    }
}

/// The first lines of a Markdown text.
pub open spec fn sample_of(markdown: Seq<char>) -> Seq<Seq<char>> {
    let all = line_texts(markdown);
    if all.len() > PREVIEW_SAMPLE_LINES {
        all.take(PREVIEW_SAMPLE_LINES as int)
    } else {
        all
    }
}

/// The line on the tables of a document that became plain text.
pub open spec fn degraded_line(src: Seq<char>, u: UnsupportedView) -> Seq<char> {
    src + " (复杂表格降级 "@ + decimal(u.tables_degraded as nat) + " 个)"@
}

/// The line on what is left out of a document.
pub open spec fn ignored_line(src: Seq<char>, u: UnsupportedView) -> Seq<char> {
    src + " (图片未解析 "@ + decimal(u.images_unresolved as nat) + " / 脚注忽略 "@ + decimal(
        u.footnotes_ignored as nat,
    ) + " / 公式忽略 "@ + decimal(u.equations_ignored as nat) + ")"@
}

/// The line on the images of a document.
pub open spec fn images_line(src: Seq<char>, u: UnsupportedView) -> Seq<char> {
    src + " (提取图片 "@ + decimal(u.images_exported as nat) + " 个)"@
}

/// The preview of the first `n` documents, by what came of converting each.
pub open spec fn preview_after(
    files: Seq<PlannedView>,
    results: Seq<Result<ParsedView, ErrorView>>,
    n: int,
) -> PreviewView
    decreases n,
{
    if n <= 0 {
        PreviewView::start(files.len() as int)
    } else {
        preview_after(files, results, n - 1).with_result(files[n - 1], results[n - 1])
    }
}

/// A preview in the making.
#[derive(Debug)]
pub struct PreviewRun {
    pub files: Vec<PlannedFile>,
    /// How many documents have been converted.
    pub done: usize,
    pub outcome: PreviewOutcome,
}

impl PreviewRun {
    /// What the run shows is the preview of the documents that have been converted: each of them
    /// is ready to be written or has failed.
    pub open spec fn wf(&self) -> bool {
        &&& self.done <= self.files@.len()
        &&& self.outcome@.total_inputs == self.files@.len()
        &&& self.outcome@.prepared.len() + self.outcome@.failures.len() == self.done
        &&& is_preview_of(planned_of(self.files@), self.done as int, self.outcome@)
    }
}

/// Whether a preview is the one of the first `n` documents, for some results of converting them.
pub open spec fn is_preview_of(files: Seq<PlannedView>, n: int, shown: PreviewView) -> bool {
    exists|results: Seq<Result<ParsedView, ErrorView>>|
        results.len() == n && #[trigger] preview_after(files, results, n) == shown
}

proof fn lemma_earlier_results(
    files: Seq<PlannedView>,
    results: Seq<Result<ParsedView, ErrorView>>,
    result: Result<ParsedView, ErrorView>,
    n: int,
)
    requires
        n <= results.len(),
    ensures
        preview_after(files, results.push(result), n) == preview_after(files, results, n),
    decreases n,
{
    if n > 0 {
        lemma_earlier_results(files, results, result, n - 1);
    }
}

/// One document more makes the preview of one more.
proof fn lemma_preview_goes_on(
    files: Seq<PlannedView>,
    n: int,
    shown: PreviewView,
    result: Result<ParsedView, ErrorView>,
)
    requires
        0 <= n,
        is_preview_of(files, n, shown),
    ensures
        is_preview_of(files, n + 1, shown.with_result(files[n], result)),
{
    let results = choose|results: Seq<Result<ParsedView, ErrorView>>|
        results.len() == n && #[trigger] preview_after(files, results, n) == shown;
    lemma_earlier_results(files, results, result, n);
    assert(preview_after(files, results.push(result), n + 1) == shown.with_result(
        files[n],
        result,
    ));
}

/// The words for a document, by what is done with it and its number.
pub open spec fn numbered_words(words: Seq<char>, done: int, total: int, path: Seq<char>) -> Seq<
    char,
> {
    words + " ("@ + decimal((done + 1) as nat) + "/"@ + decimal(total as nat) + ") "@ + path
}

/// The words for a document, by what is done with it and its number.
pub fn show_numbered(words: &str, done: usize, total: usize, path: &str) -> (r: String)
    requires
        done < total,
    ensures
        r@ == numbered_words(words@, done as int, total as int, path@),
{
    let mut r = words.to_owned();
    r.append(" (");
    r.append(show(done + 1).as_str());
    r.append("/");
    r.append(show(total).as_str());
    r.append(") ");
    r.append(path);
    r
}

/// The words for a document that is being converted.
pub open spec fn analysing(done: int, total: int, src: Seq<char>) -> ProgressView {
    ProgressView { done, total, current: numbered_words("分析中"@, done, total, src) }
}

/// The words for a document that is finished.
pub open spec fn finished(done: int, total: int) -> ProgressView {
    ProgressView {
        done,
        total,
        current: "已完成 "@ + decimal(done as nat) + "/"@ + decimal(total as nat),
    }
}

/// The words for a document that is finished.
pub fn show_finished(done: usize, total: usize) -> (r: Progress)
    ensures
        r@ == finished(done as int, total as int),
{
    let mut current = "已完成 ".to_owned();
    current.append(show(done).as_str());
    current.append("/");
    current.append(show(total).as_str());
    Progress { done, total, current }
}

fn one_number(src: &str, words: &str, n: usize) -> (r: String)
    ensures
        r@ == src@ + words@ + decimal(n as nat) + " 个)"@,
{
    let mut r = src.to_owned();
    r.append(words);
    r.append(show(n).as_str());
    r.append(" 个)");
    r
}

fn show_ignored(src: &str, u: &UnsupportedSummary) -> (r: String)
    ensures
        r@ == ignored_line(src@, u@),
{
    let mut r = src.to_owned();
    r.append(" (图片未解析 ");
    r.append(show(u.images_unresolved).as_str());
    r.append(" / 脚注忽略 ");
    r.append(show(u.footnotes_ignored).as_str());
    r.append(" / 公式忽略 ");
    r.append(show(u.equations_ignored).as_str());
    r.append(")");
    r
}

fn sample_lines(markdown: &str) -> (r: Vec<String>)
    ensures
        texts(r@) == sample_of(markdown@),
{
    let mut all = lines(markdown);
    let ghost every = texts(all@);
    if all.len() > PREVIEW_SAMPLE_LINES {
        all.truncate(PREVIEW_SAMPLE_LINES);
        assert(texts(all@) == every.take(PREVIEW_SAMPLE_LINES as int));
    }
    all
}

impl PreviewOutcome {
    /// Whether the counts can take those of one document more.
    pub fn can_take(&self, result: &AppResult<ParsedMarkdown>) -> (r: bool)
        ensures
            r == self@.has_room(outcome(*result)),
    {
        match result {
            Ok(parsed) => {
                let t = &self.totals;
                let p = &parsed.stats;
                let u = &self.unsupported;
                let q = &parsed.unsupported;
                t.lines.checked_add(p.lines).is_some()
                    && t.paragraphs.checked_add(p.paragraphs).is_some()
                    && t.headings.checked_add(p.headings).is_some()
                    && t.list_items.checked_add(p.list_items).is_some()
                    && u.tables_converted.checked_add(q.tables_converted).is_some()
                    && u.tables_degraded.checked_add(q.tables_degraded).is_some()
                    && u.images_exported.checked_add(q.images_exported).is_some()
                    && u.images_unresolved.checked_add(q.images_unresolved).is_some()
                    && u.footnotes_ignored.checked_add(q.footnotes_ignored).is_some()
                    && u.equations_ignored.checked_add(q.equations_ignored).is_some()
            },
            Err(_) => true,
        }
    }

    /// Takes in what came of one document more.
    pub fn take(&mut self, file: &PlannedFile, result: AppResult<ParsedMarkdown>)
        requires
            old(self)@.has_room(outcome(result)),
        ensures
            final(self)@ == old(self)@.with_result(file@, outcome(result)),
    {
        let ghost was = self@;
        let ghost came = outcome(result);
        match result {
            Ok(parsed) => {
                assert(self.sample_lines@.len() == texts(self.sample_lines@).len());
                if self.sample_lines.len() == 0 {
                    self.sample_lines = sample_lines(parsed.markdown.as_str());
                }
                self.totals.add(&parsed.stats);
                self.unsupported.add(&parsed.unsupported);
                let u = parsed.unsupported;
                if u.tables_degraded > 0 {
                    push_text(
                        &mut self.degraded_files,
                        one_number(file.src.as_str(), " (复杂表格降级 ", u.tables_degraded),
                    );
                }
                if u.images_unresolved > 0 || u.footnotes_ignored > 0 || u.equations_ignored > 0 {
                    push_text(&mut self.ignored_files, show_ignored(file.src.as_str(), &u));
                }
                if u.images_exported > 0 {
                    push_text(
                        &mut self.image_files,
                        one_number(file.src.as_str(), " (提取图片 ", u.images_exported),
                    );
                }
                let prepared = PreparedOutput {
                    doc: file.doc,
                    src: file.src.clone(),
                    output: file.output.clone(),
                    markdown: parsed.markdown,
                    assets: parsed.assets,
                };
                self.prepared.push(prepared);
                assert(prepared_of(self.prepared@) == was.prepared.push(prepared@));
                assert(self@ =~= was.with_result(file@, came));
            },
            Err(error) => {
                let failure = FileFailure { src: file.src.clone(), error };
                self.failures.push(failure);
                assert(failures_of(self.failures@) == was.failures.push(failure@));
                assert(self@ =~= was.with_result(file@, came));
            },
        }
    }
}

impl PreviewRun {
    /// The run over the files of a plan, before any is converted. A plan without files is an
    /// error.
    pub fn start(files: Vec<PlannedFile>) -> (r: AppResult<PreviewRun>)
        ensures
            files@.len() == 0 ==> (r matches Err(e) && e@ == (ErrorView {
                kind: ErrorKind::InvalidInput,
                message: "没有可处理的 DOCX 文件"@,
            })),
            files@.len() > 0 ==> (r matches Ok(run) && run.wf() && run.files == files && run.done
                == 0 && run.outcome@ == PreviewView::start(files@.len() as int)),
    {
        if files.len() == 0 {
            return Err(
                AppError::new(ErrorKind::InvalidInput, "没有可处理的 DOCX 文件".to_owned()),
            );
        }
        let outcome = PreviewOutcome {
            total_inputs: files.len(),
            prepared: Vec::new(),
            failures: Vec::new(),
            totals: ParseStats::default(),
            unsupported: UnsupportedSummary::default(),
            sample_lines: Vec::new(),
            degraded_files: Vec::new(),
            ignored_files: Vec::new(),
            image_files: Vec::new(),
        };
        assert(outcome@ =~= PreviewView::start(files@.len() as int));
        proof {
            let none = Seq::<Result<ParsedView, ErrorView>>::empty();
            assert(preview_after(planned_of(files@), none, 0) == outcome@);
        }
        Ok(PreviewRun { files, done: 0, outcome })
    }

    /// What is said before the next document is converted.
    pub fn announce(&self) -> (r: Progress)
        requires
            self.done < self.files@.len(),
        ensures
            r@ == analysing(
                self.done as int,
                self.files@.len() as int,
                self.files@[self.done as int].src@,
            ),
    {
        let total: usize = self.files.len();
        let current = show_numbered(
            "分析中",
            self.done,
            total,
            self.files[self.done].src.as_str(),
        );
        Progress { done: self.done, total, current }
    }
}

/// Converts the next document of a run, from what came of opening and reading its file, and says
/// how far the run has come. Paths can begin with a drive or not. Where the counts cannot take
/// those of the document, nothing changes and nothing is said.
pub fn generate_preview(run: &mut PreviewRun, source: DocxSource, drives: bool) -> (r: Option<
    Progress,
>)
    requires
        old(run).wf(),
        old(run).done < old(run).files@.len(),
    ensures
        ({
            let file = old(run).files@[old(run).done as int]@;
            let result = extracted(file.src, source@, drives);
            &&& final(run).wf()
            &&& final(run).files == old(run).files
            &&& r is Some <==> old(run).outcome@.has_room(result)
            &&& r matches Some(progress) ==> {
                &&& final(run).outcome@ == old(run).outcome@.with_result(file, result)
                &&& final(run).done == old(run).done + 1
                &&& progress@ == finished(final(run).done as int, old(run).files@.len() as int)
            }
            &&& r is None ==> *final(run) == *old(run)
        }),
{
    let total: usize = run.files.len();
    let result = extract_markdown_from_docx(run.files[run.done].src.as_str(), source, drives);
    proof {
        let files = planned_of(run.files@);
        assert(files[run.done as int] == run.files@[run.done as int]@);
        lemma_preview_goes_on(files, run.done as int, run.outcome@, outcome(result));
    }
    if !run.outcome.can_take(&result) {
        return None;
    }
    run.outcome.take(&run.files[run.done], result);
    run.done = run.done + 1;
    Some(show_finished(run.done, total))
}

} // verus!
