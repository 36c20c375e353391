//! Writing prepared outputs: what is done for each, and what came of it.

use vstd::prelude::*;

use crate::errors::{
    io_error,
    map_io_error,
    AppError,
    AppResult,
    ErrorKind,
    ErrorView,
    IoFailure,
    IoFailureView,
};
use crate::preview::{
    failures_of,
    finished,
    numbered_words,
    show_finished,
    show_numbered,
    FailureView,
    FileFailure,
    PreparedOutput,
    Progress,
    ProgressView,
};
use crate::text::concat;
use crate::xml::text_of;

verus! {

/// The file that an asset is written to, and its directory where it has to be made.
#[derive(Clone, Debug)]
pub struct AssetSite {
    pub path: String,
    pub parent: Option<String>,
}

/// What the site of an asset holds.
pub struct AssetSiteView {
    pub path: Seq<char>,
    pub parent: Option<Seq<char>>,
}

impl View for AssetSite {
    type V = AssetSiteView;

    open spec fn view(&self) -> AssetSiteView {
        AssetSiteView { path: self.path@, parent: text_of(self.parent) }
    }
}

/// What each site of a list holds.
pub open spec fn asset_sites_of(sites: Seq<AssetSite>) -> Seq<AssetSiteView> {
    Seq::new(sites.len(), |i: int| sites[i]@)
}

/// What was found at the file that an output is written to: whether it is there, its directory
/// where it has to be made, and the site of each asset.
#[derive(Clone, Debug)]
pub struct ItemSite {
    pub exists: bool,
    pub parent: Option<String>,
    pub assets: Vec<AssetSite>,
}

/// What the site of an output holds.
pub struct ItemSiteView {
    pub exists: bool,
    pub parent: Option<Seq<char>>,
    pub assets: Seq<AssetSiteView>,
}

impl View for ItemSite {
    type V = ItemSiteView;

    open spec fn view(&self) -> ItemSiteView {
        ItemSiteView {
            exists: self.exists,
            parent: text_of(self.parent),
            assets: asset_sites_of(self.assets@),
        }
    }
}

/// An operation on files.
#[derive(Clone, Debug)]
pub enum WriteOp {
    /// Makes the directory of the output.
    MakeDir(String),
    /// Makes the directory of an asset.
    MakeAssetDir(String),
    /// Writes the asset of the number to the path.
    WriteAsset(usize, String),
    /// Writes the Markdown text to the path.
    WriteText(String),
}

/// An operation on files.
pub enum WriteOpView {
    MakeDir(Seq<char>),
    MakeAssetDir(Seq<char>),
    WriteAsset(int, Seq<char>),
    WriteText(Seq<char>),
}

impl View for WriteOp {
    type V = WriteOpView;

    open spec fn view(&self) -> WriteOpView {
        match self {
            WriteOp::MakeDir(path) => WriteOpView::MakeDir(path@),
            WriteOp::MakeAssetDir(path) => WriteOpView::MakeAssetDir(path@),
            WriteOp::WriteAsset(i, path) => WriteOpView::WriteAsset(*i as int, path@),
            WriteOp::WriteText(path) => WriteOpView::WriteText(path@),
        }
    }
}

/// What each operation of a list holds.
pub open spec fn ops_of(ops: Seq<WriteOp>) -> Seq<WriteOpView> {
    Seq::new(ops.len(), |i: int| ops[i]@)
}

/// What is done for the first `n` assets: the directory is made where it has to be, and the asset
/// is written.
pub open spec fn asset_ops(sites: Seq<AssetSiteView>, n: int) -> Seq<WriteOpView>
    decreases n,
{
    if n <= 0 {
        seq![]
    } else {
        let earlier = asset_ops(sites, n - 1);
        let placed = match sites[n - 1].parent {
            Some(parent) => earlier.push(WriteOpView::MakeAssetDir(parent)),
            None => earlier,
        };
        placed.push(WriteOpView::WriteAsset(n - 1, sites[n - 1].path))
    }
}

/// What is done for an output, in order: its directory is made where it has to be, the assets are
/// written, and last the Markdown text. For an output that is there and must not be written over,
/// nothing is done.
pub open spec fn item_ops(output: Seq<char>, site: ItemSiteView, overwrite: bool) -> Seq<
    WriteOpView,
> {
    if site.exists && !overwrite {
        seq![]
    } else {
        let first = match site.parent {
            Some(parent) => seq![WriteOpView::MakeDir(parent)],
            None => seq![],
        };
        (first + asset_ops(site.assets, site.assets.len() as int)).push(
            WriteOpView::WriteText(output),
        )
    }
}

/// The error for an operation that failed.
pub open spec fn op_error(op: WriteOpView, failure: IoFailureView) -> ErrorView {
    match op {
        WriteOpView::MakeDir(path) => io_error(failure, "无法创建目录: "@ + path),
        WriteOpView::MakeAssetDir(path) => io_error(failure, "无法创建图片目录: "@ + path),
        WriteOpView::WriteAsset(_, path) => io_error(failure, "图片写入失败: "@ + path),
        WriteOpView::WriteText(path) => io_error(failure, "写入失败: "@ + path),
    }
}

/// What came of writing outputs.
#[derive(Clone, Debug)]
pub struct WriteOutcome {
    pub wrote: usize,
    pub skipped: usize,
    pub failed: Vec<FileFailure>,
}

/// What came of writing outputs.
#[verifier::ext_equal]
pub struct WriteView {
    pub wrote: int,
    pub skipped: int,
    pub failed: Seq<FailureView>,
}

impl View for WriteOutcome {
    type V = WriteView;

    open spec fn view(&self) -> WriteView {
        WriteView {
            wrote: self.wrote as int,
            skipped: self.skipped as int,
            failed: failures_of(self.failed@),
        }
    }
}

/// What came of the operations for an output.
pub enum ItemResult {
    /// There was nothing to do.
    Skipped,
    /// All operations succeeded.
    Written,
    /// An operation failed, and none was done behind it.
    Failed(WriteOpView, IoFailureView),
}

/// What came of operations, by the number of the one that failed, and how it did.
pub open spec fn result_of(ops: Seq<WriteOpView>, failure: Option<(int, IoFailureView)>) -> ItemResult {
    if ops.len() == 0 {
        ItemResult::Skipped
    } else {
        match failure {
            Some((i, e)) => ItemResult::Failed(ops[i], e),
            None => ItemResult::Written,
        }
    }
}

/// The number of an operation that failed, and how it did.
pub open spec fn failure_of(failure: Option<(usize, IoFailure)>) -> Option<(int, IoFailureView)> {
    match failure {
        Some((i, e)) => Some((i as int, e@)),
        None => None,
    }
}

impl WriteView {
    /// Before anything is written.
    pub open spec fn start() -> WriteView {
        WriteView { wrote: 0, skipped: 0, failed: seq![] }
    }

    /// With what came of one output more.
    pub open spec fn with_result(self, src: Seq<char>, result: ItemResult) -> WriteView {
        match result {
            ItemResult::Skipped => WriteView { skipped: self.skipped + 1, ..self },
            ItemResult::Written => WriteView { wrote: self.wrote + 1, ..self },
            ItemResult::Failed(op, e) => WriteView {
                failed: self.failed.push(FailureView { src, error: op_error(op, e) }),
                ..self
            },
        }
    }

    /// How many outputs it speaks of.
    pub open spec fn count(self) -> int {
        self.wrote + self.skipped + self.failed.len()
    }
}

/// What is said when an output is done with. Nothing is said of one whose directories or assets
/// could not be written.
pub open spec fn item_words(
    done: int,
    total: int,
    output: Seq<char>,
    result: ItemResult,
) -> Option<ProgressView> {
    match result {
        ItemResult::Skipped => Some(
            ProgressView { done, total, current: "跳过已存在文件："@ + output },
        ),
        ItemResult::Written => Some(finished(done, total)),
        ItemResult::Failed(op, _) => if op is WriteText {
            Some(finished(done, total))
        } else {
            None
        },
    }
}

/// What a message that may be absent holds.
pub open spec fn words_of(r: Option<Progress>) -> Option<ProgressView> {
    match r {
        Some(progress) => Some(progress@),
        None => None,
    }
}

/// Outputs that are being written.
#[derive(Debug)]
pub struct WriteRun {
    pub items: Vec<PreparedOutput>,
    pub overwrite: bool,
    /// How many outputs are done with.
    pub done: usize,
    pub outcome: WriteOutcome,
}

impl WriteRun {
    /// Each output that is done with was written, skipped or failed.
    pub open spec fn wf(&self) -> bool {
        &&& self.done <= self.items@.len()
        &&& self.outcome@.count() == self.done
    }

    /// The run over prepared outputs, before any is written. To have none is an error.
    pub fn start(items: Vec<PreparedOutput>, overwrite: bool) -> (r: AppResult<WriteRun>)
        ensures
            items@.len() == 0 ==> (r matches Err(e) && e@ == (ErrorView {
                kind: ErrorKind::InvalidInput,
                message: "没有可写入的文件，请先检查预览失败项"@,
            })),
            items@.len() > 0 ==> (r matches Ok(run) && run.wf() && run.items == items
                && run.overwrite == overwrite && run.done == 0 && run.outcome@
                == WriteView::start()),
    {
        if items.len() == 0 {
            return Err(
                AppError::new(
                    ErrorKind::InvalidInput,
                    "没有可写入的文件，请先检查预览失败项".to_owned(),
                ),
            );
        }
        let outcome = WriteOutcome { wrote: 0, skipped: 0, failed: Vec::new() };
        assert(outcome@ =~= WriteView::start());
        Ok(WriteRun { items, overwrite, done: 0, outcome })
    }

    /// What is said before the next output is written.
    pub fn announce(&self) -> (r: Progress)
        requires
            self.done < self.items@.len(),
        ensures
            r@ == (ProgressView {
                done: self.done as int,
                total: self.items@.len() as int,
                current: numbered_words(
                    "写入中"@,
                    self.done as int,
                    self.items@.len() as int,
                    self.items@[self.done as int].output@,
                ),
            }),
    {
        let total: usize = self.items.len();
        let current = show_numbered(
            "写入中",
            self.done,
            total,
            self.items[self.done].output.as_str(),
        );
        Progress { done: self.done, total, current }
    }

    /// What has to be done for the next output, in order, as long as nothing fails. The site names
    /// a place for each asset.
    pub fn operations(&self, site: &ItemSite) -> (r: Vec<WriteOp>)
        requires
            self.done < self.items@.len(),
            site.assets@.len() == self.items@[self.done as int].assets@.len(),
        ensures
            ops_of(r@) == item_ops(
                self.items@[self.done as int].output@,
                site@,
                self.overwrite,
            ),
    {
        let mut ops: Vec<WriteOp> = Vec::new();
        if site.exists && !self.overwrite {
            assert(ops_of(ops@) == Seq::<WriteOpView>::empty());
            return ops;
        }
        let ghost first = match site@.parent {
            Some(parent) => seq![WriteOpView::MakeDir(parent)],
            None => seq![],
        };
        match &site.parent {
            Some(parent) => {
                ops.push(WriteOp::MakeDir(parent.clone()));
            },
            None => {},
        }
        assert(ops_of(ops@) == first);
        let ghost sites = site@.assets;
        let n: usize = site.assets.len();
        let mut i: usize = 0;
        assert(first + asset_ops(sites, 0) == first);
        while i < n
            invariant
                i <= n == site.assets@.len(),
                sites == asset_sites_of(site.assets@),
                ops_of(ops@) == first + asset_ops(sites, i as int),
            decreases n - i,
        {
            let asset = &site.assets[i];
            assert(sites[i as int] == asset@);
            let ghost was = ops_of(ops@);
            let ghost earlier = asset_ops(sites, i as int);
            match &asset.parent {
                Some(parent) => {
                    ops.push(WriteOp::MakeAssetDir(parent.clone()));
                    assert(ops_of(ops@) == was.push(WriteOpView::MakeAssetDir(parent@)));
                    assert(ops_of(ops@) == first + earlier.push(
                        WriteOpView::MakeAssetDir(parent@),
                    ));
                },
                None => {},
            }
            let ghost now = ops_of(ops@);
            ops.push(WriteOp::WriteAsset(i, asset.path.clone()));
            assert(ops_of(ops@) == now.push(WriteOpView::WriteAsset(i as int, asset@.path)));
            i = i + 1;
            assert(ops_of(ops@) == first + asset_ops(sites, i as int));
        }
        let ghost was = ops_of(ops@);
        ops.push(WriteOp::WriteText(self.items[self.done].output.clone()));
        assert(ops_of(ops@) == was.push(
            WriteOpView::WriteText(self.items@[self.done as int].output@),
        ));
        ops
    }
}

fn show_op_error(op: &WriteOp, failure: &IoFailure) -> (r: AppError)
    ensures
        r@ == op_error(op@, failure@),
{
    match op {
        WriteOp::MakeDir(path) => map_io_error(
            failure,
            concat("无法创建目录: ", path.as_str()).as_str(),
        ),
        WriteOp::MakeAssetDir(path) => map_io_error(
            failure,
            concat("无法创建图片目录: ", path.as_str()).as_str(),
        ),
        WriteOp::WriteAsset(_, path) => map_io_error(
            failure,
            concat("图片写入失败: ", path.as_str()).as_str(),
        ),
        WriteOp::WriteText(path) => map_io_error(
            failure,
            concat("写入失败: ", path.as_str()).as_str(),
        ),
    }
}

/// Takes in what came of the operations for the next output, by the number of the one that failed,
/// and says what is told of it.
pub fn write_outputs(
    run: &mut WriteRun,
    site: &ItemSite,
    failure: Option<(usize, IoFailure)>,
) -> (r: Option<Progress>)
    requires
        old(run).wf(),
        old(run).done < old(run).items@.len(),
        site.assets@.len() == old(run).items@[old(run).done as int].assets@.len(),
        failure matches Some((i, _)) ==> i < item_ops(
            old(run).items@[old(run).done as int].output@,
            site@,
            old(run).overwrite,
        ).len(),
    ensures
        ({
            let item = old(run).items@[old(run).done as int]@;
            let ops = item_ops(item.output, site@, old(run).overwrite);
            let result = result_of(ops, failure_of(failure));
            &&& final(run).wf()
            &&& final(run).items == old(run).items
            &&& final(run).overwrite == old(run).overwrite
            &&& final(run).done == old(run).done + 1
            &&& final(run).outcome@ == old(run).outcome@.with_result(item.src, result)
            &&& words_of(r) == item_words(
                old(run).done + 1,
                old(run).items@.len() as int,
                item.output,
                result,
            )
        }),
{
    let total: usize = run.items.len();
    let done: usize = run.done + 1;
    let ghost was = run.outcome@;
    let ghost item = run.items@[run.done as int]@;
    let ops = run.operations(site);
    let ghost result = result_of(ops_of(ops@), failure_of(failure));
    assert(ops_of(ops@).len() == ops@.len());
    let words = if ops.len() == 0 {
        run.outcome.skipped = run.outcome.skipped + 1;
        let current = concat("跳过已存在文件：", run.items[run.done].output.as_str());
        Some(Progress { done, total, current })
    } else {
        match &failure {
            None => {
                run.outcome.wrote = run.outcome.wrote + 1;
                Some(show_finished(done, total))
            },
            Some((i, e)) => {
                let op = &ops[*i];
                assert(ops_of(ops@)[*i as int] == op@);
                let fresh = FileFailure {
                    src: run.items[run.done].src.clone(),
                    error: show_op_error(op, e),
                };
                run.outcome.failed.push(fresh);
                assert(failures_of(run.outcome.failed@) == was.failed.push(fresh@));
                match op {
                    WriteOp::WriteText(_) => Some(show_finished(done, total)),
                    _ => None,
                }
            },
        }
    };
    assert(run.outcome@ =~= was.with_result(item.src, result));
    run.done = done;
    words
}

} // verus!
