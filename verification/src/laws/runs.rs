//! Previews and writes: what becomes of each document.

use vstd::prelude::*;

use crate::errors::ErrorView;
use crate::plan::PlannedView;
use crate::preview::{preview_after, PreparedView, PREVIEW_SAMPLE_LINES};
use crate::summary::ParsedView;
use crate::writing::{
    asset_ops,
    item_ops,
    AssetSiteView,
    ItemResult,
    ItemSiteView,
    WriteOpView,
    WriteView,
};

verus! {

/// Each document of a preview is either ready to be written or has failed, and no more lines are
/// shown than there is room for.
pub proof fn preview_covers_documents(
    files: Seq<PlannedView>,
    results: Seq<Result<ParsedView, ErrorView>>,
    n: int,
)
    requires
        0 <= n,
    ensures
        preview_after(files, results, n).prepared.len() + preview_after(
            files,
            results,
            n,
        ).failures.len() == n,
        preview_after(files, results, n).total_inputs == files.len(),
        preview_after(files, results, n).sample_lines.len() <= PREVIEW_SAMPLE_LINES,
        preview_after(files, results, n).degraded_files.len() <= preview_after(
            files,
            results,
            n,
        ).prepared.len(),
    decreases n,
{
    if n > 0 {
        preview_covers_documents(files, results, n - 1);
    }
}

/// What was prepared of the first documents does not change with those that follow.
pub proof fn preview_keeps_what_it_has(
    files: Seq<PlannedView>,
    results: Seq<Result<ParsedView, ErrorView>>,
    n: int,
    m: int,
)
    requires
        0 <= n <= m,
    ensures
        ({
            let a = preview_after(files, results, n);
            let b = preview_after(files, results, m);
            &&& a.prepared.len() <= b.prepared.len()
            &&& b.prepared.take(a.prepared.len() as int) == a.prepared
            &&& a.failures.len() <= b.failures.len()
            &&& b.failures.take(a.failures.len() as int) == a.failures
            &&& a.sample_lines.len() > 0 ==> b.sample_lines == a.sample_lines
        }),
    decreases m - n,
{
    let a = preview_after(files, results, n);
    if n < m {
        preview_keeps_what_it_has(files, results, n, m - 1);
        let earlier = preview_after(files, results, m - 1);
        let b = preview_after(files, results, m);
        assert(b.prepared.take(a.prepared.len() as int) == earlier.prepared.take(
            a.prepared.len() as int,
        ));
        assert(b.failures.take(a.failures.len() as int) == earlier.failures.take(
            a.failures.len() as int,
        ));
    } else {
        assert(a.prepared.take(a.prepared.len() as int) == a.prepared);
        assert(a.failures.take(a.failures.len() as int) == a.failures);
    }
}

/// An output that is there is not touched, nor anything for it, unless it may be written over.
pub proof fn existing_outputs_are_kept(output: Seq<char>, site: ItemSiteView)
    requires
        site.exists,
    ensures
        item_ops(output, site, false).len() == 0,
{
}

proof fn lemma_asset_ops(sites: Seq<AssetSiteView>, n: int)
    requires
        0 <= n,
    ensures
        forall|i: int|
            0 <= i < asset_ops(sites, n).len() ==> !((#[trigger] asset_ops(sites, n)[i])
                is WriteText),
    decreases n,
{
    if n > 0 {
        lemma_asset_ops(sites, n - 1);
        let all = asset_ops(sites, n);
        let earlier = asset_ops(sites, n - 1);
        assert forall|i: int| 0 <= i < all.len() implies !((#[trigger] all[i]) is WriteText) by {
            if i < earlier.len() {
                assert(all[i] == earlier[i]);
            }
        }
    }
}

/// Where an output is written, its Markdown text is written last, once, to its own path: all that
/// it refers to is there before.
pub proof fn text_is_written_last(output: Seq<char>, site: ItemSiteView, overwrite: bool)
    requires
        !site.exists || overwrite,
    ensures
        item_ops(output, site, overwrite).len() > 0,
        item_ops(output, site, overwrite).last() == WriteOpView::WriteText(output),
        forall|i: int|
            0 <= i < item_ops(output, site, overwrite).len() - 1 ==> !((#[trigger] item_ops(
                output,
                site,
                overwrite,
            )[i]) is WriteText),
{
    let rest = asset_ops(site.assets, site.assets.len() as int);
    lemma_asset_ops(site.assets, site.assets.len() as int);
    let ops = item_ops(output, site, overwrite);
    assert forall|i: int| 0 <= i < ops.len() - 1 implies !((#[trigger] ops[i]) is WriteText) by {
        let first = match site.parent {
            Some(parent) => seq![WriteOpView::MakeDir(parent)],
            None => seq![],
        };
        if i >= first.len() {
            assert(ops[i] == rest[i - first.len()]);
        }
    }
}

proof fn lemma_asset_among(sites: Seq<AssetSiteView>, n: int, i: int)
    requires
        0 <= i < n,
    ensures
        asset_ops(sites, n).contains(WriteOpView::WriteAsset(i, sites[i].path)),
    decreases n,
{
    let all = asset_ops(sites, n);
    let earlier = asset_ops(sites, n - 1);
    let op = WriteOpView::WriteAsset(i, sites[i].path);
    if i < n - 1 {
        lemma_asset_among(sites, n - 1, i);
        let k = choose|k: int| 0 <= k < earlier.len() && earlier[k] == op;
        assert(all[k] == op);
    } else {
        assert(all[all.len() - 1] == op);
    }
}

/// Where an output is written, each of its assets is written too, to its own place.
pub proof fn assets_are_written(
    item: PreparedView,
    site: ItemSiteView,
    overwrite: bool,
    i: int,
)
    requires
        !site.exists || overwrite,
        site.assets.len() == item.assets.len(),
        0 <= i < item.assets.len(),
    ensures
        item_ops(item.output, site, overwrite).contains(
            WriteOpView::WriteAsset(i, site.assets[i].path),
        ),
{
    let n = site.assets.len() as int;
    let op = WriteOpView::WriteAsset(i, site.assets[i].path);
    let rest = asset_ops(site.assets, n);
    let ops = item_ops(item.output, site, overwrite);
    lemma_asset_among(site.assets, n, i);
    let k = choose|k: int| 0 <= k < rest.len() && rest[k] == op;
    let first = match site.parent {
        Some(parent) => seq![WriteOpView::MakeDir(parent)],
        None => seq![],
    };
    assert(ops[first.len() + k] == op);
}

proof fn lemma_assets_numbered(sites: Seq<AssetSiteView>, n: int)
    requires
        0 <= n,
    ensures
        forall|k: int|
            0 <= k < asset_ops(sites, n).len() ==> ((#[trigger] asset_ops(sites, n)[k]) matches
                WriteOpView::WriteAsset(i, path) ==> 0 <= i < n && path == sites[i].path),
    decreases n,
{
    if n > 0 {
        lemma_assets_numbered(sites, n - 1);
        let all = asset_ops(sites, n);
        let earlier = asset_ops(sites, n - 1);
        assert forall|k: int| 0 <= k < all.len() implies ((#[trigger] all[k]) matches
            WriteOpView::WriteAsset(i, path) ==> 0 <= i < n && path == sites[i].path) by {
            if k < earlier.len() {
                assert(all[k] == earlier[k]);
            }
        }
    }
}

/// Only assets of the output are written for it, each to its own place.
pub proof fn only_its_assets_are_written(
    item: PreparedView,
    site: ItemSiteView,
    overwrite: bool,
    k: int,
)
    requires
        site.assets.len() == item.assets.len(),
        0 <= k < item_ops(item.output, site, overwrite).len(),
    ensures
        item_ops(item.output, site, overwrite)[k] matches WriteOpView::WriteAsset(i, path) ==> 0
            <= i < item.assets.len() && path == site.assets[i].path,
{
    let n = site.assets.len() as int;
    lemma_assets_numbered(site.assets, n);
    let rest = asset_ops(site.assets, n);
    let ops = item_ops(item.output, site, overwrite);
    let first = match site.parent {
        Some(parent) => seq![WriteOpView::MakeDir(parent)],
        None => seq![],
    };
    if first.len() <= k < ops.len() - 1 {
        assert(ops[k] == rest[k - first.len()]);
    }
}

/// Each output that is done with is counted once: as written, as skipped, or as failed.
pub proof fn outputs_are_counted(w: WriteView, src: Seq<char>, result: ItemResult)
    ensures
        w.with_result(src, result).count() == w.count() + 1,
{
}

} // verus!
