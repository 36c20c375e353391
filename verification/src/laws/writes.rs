//! Writes: in which order files are made, and what is reported.

use vstd::prelude::*;

use crate::errors::{io_error, shown_error, ErrorKind, ErrorView, IoFailureKind, IoFailureView};
use crate::number::decimal;
use crate::writing::{
    asset_ops,
    item_ops,
    item_words,
    op_error,
    result_of,
    AssetSiteView,
    ItemResult,
    ItemSiteView,
    WriteOpView,
    WriteView,
};

verus! {

/// The error for a failed operation tells what was being done, then why it failed; its kind is that
/// of the failure.
pub proof fn errors_tell_what_and_why(failure: IoFailureView, context: Seq<char>)
    ensures
        ({
            let e = io_error(failure, context);
            &&& e.message == context + seq![':', ' '] + failure.message
            &&& failure.kind == IoFailureKind::NotFound <==> e.kind == ErrorKind::FileNotFound
            &&& failure.kind == IoFailureKind::PermissionDenied <==> e.kind
                == ErrorKind::PermissionDenied
            &&& failure.kind == IoFailureKind::Other <==> e.kind == ErrorKind::IoFailure
        }),
{
    reveal_strlit(": ");
    assert(": "@ == seq![':', ' ']);
}

/// An error is shown with its whole message behind words for its kind; errors of different kinds
/// are shown differently.
pub proof fn errors_are_shown_by_kind(e: ErrorView, f: ErrorView)
    requires
        e.message == f.message,
        e.kind != f.kind,
    ensures
        shown_error(e) != shown_error(f),
        shown_error(e).len() >= e.message.len(),
        shown_error(e).skip(shown_error(e).len() - e.message.len()) == e.message,
{
    reveal_strlit(": ");
    reveal_strlit("文件不存在");
    reveal_strlit("无效 DOCX");
    reveal_strlit("权限不足");
    reveal_strlit("解析失败");
    reveal_strlit("I/O 失败");
    reveal_strlit("输入无效");
    let s = shown_error(e);
    let t = shown_error(f);
    assert(s.skip(s.len() - e.message.len()) == e.message);
    if s == t {
        assert(s[0] == t[0] && s[1] == t[1]);
    }
}

/// The words for each kind of error.
pub proof fn errors_have_words(e: ErrorView)
    ensures
        shown_error(e) == match e.kind {
            ErrorKind::FileNotFound => "文件不存在"@,
            ErrorKind::InvalidDocx => "无效 DOCX"@,
            ErrorKind::PermissionDenied => "权限不足"@,
            ErrorKind::ParseFailed => "解析失败"@,
            ErrorKind::IoFailure => "I/O 失败"@,
            ErrorKind::InvalidInput => "输入无效"@,
        } + seq![':', ' '] + e.message,
{
    reveal_strlit(": ");
    assert(": "@ == seq![':', ' ']);
}

/// Whether operations make the directory of an asset, where it has to be made, and then write the
/// asset.
pub open spec fn writes_asset(ops: Seq<WriteOpView>, k: int, i: int, site: AssetSiteView) -> bool {
    &&& 0 <= k < ops.len()
    &&& ops[k] == WriteOpView::WriteAsset(i, site.path)
    &&& site.parent matches Some(parent) ==> k > 0 && ops[k - 1] == WriteOpView::MakeAssetDir(
        parent,
    )
}

/// The places at which operations write the assets.
proof fn lemma_written(sites: Seq<AssetSiteView>, n: int) -> (ks: Seq<int>)
    requires
        0 <= n <= sites.len(),
    ensures
        ks.len() == n,
        forall|i: int| 0 <= i < n ==> #[trigger] writes_asset(asset_ops(sites, n), ks[i], i, sites[i]),
        forall|i: int, j: int| 0 <= i < j < n ==> #[trigger] ks[i] < #[trigger] ks[j],
        forall|k: int|
            0 <= k < asset_ops(sites, n).len() ==> ((#[trigger] asset_ops(sites, n)[k]) matches
                WriteOpView::MakeAssetDir(_) || ks.contains(k)),
    decreases n,
{
    if n == 0 {
        Seq::empty()
    } else {
        let was = lemma_written(sites, n - 1);
        let earlier = asset_ops(sites, n - 1);
        let ops = asset_ops(sites, n);
        let ks = was.push(ops.len() - 1);
        assert forall|i: int| 0 <= i < n implies #[trigger] writes_asset(ops, ks[i], i, sites[i]) by {
            if i < n - 1 {
                assert(writes_asset(earlier, was[i], i, sites[i]));
                assert(ks[i] == was[i]);
                assert(ops[was[i]] == earlier[was[i]]);
                if was[i] > 0 {
                    assert(ops[was[i] - 1] == earlier[was[i] - 1]);
                }
            }
        }
        assert forall|i: int, j: int| 0 <= i < j < n implies #[trigger] ks[i] < #[trigger] ks[j] by {
            assert(writes_asset(earlier, was[i], i, sites[i]));
        }
        assert forall|k: int| 0 <= k < ops.len() implies ((#[trigger] ops[k]) matches
            WriteOpView::MakeAssetDir(_) || ks.contains(k)) by {
            if k < earlier.len() {
                assert(ops[k] == earlier[k]);
                if was.contains(k) {
                    let i = choose|i: int| 0 <= i < was.len() && was[i] == k;
                    assert(ks[i] == k);
                }
            } else if k == ops.len() - 1 {
                assert(ks[n - 1] == k);
            }
        }
        ks
    }
}

/// Where an output is written, its directory is made first, where it has to be; then each asset is
/// written in order, behind the making of its directory; the text comes last; and nothing else is
/// done.
pub proof fn files_are_made_in_order(output: Seq<char>, site: ItemSiteView, overwrite: bool) -> (ks:
    Seq<int>)
    requires
        !site.exists || overwrite,
    ensures
        ({
            let ops = item_ops(output, site, overwrite);
            &&& ks.len() == site.assets.len()
            &&& site.parent matches Some(parent) ==> ops[0] == WriteOpView::MakeDir(parent)
            &&& forall|i: int|
                0 <= i < ks.len() ==> #[trigger] writes_asset(ops, ks[i], i, site.assets[i])
            &&& forall|i: int, j: int| 0 <= i < j < ks.len() ==> #[trigger] ks[i] < #[trigger] ks[j]
            &&& ops.last() == WriteOpView::WriteText(output)
            &&& forall|k: int|
                #![trigger ops[k]]
                0 <= k < ops.len() - 1 ==> (ops[k] is MakeAssetDir || ks.contains(k) || (k == 0
                    && site.parent is Some))
        }),
{
    let n = site.assets.len() as int;
    let was = lemma_written(site.assets, n);
    let rest = asset_ops(site.assets, n);
    let first = match site.parent {
        Some(parent) => seq![WriteOpView::MakeDir(parent)],
        None => seq![],
    };
    let f = first.len() as int;
    let ops = item_ops(output, site, overwrite);
    let ks = Seq::new(was.len(), |i: int| was[i] + f);
    assert forall|i: int| 0 <= i < ks.len() implies #[trigger] writes_asset(
        ops,
        ks[i],
        i,
        site.assets[i],
    ) by {
        assert(writes_asset(rest, was[i], i, site.assets[i]));
        assert(ops[was[i] + f] == rest[was[i]]);
        if was[i] > 0 {
            assert(ops[was[i] - 1 + f] == rest[was[i] - 1]);
        }
    }
    assert forall|k: int| #![trigger ops[k]] 0 <= k < ops.len() - 1 implies (ops[k] is MakeAssetDir
        || ks.contains(k) || (k == 0 && site.parent is Some)) by {
        if k >= f {
            assert(ops[k] == rest[k - f]);
            if was.contains(k - f) {
                let i = choose|i: int| 0 <= i < was.len() && was[i] == k - f;
                assert(ks[i] == k);
            }
        }
    }
    ks
}

/// What comes of an output: one that is there and must not be written over is skipped; otherwise it
/// is written where nothing failed, and failed where an operation did, with the path of the document
/// and an error that names the path of the operation and the reason.
pub proof fn outputs_are_reported(
    w: WriteView,
    src: Seq<char>,
    output: Seq<char>,
    site: ItemSiteView,
    overwrite: bool,
    failure: Option<(int, IoFailureView)>,
)
    requires
        failure matches Some((i, _)) ==> 0 <= i < item_ops(output, site, overwrite).len(),
    ensures
        ({
            let ops = item_ops(output, site, overwrite);
            let after = w.with_result(src, result_of(ops, failure));
            if site.exists && !overwrite {
                after == WriteView { skipped: w.skipped + 1, ..w }
            } else {
                match failure {
                    None => after == WriteView { wrote: w.wrote + 1, ..w },
                    Some((i, e)) => {
                        &&& after.wrote == w.wrote
                        &&& after.skipped == w.skipped
                        &&& after.failed.len() == w.failed.len() + 1
                        &&& after.failed.drop_last() == w.failed
                        &&& after.failed.last().src == src
                        &&& after.failed.last().error == op_error(ops[i], e)
                    },
                }
            }
        }),
{
    let ops = item_ops(output, site, overwrite);
    let after = w.with_result(src, result_of(ops, failure));
    if !(site.exists && !overwrite) {
        assert(ops.len() > 0);
        if failure is Some {
            assert(after.failed.drop_last() == w.failed);
        }
    }
}

/// The path of an operation.
pub open spec fn path_of(op: WriteOpView) -> Seq<char> {
    match op {
        WriteOpView::MakeDir(path) => path,
        WriteOpView::MakeAssetDir(path) => path,
        WriteOpView::WriteAsset(_, path) => path,
        WriteOpView::WriteText(path) => path,
    }
}

/// The error for an operation tells what was being done, its path and the reason, and is of the kind
/// of the failure.
pub proof fn errors_name_the_path(op: WriteOpView, failure: IoFailureView)
    ensures
        ({
            let e = op_error(op, failure);
            let words = match op {
                WriteOpView::MakeDir(_) => "无法创建目录: "@,
                WriteOpView::MakeAssetDir(_) => "无法创建图片目录: "@,
                WriteOpView::WriteAsset(_, _) => "图片写入失败: "@,
                WriteOpView::WriteText(_) => "写入失败: "@,
            };
            &&& e.message == words + path_of(op) + seq![':', ' '] + failure.message
            &&& e.kind == ErrorKind::FileNotFound <==> failure.kind == IoFailureKind::NotFound
            &&& e.kind == ErrorKind::PermissionDenied <==> failure.kind
                == IoFailureKind::PermissionDenied
        }),
{
    reveal_strlit(": ");
    assert(": "@ == seq![':', ' ']);
}

/// An output that is done with is told with its number, unless its directories or assets failed; one
/// that is skipped is told with its path.
pub proof fn outputs_are_told(done: int, total: int, output: Seq<char>, result: ItemResult)
    ensures
        match result {
            ItemResult::Skipped => item_words(done, total, output, result) matches Some(p) && p.done
                == done && p.total == total && p.current == "跳过已存在文件："@ + output,
            ItemResult::Written => item_words(done, total, output, result) matches Some(p) && p.done
                == done && p.total == total && p.current == "已完成 "@ + decimal(done as nat) + seq![
                '/',
            ] + decimal(total as nat),
            ItemResult::Failed(op, _) => item_words(done, total, output, result) is Some <==> op
                is WriteText,
        },
{
    reveal_strlit("/");
    assert("/"@ == seq!['/']);
}

} // verus!
