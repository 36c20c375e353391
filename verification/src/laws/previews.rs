//! Previews: what each document of a plan gives.

use vstd::prelude::*;

use crate::errors::ErrorView;
use crate::number::decimal;
use crate::plan::PlannedView;
use crate::preview::{
    degraded_line,
    ignored_line,
    images_line,
    preview_after,
    sample_of,
    PreviewView,
};
use crate::summary::{ParsedView, StatsView, UnsupportedView};
use crate::text::line_texts;
use super::places::{lemma_one_more, lists};

verus! {

/// Where the documents stand that were converted.
pub open spec fn converted_at(results: Seq<Result<ParsedView, ErrorView>>) -> spec_fn(int) -> bool {
    |k: int| results[k] is Ok
}

/// Where the documents stand that failed.
pub open spec fn failed_at(results: Seq<Result<ParsedView, ErrorView>>) -> spec_fn(int) -> bool {
    |k: int| results[k] is Err
}

/// Where the documents stand that were converted with a table as plain text.
pub open spec fn degraded_at(results: Seq<Result<ParsedView, ErrorView>>) -> spec_fn(int) -> bool {
    |k: int| results[k] matches Ok(p) && p.unsupported.tables_degraded > 0
}

/// Where the documents stand that were converted with something left out.
pub open spec fn ignored_at(results: Seq<Result<ParsedView, ErrorView>>) -> spec_fn(int) -> bool {
    |k: int|
        results[k] matches Ok(p) && (p.unsupported.images_unresolved > 0
            || p.unsupported.footnotes_ignored > 0 || p.unsupported.equations_ignored > 0)
}

/// Where the documents stand that were converted with images.
pub open spec fn illustrated_at(results: Seq<Result<ParsedView, ErrorView>>) -> spec_fn(int) -> bool {
    |k: int| results[k] matches Ok(p) && p.unsupported.images_exported > 0
}

/// What the preview of documents is made of.
pub struct Parts {
    pub converted: Seq<int>,
    pub failed: Seq<int>,
    pub degraded: Seq<int>,
    pub ignored: Seq<int>,
    pub illustrated: Seq<int>,
}

/// Whether a preview is the one of the first `n` documents. Each document that was converted gives
/// an output with its own number and paths, and the whole text and all images of its conversion;
/// each that failed gives a failure with its path and its error; all in the order of the plan.
pub open spec fn is_preview_of_parts(
    v: PreviewView,
    files: Seq<PlannedView>,
    results: Seq<Result<ParsedView, ErrorView>>,
    n: int,
    p: Parts,
) -> bool {
    &&& v.total_inputs == files.len()
    &&& lists(p.converted, 0, n, converted_at(results))
    &&& v.prepared.len() == p.converted.len()
    &&& forall|i: int|
        0 <= i < p.converted.len() ==> {
            let k = p.converted[i];
            let parsed = results[k]->Ok_0;
            let out = #[trigger] v.prepared[i];
            &&& out.doc == files[k].doc
            &&& out.src == files[k].src
            &&& out.output == files[k].output
            &&& out.markdown == parsed.markdown
            &&& out.assets == parsed.assets
        }
    &&& lists(p.failed, 0, n, failed_at(results))
    &&& v.failures.len() == p.failed.len()
    &&& forall|i: int|
        0 <= i < p.failed.len() ==> {
            let k = p.failed[i];
            let failure = #[trigger] v.failures[i];
            failure.src == files[k].src && failure.error == results[k]->Err_0
        }
    &&& lists(p.degraded, 0, n, degraded_at(results))
    &&& v.degraded_files.len() == p.degraded.len()
    &&& forall|i: int|
        0 <= i < p.degraded.len() ==> #[trigger] v.degraded_files[i] == files[p.degraded[i]].src
            + " (复杂表格降级 "@ + decimal(
            results[p.degraded[i]]->Ok_0.unsupported.tables_degraded as nat,
        ) + " 个)"@
    &&& lists(p.ignored, 0, n, ignored_at(results))
    &&& v.ignored_files.len() == p.ignored.len()
    &&& forall|i: int|
        0 <= i < p.ignored.len() ==> {
            let u = results[p.ignored[i]]->Ok_0.unsupported;
            #[trigger] v.ignored_files[i] == files[p.ignored[i]].src + " (图片未解析 "@ + decimal(
                u.images_unresolved as nat,
            ) + " / 脚注忽略 "@ + decimal(u.footnotes_ignored as nat) + " / 公式忽略 "@ + decimal(
                u.equations_ignored as nat,
            ) + ")"@
        }
    &&& lists(p.illustrated, 0, n, illustrated_at(results))
    &&& v.image_files.len() == p.illustrated.len()
    &&& forall|i: int|
        0 <= i < p.illustrated.len() ==> #[trigger] v.image_files[i]
            == files[p.illustrated[i]].src + " (提取图片 "@ + decimal(
            results[p.illustrated[i]]->Ok_0.unsupported.images_exported as nat,
        ) + " 个)"@
}

/// The places with one more, where something holds there.
spec fn more(ps: Seq<int>, to: int, holds: spec_fn(int) -> bool) -> Seq<int> {
    if holds(to) {
        ps.push(to)
    } else {
        ps
    }
}

/// A preview holds of each document what its conversion gave.
#[verifier::rlimit(40)]
pub proof fn preview_holds_each_conversion(
    files: Seq<PlannedView>,
    results: Seq<Result<ParsedView, ErrorView>>,
    n: int,
) -> (p: Parts)
    requires
        0 <= n <= results.len(),
        n <= files.len(),
    ensures
        is_preview_of_parts(preview_after(files, results, n), files, results, n, p),
    decreases n,
{
    if n == 0 {
        let none = Seq::<int>::empty();
        Parts { converted: none, failed: none, degraded: none, ignored: none, illustrated: none }
    } else {
        let was = preview_holds_each_conversion(files, results, n - 1);
        lemma_one_more(was.converted, 0, n - 1, converted_at(results));
        lemma_one_more(was.failed, 0, n - 1, failed_at(results));
        lemma_one_more(was.degraded, 0, n - 1, degraded_at(results));
        lemma_one_more(was.ignored, 0, n - 1, ignored_at(results));
        lemma_one_more(was.illustrated, 0, n - 1, illustrated_at(results));
        let p = Parts {
            converted: more(was.converted, n - 1, converted_at(results)),
            failed: more(was.failed, n - 1, failed_at(results)),
            degraded: more(was.degraded, n - 1, degraded_at(results)),
            ignored: more(was.ignored, n - 1, ignored_at(results)),
            illustrated: more(was.illustrated, n - 1, illustrated_at(results)),
        };
        let earlier = preview_after(files, results, n - 1);
        let v = preview_after(files, results, n);
        assert(v == earlier.with_result(files[n - 1], results[n - 1]));
        match results[n - 1] {
            Ok(parsed) => {
                assert(v.prepared == earlier.prepared.push(v.prepared.last()));
            },
            Err(e) => {
                assert(v.failures == earlier.failures.push(v.failures.last()));
            },
        }
        assert forall|i: int| 0 <= i < p.degraded.len() implies #[trigger] v.degraded_files[i]
            == files[p.degraded[i]].src + " (复杂表格降级 "@ + decimal(
            results[p.degraded[i]]->Ok_0.unsupported.tables_degraded as nat,
        ) + " 个)"@ by {
            if i < was.degraded.len() {
                assert(v.degraded_files[i] == earlier.degraded_files[i]);
            } else {
                assert(v.degraded_files[i] == degraded_line(
                    files[n - 1].src,
                    results[n - 1]->Ok_0.unsupported,
                ));
            }
        }
        assert forall|i: int| 0 <= i < p.ignored.len() implies {
            let u = results[p.ignored[i]]->Ok_0.unsupported;
            #[trigger] v.ignored_files[i] == files[p.ignored[i]].src + " (图片未解析 "@ + decimal(
                u.images_unresolved as nat,
            ) + " / 脚注忽略 "@ + decimal(u.footnotes_ignored as nat) + " / 公式忽略 "@ + decimal(
                u.equations_ignored as nat,
            ) + ")"@
        } by {
            if i < was.ignored.len() {
                assert(v.ignored_files[i] == earlier.ignored_files[i]);
            } else {
                assert(v.ignored_files[i] == ignored_line(
                    files[n - 1].src,
                    results[n - 1]->Ok_0.unsupported,
                ));
            }
        }
        assert forall|i: int| 0 <= i < p.illustrated.len() implies #[trigger] v.image_files[i]
            == files[p.illustrated[i]].src + " (提取图片 "@ + decimal(
            results[p.illustrated[i]]->Ok_0.unsupported.images_exported as nat,
        ) + " 个)"@ by {
            if i < was.illustrated.len() {
                assert(v.image_files[i] == earlier.image_files[i]);
            } else {
                assert(v.image_files[i] == images_line(
                    files[n - 1].src,
                    results[n - 1]->Ok_0.unsupported,
                ));
            }
        }
        p
    }
}

/// A preview counts all that its documents count: each count grows with a document that was
/// converted by what it counts, and with one that failed by nothing.
pub proof fn preview_adds_counts_up(
    files: Seq<PlannedView>,
    results: Seq<Result<ParsedView, ErrorView>>,
    n: int,
)
    requires
        0 <= n,
    ensures
        n == 0 ==> preview_after(files, results, n).totals == (StatsView {
            lines: 0,
            paragraphs: 0,
            headings: 0,
            list_items: 0,
        }) && preview_after(files, results, n).unsupported == (UnsupportedView {
            tables_converted: 0,
            tables_degraded: 0,
            images_exported: 0,
            images_unresolved: 0,
            footnotes_ignored: 0,
            equations_ignored: 0,
        }),
        ({
            let a = preview_after(files, results, n);
            let b = preview_after(files, results, n + 1);
            match results[n] {
                Ok(p) => {
                    &&& b.totals.lines - a.totals.lines == p.stats.lines
                    &&& b.totals.paragraphs - a.totals.paragraphs == p.stats.paragraphs
                    &&& b.totals.headings - a.totals.headings == p.stats.headings
                    &&& b.totals.list_items - a.totals.list_items == p.stats.list_items
                    &&& b.unsupported.tables_converted - a.unsupported.tables_converted
                        == p.unsupported.tables_converted
                    &&& b.unsupported.tables_degraded - a.unsupported.tables_degraded
                        == p.unsupported.tables_degraded
                    &&& b.unsupported.images_exported - a.unsupported.images_exported
                        == p.unsupported.images_exported
                    &&& b.unsupported.images_unresolved - a.unsupported.images_unresolved
                        == p.unsupported.images_unresolved
                    &&& b.unsupported.footnotes_ignored - a.unsupported.footnotes_ignored
                        == p.unsupported.footnotes_ignored
                    &&& b.unsupported.equations_ignored - a.unsupported.equations_ignored
                        == p.unsupported.equations_ignored
                },
                Err(_) => b.totals == a.totals && b.unsupported == a.unsupported,
            }
        }),
{
}

/// A preview can take a document more just where no sum of counts is too large for the machine.
pub proof fn previews_take_what_fits(v: PreviewView, result: Result<ParsedView, ErrorView>)
    requires
        v.totals.fits(),
        v.unsupported.fits(),
        result matches Ok(p) ==> p.stats.fits() && p.unsupported.fits(),
    ensures
        result is Err ==> v.has_room(result),
        result matches Ok(p) ==> (v.has_room(result) <==> {
            &&& v.totals.lines + p.stats.lines <= usize::MAX
            &&& v.totals.paragraphs + p.stats.paragraphs <= usize::MAX
            &&& v.totals.headings + p.stats.headings <= usize::MAX
            &&& v.totals.list_items + p.stats.list_items <= usize::MAX
            &&& v.unsupported.tables_converted + p.unsupported.tables_converted <= usize::MAX
            &&& v.unsupported.tables_degraded + p.unsupported.tables_degraded <= usize::MAX
            &&& v.unsupported.images_exported + p.unsupported.images_exported <= usize::MAX
            &&& v.unsupported.images_unresolved + p.unsupported.images_unresolved <= usize::MAX
            &&& v.unsupported.footnotes_ignored + p.unsupported.footnotes_ignored <= usize::MAX
            &&& v.unsupported.equations_ignored + p.unsupported.equations_ignored <= usize::MAX
        }),
{
}

/// A preview shows the first lines of the first document that has any, eight at most.
pub proof fn preview_shows_first_lines(
    files: Seq<PlannedView>,
    results: Seq<Result<ParsedView, ErrorView>>,
    n: int,
    first: int,
)
    requires
        0 <= first < n,
        results[first] matches Ok(p) && line_texts(p.markdown).len() > 0,
        forall|k: int|
            0 <= k < first ==> ((#[trigger] results[k]) matches Ok(p) ==> line_texts(
                p.markdown,
            ).len() == 0),
    ensures
        ({
            let shown = preview_after(files, results, n).sample_lines;
            let all = line_texts(results[first]->Ok_0.markdown);
            &&& shown.len() == if all.len() < 8 {
                all.len()
            } else {
                8
            }
            &&& forall|i: int| 0 <= i < shown.len() ==> #[trigger] shown[i] == all[i]
        }),
    decreases n,
{
    if n > first + 1 {
        preview_shows_first_lines(files, results, n - 1, first);
    } else {
        lemma_nothing_shown(files, results, first);
    }
}

proof fn lemma_nothing_shown(
    files: Seq<PlannedView>,
    results: Seq<Result<ParsedView, ErrorView>>,
    n: int,
)
    requires
        0 <= n,
        forall|k: int|
            0 <= k < n ==> ((#[trigger] results[k]) matches Ok(p) ==> line_texts(p.markdown).len()
                == 0),
    ensures
        preview_after(files, results, n).sample_lines.len() == 0,
    decreases n,
{
    if n > 0 {
        lemma_nothing_shown(files, results, n - 1);
        if let Ok(p) = results[n - 1] {
            assert(sample_of(p.markdown).len() == 0);
        }
    }
}

} // verus!
