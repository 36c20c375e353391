//! Plans: which documents are taken, and where their results go.

use vstd::prelude::*;

use crate::names::{docx_name, extension_of, lemma_dot_place, stem_of, typed_path, PathView};
use crate::number::{decimal, is_digit};
use crate::options::ConvertOptions;
use crate::order::{
    is_order,
    lemma_entry_total,
    lemma_path_total,
    order_exists,
    order_of,
    path_less,
};
use crate::plan::{
    existing_before,
    plan_step,
    FindingsView,
    InputLookView,
    InputType,
    OutputDirView,
    PlanStepView,
};
use crate::targets::{
    batch_targets,
    doc_paths,
    flat_name,
    place_of,
    same_stems,
    DocView,
    PathKind,
    PlaceView,
    TargetView,
};
use crate::text::ascii_lowered;
use super::numbers::decimal_is_read_back;

verus! {

/// The names of one stem that has come up a different number of times are different.
pub proof fn flat_names_differ(stem: Seq<char>, m: nat, n: nat)
    requires
        m != n,
        m >= 1,
        n >= 1,
    ensures
        flat_name(stem, m) != flat_name(stem, n),
{
    reveal_strlit("_");
    reveal_strlit(".md");
    decimal_is_read_back(m);
    decimal_is_read_back(n);
    let a = flat_name(stem, m);
    let b = flat_name(stem, n);
    let k = stem.len() as int;
    if a == b {
        if m == 1 {
            assert(a[k] == '.');
            assert(b[k] == '_');
        } else if n == 1 {
            assert(b[k] == '.');
            assert(a[k] == '_');
        } else {
            assert(a.subrange(k + 1, a.len() - 3) == decimal(m));
            assert(b.subrange(k + 1, b.len() - 3) == decimal(n));
        }
    }
}

/// The name of a DOCX file is its stem, a dot and four letters.
pub proof fn stem_of_docx(name: Seq<char>)
    requires
        docx_name(Some(name)),
    ensures
        name.len() > 5,
        stem_of(name) == name.take(name.len() - 5),
        name[name.len() - 5] == '.',
{
    reveal_strlit("docx");
    lemma_dot_place(name);
    let e = extension_of(name).unwrap();
    assert(ascii_lowered(e).len() == ascii_lowered("docx"@).len());
}

/// The result of a single file, with no output directory typed, stands beside it: in the same
/// directory, under the same name with `md` for `docx`.
pub proof fn single_result_stands_beside(
    input_raw: Seq<char>,
    output_raw: Seq<char>,
    options: ConvertOptions,
    path: PathView,
    name: Seq<char>,
)
    requires
        typed_path(input_raw).len() > 0,
        typed_path(output_raw).len() == 0,
        path.file_name == Some(name),
        docx_name(Some(name)),
    ensures
        plan_step(
            input_raw,
            output_raw,
            options,
            FindingsView {
                input: Some((path, InputLookView::Told(PathKind::File))),
                listing: None,
                outputs: None,
            },
        ) == PlanStepView::LookFor(
            OutputDirView::At(
                match path.parent {
                    Some(parent) => parent,
                    None => "."@,
                },
            ),
            seq![
                TargetView {
                    doc: 0,
                    src: typed_path(input_raw),
                    place: PlaceView { dirs: seq![], name: name.take(name.len() - 5) + ".md"@ },
                },
            ],
        ),
{
    stem_of_docx(name);
}

proof fn lemma_stems_grow(docs: Seq<DocView>, order: Seq<int>, i: int, j: int, stem: Seq<char>)
    requires
        i <= j,
    ensures
        same_stems(docs, order, i, stem) <= same_stems(docs, order, j, stem),
    decreases j - i,
{
    if i < j {
        lemma_stems_grow(docs, order, i, j - 1, stem);
    }
}

/// Where a directory is flattened, two documents with one stem do not share a place.
pub proof fn flattened_documents_differ(docs: Seq<DocView>, order: Seq<int>, i: int, j: int)
    requires
        0 <= i < j,
        docs[order[i]].stem() == docs[order[j]].stem(),
    ensures
        place_of(docs, order, i, false) != place_of(docs, order, j, false),
{
    let stem = docs[order[i]].stem();
    lemma_stems_grow(docs, order, 0, i, stem);
    lemma_stems_grow(docs, order, i + 1, j, stem);
    let m = same_stems(docs, order, i + 1, stem);
    let n = same_stems(docs, order, j + 1, stem);
    flat_names_differ(stem, m, n);
}

/// Whether a stem ends in an underscore and digits.
pub open spec fn ends_numbered(stem: Seq<char>) -> bool {
    exists|k: int| #[trigger] is_number_mark(stem, k)
}

/// Whether an underscore stands at a place, and digits, at least one, from there to the end.
pub open spec fn is_number_mark(stem: Seq<char>, k: int) -> bool {
    &&& 0 <= k < stem.len() - 1
    &&& stem[k] == '_'
    &&& forall|i: int| k < i < stem.len() ==> is_digit(#[trigger] stem[i])
}

proof fn lemma_numbered_ends(stem: Seq<char>, n: nat)
    ensures
        ends_numbered(stem + "_"@ + decimal(n)),
{
    reveal_strlit("_");
    decimal_is_read_back(n);
    let s = stem + "_"@ + decimal(n);
    let k = stem.len() as int;
    assert forall|i: int| k < i < s.len() implies is_digit(#[trigger] s[i]) by {
        assert(s[i] == decimal(n)[i - k - 1]);
    }
    assert(is_number_mark(s, k));
}

/// Names with different stems that end in no number are different.
pub proof fn names_of_stems_differ(s: Seq<char>, t: Seq<char>, m: nat, n: nat)
    requires
        s != t,
        !ends_numbered(s),
        !ends_numbered(t),
    ensures
        flat_name(s, m) != flat_name(t, n),
{
    reveal_strlit("_");
    reveal_strlit(".md");
    decimal_is_read_back(m);
    decimal_is_read_back(n);
    lemma_numbered_ends(s, m);
    lemma_numbered_ends(t, n);
    let x = if m == 1 {
        s
    } else {
        s + "_"@ + decimal(m)
    };
    let y = if n == 1 {
        t
    } else {
        t + "_"@ + decimal(n)
    };
    let a = flat_name(s, m);
    let b = flat_name(t, n);
    assert(a == x + ".md"@ && b == y + ".md"@);
    if a == b {
        assert(x == a.take(a.len() - 3));
        assert(y == b.take(b.len() - 3));
        if m != 1 && n != 1 {
            let k = s.len() as int;
            let h = t.len() as int;
            assert(x[k] == '_' && y[h] == '_');
            if k < h {
                assert(x[h] == decimal(m)[h - k - 1]);
            } else if h < k {
                assert(y[k] == decimal(n)[k - h - 1]);
            }
            assert(s == x.take(k) && t == y.take(h));
        }
    }
}

/// Where a directory is flattened, no two documents share a place, unless a stem ends in an
/// underscore and digits, as if it had been numbered already.
pub proof fn flattened_places_differ(docs: Seq<DocView>, order: Seq<int>, i: int, j: int)
    requires
        0 <= i < j < docs.len(),
        !ends_numbered(docs[order[i]].stem()),
        !ends_numbered(docs[order[j]].stem()),
    ensures
        place_of(docs, order, i, false) != place_of(docs, order, j, false),
{
    let s = docs[order[i]].stem();
    let t = docs[order[j]].stem();
    if s == t {
        flattened_documents_differ(docs, order, i, j);
    } else {
        names_of_stems_differ(
            s,
            t,
            same_stems(docs, order, i + 1, s),
            same_stems(docs, order, j + 1, t),
        );
    }
}

/// Where the structure is kept, a result stands below the output directory in the directories
/// that its document stands in, and two documents that differ in directory or stem do not share a
/// place.
pub proof fn mirrored_documents_differ(docs: Seq<DocView>, order: Seq<int>, i: int, j: int)
    ensures
        ({
            let a = docs[order[i]];
            let b = docs[order[j]];
            let p = place_of(docs, order, i, true);
            let q = place_of(docs, order, j, true);
            &&& p.dirs == a.place.dirs
            &&& a.place.dirs != b.place.dirs || a.stem() != b.stem() ==> p != q
        }),
{
    let p = place_of(docs, order, i, true);
    let q = place_of(docs, order, j, true);
    let x = docs[order[i]].stem();
    let y = docs[order[j]].stem();
    if p == q {
        assert(p.name.len() == x.len() + ".md"@.len());
        assert(q.name.len() == y.len() + ".md"@.len());
        assert(x == p.name.take(x.len() as int));
        assert(y == q.name.take(y.len() as int));
    }
}

/// A batch takes each document once, in the order of their paths.
pub proof fn batch_is_complete(docs: Seq<DocView>, keep_structure: bool)
    ensures
        ({
            let order = order_of(doc_paths(docs));
            let targets = batch_targets(docs, keep_structure);
            &&& is_order(doc_paths(docs), order)
            &&& targets.len() == docs.len()
            &&& forall|k: int|
                0 <= k < docs.len() ==> (#[trigger] targets[k]).doc == docs[order[k]].number
                    && targets[k].src == docs[order[k]].text && targets[k].place == place_of(
                    docs,
                    order,
                    k,
                    keep_structure,
                )
            &&& forall|i: int, k: int|
                #![trigger order[i], order[k]]
                0 <= i < k < docs.len() ==> order[i] != order[k] && !path_less(
                    docs[order[k]].names(),
                    docs[order[i]].names(),
                )
        }),
{
    let paths = doc_paths(docs);
    let order = order_of(paths);
    order_exists(paths);
    assert forall|i: int, k: int|
        #![trigger order[i], order[k]]
        0 <= i < k < docs.len() implies order[i] != order[k] && !path_less(
        docs[order[k]].names(),
        docs[order[i]].names(),
    ) by {
        lemma_entry_total(paths, order[i], order[k]);
        lemma_path_total(paths[order[i]], paths[order[k]]);
    }
}

proof fn lemma_existing(sites: Seq<crate::plan::SiteView>, n: int)
    requires
        0 <= n,
    ensures
        existing_before(sites, n) <= n,
    decreases n,
{
    if n > 0 {
        lemma_existing(sites, n - 1);
    }
}

/// A plan that is made has files and the path that was typed, no more files are there already than
/// there are, and the plan of a single file has just that one.
pub proof fn plans_have_files(
    input_raw: Seq<char>,
    output_raw: Seq<char>,
    options: ConvertOptions,
    findings: FindingsView,
)
    ensures
        plan_step(input_raw, output_raw, options, findings) matches PlanStepView::Done(Ok(plan))
            ==> {
            &&& plan.files.len() > 0
            &&& 0 <= plan.existing_outputs <= plan.files.len()
            &&& plan.options == options
            &&& plan.input_path == typed_path(input_raw)
            &&& plan.input_type == InputType::SingleFile ==> plan.files.len() == 1
                && plan.files[0].src == typed_path(input_raw)
        },
{
    if let PlanStepView::Done(Ok(plan)) = plan_step(input_raw, output_raw, options, findings) {
        let sites = findings.outputs.unwrap().sites;
        lemma_existing(sites, sites.len() as int);
    }
}

/// A plan is made, or refused for good, once all is found out: the input, the documents, and as
/// many outputs as the planner looks for.
pub proof fn planning_ends(
    input_raw: Seq<char>,
    output_raw: Seq<char>,
    options: ConvertOptions,
    findings: FindingsView,
)
    requires
        findings.input is Some,
        findings.listing is Some,
        findings.outputs is Some,
        plan_step(
            input_raw,
            output_raw,
            options,
            FindingsView { outputs: None, ..findings },
        ) matches PlanStepView::LookFor(_, targets) ==> findings.outputs.unwrap().sites.len()
            == targets.len(),
    ensures
        plan_step(input_raw, output_raw, options, findings) is Done,
{
}

} // verus!
