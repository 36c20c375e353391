//! Planning: what a plan asks for, where its results go, and what it tells.

use vstd::prelude::*;

use crate::errors::ErrorKind;
use crate::names::{docx_name, typed_path};
use crate::number::decimal;
use crate::options::ConvertOptions;
use crate::plan::{
    existing_before,
    plan_step,
    risks_of,
    FindingsView,
    InputLookView,
    InputType,
    OutputDirView,
    PlanStepView,
    SiteView,
};
use crate::targets::{
    batch_of,
    byte_len,
    looks_numbered,
    numbered_before,
    place_of,
    same_stems,
    without_number,
    DocView,
    PathKind,
    TargetView,
};
use crate::names::stem_of;
use crate::number::is_digit;
use crate::text::unicode_lowered;
use super::places::{lemma_one_more, lists};

verus! {

/// Wherever results are looked for, they are looked for in the directory that was typed, whatever
/// is converted; where none was typed, in the directory of a file, and for a directory in the one
/// beside it with `_md` behind its name.
pub proof fn results_go_where_typed(
    input_raw: Seq<char>,
    output_raw: Seq<char>,
    options: ConvertOptions,
    findings: FindingsView,
)
    ensures
        plan_step(input_raw, output_raw, options, findings) matches PlanStepView::LookFor(dir, _)
            ==> {
            let typed = typed_path(output_raw);
            let (path, look) = findings.input.unwrap();
            &&& findings.input is Some
            &&& typed.len() > 0 ==> dir == OutputDirView::At(typed)
            &&& typed.len() == 0 ==> match look {
                InputLookView::Told(PathKind::File) => dir == OutputDirView::At(
                    match path.parent {
                        Some(parent) => parent,
                        None => seq!['.'],
                    },
                ),
                InputLookView::Told(PathKind::Directory) => dir == OutputDirView::Beside(
                    match path.file_name {
                        Some(name) => name,
                        None => seq!['o', 'u', 't', 'p', 'u', 't'],
                    } + seq!['_', 'm', 'd'],
                ),
                _ => false,
            }
        },
{
    reveal_strlit(".");
    reveal_strlit("output");
    reveal_strlit("_md");
    assert("."@ == seq!['.']);
    assert("output"@ == seq!['o', 'u', 't', 'p', 'u', 't']);
    assert("_md"@ == seq!['_', 'm', 'd']);
}

/// A plan first looks at the path that was typed, and then goes by what is there: it is refused
/// where nothing is there, where a file is no DOCX file, and where it is neither file nor
/// directory; of a DOCX file the result is looked for, and a directory is read.
pub proof fn plans_go_by_what_is_there(
    input_raw: Seq<char>,
    output_raw: Seq<char>,
    options: ConvertOptions,
    findings: FindingsView,
)
    ensures
        ({
            let step = plan_step(input_raw, output_raw, options, findings);
            let typed = typed_path(input_raw);
            &&& typed.len() == 0 ==> (step matches PlanStepView::Done(Err(e)) && e.kind
                == ErrorKind::InvalidInput)
            &&& typed.len() > 0 ==> match findings.input {
                None => step == PlanStepView::LookAt(typed),
                Some((path, InputLookView::Missing)) => step matches PlanStepView::Done(Err(e))
                    && e.kind == ErrorKind::FileNotFound && e.message == "文件或目录不存在: "@
                    + typed,
                Some((path, InputLookView::Untold(f))) => step matches PlanStepView::Done(Err(e))
                    && e.message == "无法读取输入路径信息: "@ + typed + ": "@ + f.message,
                Some((path, InputLookView::Told(PathKind::Other))) => step matches
                    PlanStepView::Done(Err(e)) && e.kind == ErrorKind::InvalidInput,
                Some((path, InputLookView::Told(PathKind::File))) => if docx_name(path.file_name) {
                    match findings.outputs {
                        None => step matches PlanStepView::LookFor(_, targets) && targets.len()
                            == 1 && targets[0].src == typed && targets[0].place.dirs.len() == 0
                            && targets[0].place.name == stem_of(path.file_name.unwrap()) + ".md"@,
                        Some(found) => found.sites.len() == 1 ==> (step matches PlanStepView::Done(
                            Ok(plan),
                        ) && plan.input_type == InputType::SingleFile),
                    }
                } else {
                    step matches PlanStepView::Done(Err(e)) && e.kind == ErrorKind::InvalidInput
                },
                Some((path, InputLookView::Told(PathKind::Directory))) => match findings.listing {
                    None => step is ReadDirectory,
                    Some(listing) => match batch_of(listing, options) {
                        Err(e) => step == PlanStepView::Done(Err(e)),
                        Ok(targets) => if targets.len() == 0 {
                            step matches PlanStepView::Done(Err(e)) && e.kind
                                == ErrorKind::InvalidInput
                        } else {
                            match findings.outputs {
                                None => step matches PlanStepView::LookFor(_, asked) && asked
                                    == targets,
                                Some(found) => found.sites.len() == targets.len() ==> (step matches
                                    PlanStepView::Done(Ok(plan)) && plan.input_type
                                    == InputType::Directory),
                            }
                        },
                    },
                },
            }
        }),
{
}

/// Where sites stand that are there already.
pub open spec fn existing_at(sites: Seq<SiteView>) -> spec_fn(int) -> bool {
    |k: int| sites[k].exists
}

proof fn lemma_existing(sites: Seq<SiteView>, n: int) -> (ps: Seq<int>)
    requires
        0 <= n,
    ensures
        lists(ps, 0, n, existing_at(sites)),
        existing_before(sites, n) == ps.len(),
    decreases n,
{
    if n == 0 {
        Seq::empty()
    } else {
        let was = lemma_existing(sites, n - 1);
        lemma_one_more(was, 0, n - 1, existing_at(sites));
        if existing_at(sites)(n - 1) {
            was.push(n - 1)
        } else {
            was
        }
    }
}

/// A plan that is made over a directory has, for each document that the batch takes, in its order,
/// the file that was found for it; it counts the files that are there already; and it has the
/// directory that was found and the options that were chosen.
pub proof fn plan_pairs_documents_with_files(
    input_raw: Seq<char>,
    output_raw: Seq<char>,
    options: ConvertOptions,
    findings: FindingsView,
) -> (ps: Seq<int>)
    ensures
        plan_step(input_raw, output_raw, options, findings) matches PlanStepView::Done(Ok(plan))
            ==> {
            let found = findings.outputs.unwrap();
            &&& findings.outputs is Some
            &&& plan.output_dir == found.dir
            &&& plan.options == options
            &&& plan.files.len() == found.sites.len()
            &&& forall|i: int|
                0 <= i < plan.files.len() ==> (#[trigger] plan.files[i]).output
                    == found.sites[i].path
            &&& lists(ps, 0, found.sites.len() as int, existing_at(found.sites))
            &&& plan.existing_outputs == ps.len()
            &&& plan.input_type == InputType::Directory ==> {
                let targets = batch_of(findings.listing.unwrap(), options)->Ok_0;
                &&& findings.listing is Some
                &&& batch_of(findings.listing.unwrap(), options) is Ok
                &&& targets.len() == plan.files.len()
                &&& forall|i: int|
                    0 <= i < plan.files.len() ==> (#[trigger] plan.files[i]).src == targets[i].src
                        && plan.files[i].doc == targets[i].doc
            }
            &&& plan.input_type == InputType::SingleFile || options.keep_structure
                ==> plan.renamed_outputs == 0
            &&& plan.input_type == InputType::Directory && !options.keep_structure
                ==> plan.renamed_outputs == numbered_before(
                batch_of(findings.listing.unwrap(), options)->Ok_0,
                plan.files.len() as int,
            )
        },
{
    if findings.outputs is Some {
        let sites = findings.outputs.unwrap().sites;
        lemma_existing(sites, sites.len() as int)
    } else {
        Seq::empty()
    }
}

/// A plan tells of each risk that there is, and of no other: many files, files that will be skipped,
/// directories that are not searched, and names with numbers, in this order.
pub proof fn plans_tell_of_risks(
    files: nat,
    existing: nat,
    renamed: nat,
    input_type: InputType,
    options: ConvertOptions,
)
    ensures
        ({
            let risks = risks_of(files, existing, renamed, input_type, options);
            let many = files > 100;
            let skipped = existing > 0 && !options.overwrite;
            let flat = input_type == InputType::Directory && !options.recursive;
            let numbered = renamed > 0;
            let a = if many { 1int } else { 0 };
            let b = if skipped { a + 1 } else { a };
            let c = if flat { b + 1 } else { b };
            let e = if numbered { c + 1 } else { c };
            &&& risks.len() == e
            &&& many ==> risks[0] == "文件数量较多（"@ + decimal(files) + "），转换可能耗时"@
            &&& skipped ==> risks[a] == "检测到 "@ + decimal(existing)
                + " 个已有输出文件，将在写入阶段自动跳过"@
            &&& flat ==> risks[b] == "目录模式未开启递归，仅处理顶层 .docx 文件"@
            &&& numbered ==> risks[c] == "平铺命名存在重名，已为 "@ + decimal(renamed)
                + " 个文件追加序号后缀"@
        }),
{
}

/// The risks of a plan are those of its own counts.
pub proof fn plan_tells_of_its_risks(
    input_raw: Seq<char>,
    output_raw: Seq<char>,
    options: ConvertOptions,
    findings: FindingsView,
)
    ensures
        plan_step(input_raw, output_raw, options, findings) matches PlanStepView::Done(Ok(plan))
            ==> plan.risks == risks_of(
            plan.files.len(),
            plan.existing_outputs as nat,
            plan.renamed_outputs as nat,
            plan.input_type,
            options,
        ),
{
}

/// Where documents of an order stand that have the same stem, whatever its case.
pub open spec fn same_stems_at(docs: Seq<DocView>, order: Seq<int>, stem: Seq<char>) -> spec_fn(
    int,
) -> bool {
    |k: int| unicode_lowered(stem_of(docs[order[k]].place.name)) == unicode_lowered(stem)
}

proof fn lemma_same_stems(docs: Seq<DocView>, order: Seq<int>, n: int, stem: Seq<char>) -> (ps: Seq<
    int,
>)
    requires
        0 <= n,
    ensures
        lists(ps, 0, n, same_stems_at(docs, order, stem)),
        same_stems(docs, order, n, stem) == ps.len(),
    decreases n,
{
    if n == 0 {
        Seq::empty()
    } else {
        let was = lemma_same_stems(docs, order, n - 1, stem);
        lemma_one_more(was, 0, n - 1, same_stems_at(docs, order, stem));
        if same_stems_at(docs, order, stem)(n - 1) {
            was.push(n - 1)
        } else {
            was
        }
    }
}

/// Where a directory is flattened, a result stands at the top, under the stem of its document: the
/// first one of a stem as it is, and each later one with its number behind an underscore.
pub proof fn flattened_names_count_up(docs: Seq<DocView>, order: Seq<int>, k: int) -> (ps: Seq<int>)
    requires
        0 <= k,
    ensures
        ({
            let stem = stem_of(docs[order[k]].place.name);
            let place = place_of(docs, order, k, false);
            &&& lists(ps, 0, k, same_stems_at(docs, order, stem))
            &&& place.dirs.len() == 0
            &&& ps.len() == 0 ==> place.name == stem + seq!['.', 'm', 'd']
            &&& ps.len() > 0 ==> place.name == stem + seq!['_'] + decimal(ps.len() + 1) + seq![
                '.',
                'm',
                'd',
            ]
        }),
{
    reveal_strlit("_");
    reveal_strlit(".md");
    assert("_"@ == seq!['_']);
    assert(".md"@ == seq!['.', 'm', 'd']);
    let stem = stem_of(docs[order[k]].place.name);
    let ps = lemma_same_stems(docs, order, k, stem);
    assert(same_stems(docs, order, k + 1, stem) == ps.len() + 1);
    ps
}

/// Where the structure is kept, a result stands in the directories of its document, under its stem
/// with `md` for the extension.
pub proof fn mirrored_names_keep_stems(docs: Seq<DocView>, order: Seq<int>, k: int)
    ensures
        ({
            let place = place_of(docs, order, k, true);
            &&& place.dirs == docs[order[k]].place.dirs
            &&& place.name == stem_of(docs[order[k]].place.name) + seq!['.', 'm', 'd']
        }),
{
    reveal_strlit(".md");
    assert(".md"@ == seq!['.', 'm', 'd']);
}

/// Where targets stand whose names look as if they had been given a number.
pub open spec fn numbered_at(targets: Seq<TargetView>) -> spec_fn(int) -> bool {
    |k: int| looks_numbered(stem_of(targets[k].place.name))
}

/// The names that look numbered are counted.
pub proof fn numbered_names_are_counted(targets: Seq<TargetView>, n: int) -> (ps: Seq<int>)
    requires
        0 <= n,
    ensures
        lists(ps, 0, n, numbered_at(targets)),
        numbered_before(targets, n) == ps.len(),
    decreases n,
{
    if n == 0 {
        Seq::empty()
    } else {
        let was = numbered_names_are_counted(targets, n - 1);
        lemma_one_more(was, 0, n - 1, numbered_at(targets));
        if numbered_at(targets)(n - 1) {
            was.push(n - 1)
        } else {
            was
        }
    }
}

/// A stem looks numbered just where it has at least three bytes, and digits stand at its end behind
/// an underscore, if any.
pub proof fn numbered_stems(stem: Seq<char>, i: int)
    requires
        0 <= i <= stem.len(),
        forall|k: int| i <= k < stem.len() ==> is_digit(#[trigger] stem[k]),
        i > 0 ==> !is_digit(stem[i - 1]),
    ensures
        looks_numbered(stem) <==> byte_len(stem) >= 3 && i > 0 && stem[i - 1] == '_',
{
    lemma_without_number(stem, i);
}

proof fn lemma_without_number(stem: Seq<char>, i: int)
    requires
        0 <= i <= stem.len(),
        forall|k: int| i <= k < stem.len() ==> is_digit(#[trigger] stem[k]),
        i > 0 ==> !is_digit(stem[i - 1]),
    ensures
        without_number(stem) == stem.take(i),
    decreases stem.len() - i,
{
    if i < stem.len() {
        assert(is_digit(stem[stem.len() - 1]));
        let rest = stem.drop_last();
        assert forall|k: int| i <= k < rest.len() implies is_digit(#[trigger] rest[k]) by {
            assert(rest[k] == stem[k]);
        }
        lemma_without_number(rest, i);
        assert(rest.take(i) == stem.take(i));
    } else {
        assert(stem.take(i) == stem);
    }
}

/// A text of ASCII characters has as many bytes as characters.
pub proof fn ascii_texts_have_a_byte_each(s: Seq<char>)
    requires
        forall|k: int| 0 <= k < s.len() ==> #[trigger] s[k] <= '\u{7f}',
    ensures
        byte_len(s) == s.len(),
    decreases s.len(),
{
    if s.len() > 0 {
        let rest = s.drop_last();
        assert forall|k: int| 0 <= k < rest.len() implies #[trigger] rest[k] <= '\u{7f}' by {
            assert(rest[k] == s[k]);
        }
        ascii_texts_have_a_byte_each(rest);
        assert(s.last() == s[s.len() - 1]);
    }
}

} // verus!
