//! Views: each tells all that the value holds, as it holds it.

use vstd::prelude::*;

use crate::app::{App, Effect, EffectView, MessageView, WorkerMessage};
use crate::archive::{entry_of, DocxParts, DocxSource, EntryError, EntryErrorView, SourceView};
use crate::draft::Draft;
use crate::entries::{bytes_of, image_view, listed, ImageFile};
use crate::errors::{outcome, AppError, AppResult, ErrorView, IoFailure};
use crate::history::{entries_of, HistoryEntry};
use crate::names::FilePath;
use crate::options::{AppConfig, TextSource, TextSourceView};
use crate::plan::{
    planned_of,
    sites_of,
    ConversionPlan,
    InputLook,
    InputLookView,
    OutputDir,
    OutputDirView,
    OutputSite,
    OutputsFound,
    PlanFindings,
    PlanStep,
    PlanStepView,
    PlannedFile,
};
use crate::preview::{
    failures_of,
    prepared_of,
    FileFailure,
    PreparedOutput,
    PreviewOutcome,
    Progress,
};
use crate::saving::{SaveReport, SaveReportView};
use crate::search::{doc_at, docs_outcome, FoundFile};
use crate::summary::{assets_of, AssetFile, ParseStats, ParsedMarkdown, UnsupportedSummary};
use crate::targets::{docs_of, targets_of, targets_outcome, Place, PlaceView, SourceDoc, Target};
use crate::text::texts;
use crate::writing::{
    asset_sites_of,
    ops_of,
    AssetSite,
    ItemSite,
    WriteOp,
    WriteOpView,
    WriteOutcome,
};
use crate::xml::{nodes_of, text_of, XmlAttribute, XmlNode};

verus! {

/// A list of texts holds each text at its place.
pub proof fn texts_hold_each(v: Seq<String>)
    ensures
        texts(v).len() == v.len(),
        forall|i: int| 0 <= i < v.len() ==> #[trigger] texts(v)[i] == v[i]@,
{
}

/// A text that may be absent is there just where it is.
pub proof fn texts_may_be_absent(s: Option<String>, b: Option<Vec<u8>>)
    ensures
        s is None ==> text_of(s) is None,
        s matches Some(t) ==> text_of(s) == Some(t@),
        b is None ==> bytes_of(b) is None,
        b matches Some(t) ==> bytes_of(b) == Some(t@),
{
}

/// A node tells its parent, its kind, its name, its text and its attributes.
pub proof fn nodes_tell_all(n: XmlNode, a: XmlAttribute, ns: Seq<XmlNode>)
    ensures
        n@.parent == n.parent,
        n@.is_element == n.is_element,
        n@.name == n.name@,
        n@.text is Some <==> n.text is Some,
        n.text matches Some(t) ==> n@.text == Some(t@),
        n@.attributes.len() == n.attributes@.len(),
        forall|i: int|
            0 <= i < n.attributes@.len() ==> #[trigger] n@.attributes[i] == n.attributes@[i]@,
        a@.name == a.name@,
        a@.value == a.value@,
        a@.namespace is Some <==> a.namespace is Some,
        a.namespace matches Some(t) ==> a@.namespace == Some(t@),
        nodes_of(ns).len() == ns.len(),
        forall|i: int| 0 <= i < ns.len() ==> #[trigger] nodes_of(ns)[i] == ns[i]@,
{
}

/// Counts tell each count.
pub proof fn counts_tell_all(s: ParseStats, u: UnsupportedSummary)
    ensures
        s@.lines == s.lines,
        s@.paragraphs == s.paragraphs,
        s@.headings == s.headings,
        s@.list_items == s.list_items,
        u@.tables_converted == u.tables_converted,
        u@.tables_degraded == u.tables_degraded,
        u@.images_exported == u.images_exported,
        u@.images_unresolved == u.images_unresolved,
        u@.footnotes_ignored == u.footnotes_ignored,
        u@.equations_ignored == u.equations_ignored,
{
}

/// A list of files tells the path and the bytes of each, in order.
pub proof fn files_tell_all(files: Seq<AssetFile>)
    ensures
        assets_of(files).len() == files.len(),
        forall|i: int|
            0 <= i < files.len() ==> (#[trigger] assets_of(files)[i]).relative_path
                == files[i].relative_path@ && assets_of(files)[i].bytes == files[i].bytes@,
{
}

/// A conversion tells its text, its counts and its files.
pub proof fn conversions_tell_all(p: ParsedMarkdown, d: Draft, image: ImageFile)
    ensures
        p@.markdown == p.markdown@,
        p@.stats == p.stats@,
        p@.unsupported == p.unsupported@,
        p@.assets == assets_of(p.assets@),
        d@.lines == texts(d.lines@),
        d@.stats == d.stats@,
        d@.unsupported == d.unsupported@,
        d@.assets == assets_of(d.assets@),
        d@.image_index == d.image_index,
        image_view(Some(image)) matches Some(v) && v.extension == image.extension@ && v.bytes
            == image.bytes@,
        image_view(None) is None,
{
}

/// A prepared output tells its document, its paths, its text and its files.
pub proof fn outputs_tell_all(p: PreparedOutput, list: Seq<PreparedOutput>)
    ensures
        p@.doc == p.doc,
        p@.src == p.src@,
        p@.output == p.output@,
        p@.markdown == p.markdown@,
        p@.assets == assets_of(p.assets@),
        prepared_of(list).len() == list.len(),
        forall|i: int| 0 <= i < list.len() ==> #[trigger] prepared_of(list)[i] == list[i]@,
{
}

/// A failure tells its document and its error; an error tells its kind and its message.
pub proof fn failures_tell_all(
    f: FileFailure,
    list: Seq<FileFailure>,
    e: AppError,
    io: IoFailure,
    r: AppResult<ParsedMarkdown>,
)
    ensures
        f@.src == f.src@,
        f@.error == f.error@,
        failures_of(list).len() == list.len(),
        forall|i: int| 0 <= i < list.len() ==> #[trigger] failures_of(list)[i] == list[i]@,
        e@.kind == e.kind,
        e@.message == e.message@,
        io@.kind == io.kind,
        io@.message == io.message@,
        r matches Ok(v) ==> outcome(r) == Ok::<_, ErrorView>(v@),
        r matches Err(x) ==> (outcome(r) matches Err(y) && y == x@),
{
}

/// A preview tells all of its lists and counts.
pub proof fn previews_tell_all(v: PreviewOutcome, p: Progress)
    ensures
        v@.total_inputs == v.total_inputs,
        v@.prepared == prepared_of(v.prepared@),
        v@.failures == failures_of(v.failures@),
        v@.totals == v.totals@,
        v@.unsupported == v.unsupported@,
        v@.sample_lines == texts(v.sample_lines@),
        v@.degraded_files == texts(v.degraded_files@),
        v@.ignored_files == texts(v.ignored_files@),
        v@.image_files == texts(v.image_files@),
        p@.done == p.done,
        p@.total == p.total,
        p@.current == p.current@,
{
}

/// A plan tells its paths, options, files, counts and risks.
pub proof fn plans_tell_all(plan: ConversionPlan, file: PlannedFile, files: Seq<PlannedFile>)
    ensures
        plan@.input_type == plan.input_type,
        plan@.input_path == plan.input_path@,
        plan@.output_dir == plan.output_dir@,
        plan@.options == plan.options,
        plan@.files == planned_of(plan.files@),
        plan@.existing_outputs == plan.existing_outputs,
        plan@.renamed_outputs == plan.renamed_outputs,
        plan@.risks == texts(plan.risks@),
        file@.doc == file.doc,
        file@.src == file.src@,
        file@.output == file.output@,
        planned_of(files).len() == files.len(),
        forall|i: int| 0 <= i < files.len() ==> #[trigger] planned_of(files)[i] == files[i]@,
{
}

/// What was found out for a plan is told as it was found out.
pub proof fn findings_tell_all(
    f: PlanFindings,
    path: FilePath,
    look: InputLook,
    site: OutputSite,
    sites: Seq<OutputSite>,
    found: OutputsFound,
)
    ensures
        f@.listing == f.listing,
        f.input is None ==> f@.input is None,
        f.input matches Some((p, l)) ==> f@.input == Some((p@, l@)),
        f.outputs is None ==> f@.outputs is None,
        f.outputs matches Some(o) ==> f@.outputs == Some(o@),
        path@.parent == text_of(path.parent),
        path@.file_name == text_of(path.file_name),
        look is Missing ==> look@ is Missing,
        look matches InputLook::Untold(e) ==> look@ == InputLookView::Untold(e@),
        look matches InputLook::Told(kind) ==> look@ == InputLookView::Told(kind),
        site@.path == site.path@,
        site@.exists == site.exists,
        found@.dir == found.dir@,
        found@.sites == sites_of(found.sites@),
        sites_of(sites).len() == sites.len(),
        forall|i: int| 0 <= i < sites.len() ==> #[trigger] sites_of(sites)[i] == sites[i]@,
{
}

/// A step of a plan tells what is asked for.
pub proof fn steps_tell_all(step: PlanStep, dir: OutputDir)
    ensures
        step matches PlanStep::LookAt(p) ==> step@ == PlanStepView::LookAt(p@),
        step is ReadDirectory ==> step@ is ReadDirectory,
        step matches PlanStep::LookFor(d, targets) ==> step@ == PlanStepView::LookFor(
            d@,
            targets_of(targets@),
        ),
        step matches PlanStep::Done(Ok(plan)) ==> (step@ matches PlanStepView::Done(Ok(v)) && v
            == plan@),
        step matches PlanStep::Done(Err(e)) ==> (step@ matches PlanStepView::Done(Err(v)) && v
            == e@),
        dir matches OutputDir::At(p) ==> dir@ == OutputDirView::At(p@),
        dir matches OutputDir::Beside(n) ==> dir@ == OutputDirView::Beside(n@),
{
}

/// A document tells its number, its path and its place, and so does a target.
pub proof fn targets_tell_all(
    doc: SourceDoc,
    docs: Seq<SourceDoc>,
    target: Target,
    targets: Seq<Target>,
    place: Place,
    file: FoundFile,
    dirs: Seq<Seq<char>>,
    r: AppResult<Vec<Target>>,
    s: AppResult<Vec<SourceDoc>>,
)
    ensures
        doc@.number == doc.number,
        doc@.text == doc.text@,
        doc@.place == doc.place@,
        place@.dirs == texts(place.dirs@),
        place@.name == place.name@,
        target@.doc == target.doc,
        target@.src == target.src@,
        target@.place == target.place@,
        docs_of(docs).len() == docs.len(),
        forall|i: int| 0 <= i < docs.len() ==> #[trigger] docs_of(docs)[i] == docs[i]@,
        targets_of(targets).len() == targets.len(),
        forall|i: int| 0 <= i < targets.len() ==> #[trigger] targets_of(targets)[i] == targets[i]@,
        doc_at(file, dirs).number == file.number,
        doc_at(file, dirs).text == file.text@,
        doc_at(file, dirs).place == (PlaceView { dirs, name: file.name@ }),
        r matches Ok(v) ==> (targets_outcome(r) matches Ok(w) && w == targets_of(v@)),
        r matches Err(e) ==> (targets_outcome(r) matches Err(f) && f == e@),
        s matches Ok(v) ==> (docs_outcome(s) matches Ok(w) && w == docs_of(v@)),
        s matches Err(e) ==> (docs_outcome(s) matches Err(f) && f == e@),
{
}

/// What came of reading a document is told as it came.
pub proof fn sources_tell_all(source: DocxSource, parts: DocxParts, entry: Result<String, EntryError>)
    ensures
        source is Missing ==> source@ is Missing,
        source matches DocxSource::Unopened(e) ==> source@ == SourceView::Unopened(e@),
        source matches DocxSource::Bytes(b) ==> source@ == SourceView::Bytes(b@),
        source matches DocxSource::Torn(Ok(p)) ==> (source@ matches SourceView::Torn(Ok(v)) && v
            == p@),
        source matches DocxSource::Torn(Err(e)) ==> (source@ matches SourceView::Torn(Err(v)) && v
            == e@),
        parts@.document == entry_of(parts.document),
        parts@.relationships == text_of(parts.relationships),
        parts@.entries == listed(parts.entries@),
        entry matches Ok(t) ==> (entry_of(entry) matches Ok(v) && v == t@),
        entry matches Err(EntryError::Missing) ==> (entry_of(entry) matches Err(v)
            && v is Missing),
        entry matches Err(EntryError::Unreadable(e)) ==> (entry_of(entry) matches Err(v) && v
            == EntryErrorView::Unreadable(e@)),
{
}

/// What is kept tells its texts and options.
pub proof fn kept_values_tell_all(
    e: HistoryEntry,
    list: Seq<HistoryEntry>,
    c: AppConfig,
    t: TextSource,
    r: SaveReport,
)
    ensures
        e@.input_path == e.input_path@,
        e@.output_dir == e.output_dir@,
        e@.options.overwrite == e.overwrite,
        e@.options.recursive == e.recursive,
        e@.options.keep_structure == e.keep_structure,
        entries_of(list).len() == list.len(),
        forall|i: int| 0 <= i < list.len() ==> #[trigger] entries_of(list)[i] == list[i]@,
        c@.last_input == c.last_input@,
        c@.last_output_dir == c.last_output_dir@,
        c@.options == c.options,
        t is Missing ==> t@ is Missing,
        t matches TextSource::Failed(f) ==> t@ == TextSourceView::Failed(f@),
        t matches TextSource::Text(s) ==> t@ == TextSourceView::Text(s@),
        r is Saved ==> r@ is Saved,
        r matches SaveReport::NoDirectory(p, f) ==> r@ == SaveReportView::NoDirectory(p@, f@),
        r matches SaveReport::Unwritten(p, f) ==> r@ == SaveReportView::Unwritten(p@, f@),
{
}

/// Sites and operations tell their paths, and a write its counts and failures.
pub proof fn writes_tell_all(
    site: ItemSite,
    asset: AssetSite,
    assets: Seq<AssetSite>,
    op: WriteOp,
    ops: Seq<WriteOp>,
    w: WriteOutcome,
)
    ensures
        site@.exists == site.exists,
        site@.parent == text_of(site.parent),
        site@.assets == asset_sites_of(site.assets@),
        asset@.path == asset.path@,
        asset@.parent == text_of(asset.parent),
        asset_sites_of(assets).len() == assets.len(),
        forall|i: int| 0 <= i < assets.len() ==> #[trigger] asset_sites_of(assets)[i] == assets[i]@,
        op matches WriteOp::MakeDir(p) ==> op@ == WriteOpView::MakeDir(p@),
        op matches WriteOp::MakeAssetDir(p) ==> op@ == WriteOpView::MakeAssetDir(p@),
        op matches WriteOp::WriteAsset(i, p) ==> op@ == WriteOpView::WriteAsset(i as int, p@),
        op matches WriteOp::WriteText(p) ==> op@ == WriteOpView::WriteText(p@),
        ops_of(ops).len() == ops.len(),
        forall|i: int| 0 <= i < ops.len() ==> #[trigger] ops_of(ops)[i] == ops[i]@,
        w@.wrote == w.wrote,
        w@.skipped == w.skipped,
        w@.failed == failures_of(w.failed@),
{
}

/// The state of the program tells all of its fields, and a message or an effect what it says.
pub proof fn states_tell_all(a: App, m: WorkerMessage, effect: Effect)
    ensures
        a@.stage == a.stage,
        a@.input_path == a.input_path@,
        a@.output_dir == a.output_dir@,
        a@.input_focus == a.input_focus,
        a@.options == a.options,
        a@.status == a.status@,
        a@.quit == a.quit,
        a@.preflight_row == a.preflight_row,
        a@.preview_row == a.preview_row,
        a.history_row is None ==> a@.history_row is None,
        a.history_row matches Some(i) ==> a@.history_row == Some(i as int),
        a@.history == entries_of(a.history_entries@),
        a.plan is None ==> a@.plan is None,
        a.plan matches Some(p) ==> a@.plan == Some(p@),
        a.preview is None ==> a@.preview is None,
        a.preview matches Some(p) ==> a@.preview == Some(p@),
        a.running is None ==> a@.running is None,
        a.running matches Some(t) ==> (a@.running matches Some(v) && v.kind == t.kind && v.progress
            == t.progress@),
        m matches WorkerMessage::Progress(p) ==> m@ == MessageView::Progress(p@),
        m matches WorkerMessage::PreviewDone(Ok(p)) ==> (m@ matches MessageView::PreviewDone(Ok(v))
            && v == p@),
        m matches WorkerMessage::PreviewDone(Err(e)) ==> (m@ matches MessageView::PreviewDone(
            Err(v),
        ) && v == e@),
        m matches WorkerMessage::WriteDone(Ok(p)) ==> (m@ matches MessageView::WriteDone(Ok(v))
            && v == p@),
        m matches WorkerMessage::WriteDone(Err(e)) ==> (m@ matches MessageView::WriteDone(Err(v))
            && v == e@),
        m is Gone ==> m@ is Gone,
        effect is Nothing ==> effect@ is Nothing,
        effect is ReadClipboard ==> effect@ is ReadClipboard,
        effect is MakePlan ==> effect@ is MakePlan,
        effect matches Effect::SaveSession(s) ==> effect@ == EffectView::SaveSession(s@),
        effect is StartPreview ==> effect@ is StartPreview,
        effect matches Effect::StartWrite(o) ==> effect@ == EffectView::StartWrite(o),
        effect matches Effect::SaveHistory(s, told) ==> effect@ == EffectView::SaveHistory(
            s@,
            told,
        ),
{
}

} // verus!
