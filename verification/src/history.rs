//! The history of conversions.

use vstd::prelude::*;

use crate::errors::{io_error, map_io_error, AppResult, ErrorView};
use crate::names::{field_text, sanitize_field};
use crate::options::{switch_mark, switch_text, ConvertOptions, TextSource, TextSourceView};
use crate::text::{
    ascii_lowered,
    line_texts,
    lines,
    pieces,
    same_ignoring_case,
    same_text,
    split,
    texts,
    trim,
    trimmed,
};

verus! {

/// How many conversions the history keeps.
pub const HISTORY_MAX: usize = 30;

/// A conversion of the past.
#[derive(Clone, Debug)]
pub struct HistoryEntry {
    pub input_path: String,
    pub output_dir: String,
    pub overwrite: bool,
    pub recursive: bool,
    pub keep_structure: bool,
}

/// What an entry holds.
#[verifier::ext_equal]
pub struct HistoryView {
    pub input_path: Seq<char>,
    pub output_dir: Seq<char>,
    pub options: ConvertOptions,
}

impl View for HistoryEntry {
    type V = HistoryView;

    open spec fn view(&self) -> HistoryView {
        HistoryView {
            input_path: self.input_path@,
            output_dir: self.output_dir@,
            options: ConvertOptions {
                overwrite: self.overwrite,
                recursive: self.recursive,
                keep_structure: self.keep_structure,
            },
        }
    }
}

/// What each entry of a list holds.
pub open spec fn entries_of(entries: Seq<HistoryEntry>) -> Seq<HistoryView> {
    Seq::new(entries.len(), |i: int| entries[i]@)
}

/// The choice in field `i` of a line, or the one that holds without it.
pub open spec fn field_switch(fields: Seq<Seq<char>>, i: int, otherwise: bool) -> bool {
    if i < fields.len() {
        fields[i] == "1"@
    } else {
        otherwise
    }
}

/// The entry that a line describes: its first two fields are needed.
pub open spec fn entry_in(line: Seq<char>) -> Option<HistoryView> {
    let fields = pieces(trimmed(line), '\t');
    if trimmed(line).len() == 0 || fields.len() < 2 {
        None
    } else {
        Some(
            HistoryView {
                input_path: trimmed(fields[0]),
                output_dir: trimmed(fields[1]),
                options: ConvertOptions {
                    overwrite: field_switch(fields, 2, false),
                    recursive: field_switch(fields, 3, false),
                    keep_structure: field_switch(fields, 4, true),
                },
            },
        )
    }
}

/// The entries that lines describe; a line that describes none is passed over.
pub open spec fn entries_in(lines: Seq<Seq<char>>) -> Seq<HistoryView>
    decreases lines.len(),
{
    if lines.len() == 0 {
        seq![]
    } else {
        let earlier = entries_in(lines.drop_last());
        match entry_in(lines.last()) {
            Some(e) => earlier.push(e),
            None => earlier,
        }
    }
}

fn get_switch(fields: &Vec<String>, i: usize, otherwise: bool) -> (r: bool)
    ensures
        r == field_switch(texts(fields@), i as int, otherwise),
{
    if i < fields.len() {
        assert(texts(fields@)[i as int] == fields@[i as int]@);
        same_text(fields[i].as_str(), "1")
    } else {
        otherwise
    }
}

fn parse_entry(line: &str) -> (r: Option<HistoryEntry>)
    ensures
        r is Some <==> entry_in(line@) is Some,
        r matches Some(e) ==> entry_in(line@) == Some(e@),
{
    let line = trim(line);
    if line.as_str().is_empty() {
        return None;
    }
    let fields = split(line.as_str(), '\t');
    assert(fields@.len() == texts(fields@).len());
    if fields.len() < 2 {
        return None;
    }
    assert(texts(fields@)[0] == fields@[0]@ && texts(fields@)[1] == fields@[1]@);
    Some(
        HistoryEntry {
            input_path: trim(fields[0].as_str()),
            output_dir: trim(fields[1].as_str()),
            overwrite: get_switch(&fields, 2, false),
            recursive: get_switch(&fields, 3, false),
            keep_structure: get_switch(&fields, 4, true),
        },
    )
}

/// The entries that the text of a file describes.
pub fn parse_history(content: &str) -> (r: Vec<HistoryEntry>)
    ensures
        entries_of(r@) == entries_in(line_texts(content@)),
{
    let all = lines(content);
    let ghost every = line_texts(content@);
    let mut items: Vec<HistoryEntry> = Vec::new();
    let mut i: usize = 0;
    assert(every.take(0) == Seq::<Seq<char>>::empty());
    assert(entries_of(items@) == Seq::<HistoryView>::empty());
    while i < all.len()
        invariant
            i <= all@.len(),
            texts(all@) == every,
            entries_of(items@) == entries_in(every.take(i as int)),
        decreases all.len() - i,
    {
        let ghost was = entries_of(items@);
        let parsed = parse_entry(all[i].as_str());
        i = i + 1;
        assert(every.take(i as int).drop_last() == every.take(i - 1));
        assert(every.take(i as int).last() == all@[i - 1]@);
        if let Some(e) = parsed {
            items.push(e);
            assert(entries_of(items@) == was.push(e@));
        }
    }
    assert(every.take(i as int) == every);
    items
}

/// What a list of entries, or the error in its place, holds.
pub open spec fn history_outcome(r: AppResult<Vec<HistoryEntry>>) -> Result<
    Seq<HistoryView>,
    ErrorView,
> {
    match r {
        Ok(entries) => Ok(entries_of(entries@)),
        Err(e) => Err(e@),
    }
}

/// The history that a file keeps: none where there is no file.
pub open spec fn history_from(path: Seq<char>, source: TextSourceView) -> Result<
    Seq<HistoryView>,
    ErrorView,
> {
    match source {
        TextSourceView::Missing => Ok(seq![]),
        TextSourceView::Failed(e) => Err(io_error(e, "读取历史文件失败: "@ + path)),
        TextSourceView::Text(content) => Ok(entries_in(line_texts(content))),
    }
}

/// The history that a file keeps, from what came of reading it. The path is for messages.
pub fn load_history(path: &str, source: &TextSource) -> (r: AppResult<Vec<HistoryEntry>>)
    ensures
        history_outcome(r) == history_from(path@, source@),
{
    match source {
        TextSource::Missing => {
            let none: Vec<HistoryEntry> = Vec::new();
            assert(entries_of(none@) == Seq::<HistoryView>::empty());
            Ok(none)
        },
        TextSource::Failed(e) => {
            let mut context = "读取历史文件失败: ".to_owned();
            context.append(path);
            Err(map_io_error(e, context.as_str()))
        },
        TextSource::Text(content) => Ok(parse_history(content.as_str())),
    }
}

/// The entry with its texts as a file can hold them.
pub open spec fn fit(e: HistoryView) -> HistoryView {
    HistoryView {
        input_path: field_text(e.input_path),
        output_dir: field_text(e.output_dir),
        options: e.options,
    }
}

/// Whether a file can hold an entry: both of its texts say something.
pub open spec fn can_keep(e: HistoryView) -> bool {
    fit(e).input_path.len() > 0 && fit(e).output_dir.len() > 0
}

/// An entry as the fields of a line.
pub open spec fn entry_fields(e: HistoryView) -> Seq<char> {
    e.input_path + "\t"@ + e.output_dir + "\t"@ + switch_mark(e.options.overwrite) + "\t"@
        + switch_mark(e.options.recursive) + "\t"@ + switch_mark(e.options.keep_structure)
}

/// The text of the file that keeps a history: a line for each entry that it can hold.
pub open spec fn history_text(entries: Seq<HistoryView>) -> Seq<char>
    decreases entries.len(),
{
    if entries.len() == 0 {
        seq![]
    } else {
        let earlier = history_text(entries.drop_last());
        if can_keep(entries.last()) {
            earlier + (entry_fields(fit(entries.last())) + "\n"@)
        } else {
            earlier
        }
    }
}

/// The text of the file that keeps a history.
pub fn show_history(entries: &Vec<HistoryEntry>) -> (r: String)
    ensures
        r@ == history_text(entries_of(entries@)),
{
    let ghost every = entries_of(entries@);
    let mut buf = String::new();
    let mut i: usize = 0;
    while i < entries.len()
        invariant
            i <= entries@.len(),
            every == entries_of(entries@),
            buf@ == history_text(every.take(i as int)),
        decreases entries.len() - i,
    {
        let e = &entries[i];
        let input = sanitize_field(e.input_path.as_str());
        let output = sanitize_field(e.output_dir.as_str());
        i = i + 1;
        assert(every.take(i as int).drop_last() == every.take(i - 1));
        assert(every.take(i as int).last() == e@);
        if !input.as_str().is_empty() && !output.as_str().is_empty() {
            let mut row = input;
            row.append("\t");
            row.append(output.as_str());
            row.append("\t");
            row.append(switch_text(e.overwrite));
            row.append("\t");
            row.append(switch_text(e.recursive));
            row.append("\t");
            row.append(switch_text(e.keep_structure));
            row.append("\n");
            buf.append(row.as_str());
        }
    }
    assert(every.take(i as int) == every);
    buf
}

/// Whether two entries are the same but for the case of letters in their paths.
pub open spec fn same_conversion(a: HistoryView, b: HistoryView) -> bool {
    &&& ascii_lowered(a.input_path) == ascii_lowered(b.input_path)
    &&& ascii_lowered(a.output_dir) == ascii_lowered(b.output_dir)
    &&& a.options == b.options
}

/// The entries that are not the same conversion.
pub open spec fn others(entries: Seq<HistoryView>, e: HistoryView) -> Seq<HistoryView>
    decreases entries.len(),
{
    if entries.len() == 0 {
        seq![]
    } else if same_conversion(entries.last(), e) {
        others(entries.drop_last(), e)
    } else {
        others(entries.drop_last(), e).push(entries.last())
    }
}

/// At most the first `HISTORY_MAX` entries.
pub open spec fn newest(entries: Seq<HistoryView>) -> Seq<HistoryView> {
    if entries.len() > HISTORY_MAX {
        entries.take(HISTORY_MAX as int)
    } else {
        entries
    }
}

/// The history after a conversion: it stands first, once, and what is too old is dropped. One that
/// a file cannot hold is not remembered.
pub open spec fn remembered(entries: Seq<HistoryView>, e: HistoryView) -> Seq<HistoryView> {
    if can_keep(e) {
        newest(seq![fit(e)] + others(entries, fit(e)))
    } else {
        entries
    }
}

/// Puts a conversion at the head of the history. Whether the history has changed comes back.
pub fn remember(entries: &mut Vec<HistoryEntry>, entry: HistoryEntry) -> (r: bool)
    ensures
        entries_of(final(entries)@) == remembered(entries_of(old(entries)@), entry@),
        r == can_keep(entry@),
        !r ==> final(entries)@ == old(entries)@,
{
    let input = sanitize_field(entry.input_path.as_str());
    let output = sanitize_field(entry.output_dir.as_str());
    if input.as_str().is_empty() || output.as_str().is_empty() {
        return false;
    }
    let fresh = HistoryEntry { input_path: input, output_dir: output, ..entry };
    let ghost e = fresh@;
    assert(e == fit(entry@));
    let ghost was = entries_of(entries@);
    let mut i: usize = entries.len();
    assert(was.take(i as int) == was);
    assert(others(was, e) + was.skip(i as int) == others(was, e));
    let ghost mut kept = Seq::<HistoryView>::empty();
    assert(entries_of(entries@) == was.take(i as int) + kept);
    assert(others(was.take(i as int), e) + kept == others(was, e));
    while i > 0
        invariant
            i <= entries@.len(),
            i <= was.len(),
            e == fresh@,
            entries_of(entries@) == was.take(i as int) + kept,
            others(was.take(i as int), e) + kept == others(was, e),
        decreases i,
    {
        let ghost upto = was.take(i as int);
        let h = &entries[i - 1];
        assert(upto.drop_last() == was.take(i - 1));
        assert(entries_of(entries@)[i - 1] == h@);
        assert(upto.last() == h@);
        let same = same_ignoring_case(h.input_path.as_str(), fresh.input_path.as_str())
            && same_ignoring_case(h.output_dir.as_str(), fresh.output_dir.as_str()) && h.overwrite
            == fresh.overwrite && h.recursive == fresh.recursive && h.keep_structure
            == fresh.keep_structure;
        if same {
            let ghost now = entries@;
            entries.remove(i - 1);
            assert(entries_of(entries@) == was.take(i - 1) + kept) by {
                assert(entries_of(now) == was.take(i as int) + kept);
                assert(entries_of(entries@) =~= entries_of(now).remove(i - 1));
            }
        } else {
            proof {
                assert(others(upto.drop_last(), e).push(upto.last()) + kept == others(
                    upto.drop_last(),
                    e,
                ) + (seq![upto.last()] + kept));
                assert(was.take(i as int) + kept == was.take(i - 1) + (seq![upto.last()] + kept));
                kept = seq![upto.last()] + kept;
            }
        }
        i = i - 1;
    }
    assert(was.take(0) == Seq::<HistoryView>::empty());
    assert(entries_of(entries@) == others(was, e));
    let ghost now = entries@;
    entries.insert(0, fresh);
    assert(entries_of(entries@) == seq![e] + entries_of(now));
    let ghost all = entries_of(entries@);
    if entries.len() > HISTORY_MAX {
        entries.truncate(HISTORY_MAX);
        assert(entries_of(entries@) == all.take(HISTORY_MAX as int));
    }
    true
}

} // verus!
