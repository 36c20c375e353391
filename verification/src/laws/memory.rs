//! Memory: what the history and the session keep, and in which order.

use vstd::prelude::*;

use crate::errors::{ErrorKind, IoFailureKind};
use crate::history::{
    can_keep,
    entries_in,
    entry_in,
    fit,
    history_from,
    others,
    remembered,
    same_conversion,
    HistoryView,
};
use crate::names::field_text;
use crate::options::{
    config_from,
    config_in,
    line_key,
    line_value,
    settings,
    ConvertOptions,
    TextSourceView,
};
use crate::text::{ascii_lowered, lemma_before_is, line_texts, pieces, trimmed};
use super::files::kept;
use super::places::{lemma_one_more, lists};
use super::texts::{pieces_of_two, trimmed_already};

verus! {

/// Whether two entries are of one conversion: the same paths but for the case of letters, and the
/// same options.
pub open spec fn is_same(a: HistoryView, b: HistoryView) -> bool {
    &&& ascii_lowered(a.input_path) == ascii_lowered(b.input_path)
    &&& ascii_lowered(a.output_dir) == ascii_lowered(b.output_dir)
    &&& a.options.overwrite == b.options.overwrite
    &&& a.options.recursive == b.options.recursive
    &&& a.options.keep_structure == b.options.keep_structure
}

/// Where entries stand that are of another conversion.
pub open spec fn others_at(entries: Seq<HistoryView>, e: HistoryView) -> spec_fn(int) -> bool {
    |k: int| !is_same(entries[k], e)
}

proof fn lemma_others(entries: Seq<HistoryView>, e: HistoryView, n: int) -> (ps: Seq<int>)
    requires
        0 <= n <= entries.len(),
    ensures
        lists(ps, 0, n, others_at(entries, e)),
        others(entries.take(n), e) == Seq::new(ps.len(), |i: int| entries[ps[i]]),
    decreases n,
{
    if n == 0 {
        let ps = Seq::<int>::empty();
        assert(others(entries.take(0), e) == Seq::new(ps.len(), |i: int| entries[ps[i]]));
        ps
    } else {
        let was = lemma_others(entries, e, n - 1);
        lemma_one_more(was, 0, n - 1, others_at(entries, e));
        assert(entries.take(n).drop_last() == entries.take(n - 1));
        assert(entries.take(n).last() == entries[n - 1]);
        assert(same_conversion(entries[n - 1], e) <==> is_same(entries[n - 1], e));
        let ps = if others_at(entries, e)(n - 1) {
            was.push(n - 1)
        } else {
            was
        };
        assert(others(entries.take(n), e) == Seq::new(ps.len(), |i: int| entries[ps[i]]));
        ps
    }
}

/// The history after a conversion is the conversion, with its paths made fit for a field, and
/// behind it the entries of other conversions as they stood, thirty in all at most. A conversion
/// with a path of which nothing is left changes nothing.
pub proof fn history_puts_the_newest_first(entries: Seq<HistoryView>, e: HistoryView) -> (ps: Seq<
    int,
>)
    ensures
        ({
            let r = remembered(entries, e);
            let input = field_text(e.input_path);
            let output = field_text(e.output_dir);
            let first = HistoryView { input_path: input, output_dir: output, options: e.options };
            &&& input.len() == 0 || output.len() == 0 ==> r == entries
            &&& input.len() > 0 && output.len() > 0 ==> {
                &&& lists(ps, 0, entries.len() as int, others_at(entries, first))
                &&& r.len() == if ps.len() + 1 > 30 {
                    30
                } else {
                    ps.len() + 1
                }
                &&& r[0] == first
                &&& forall|i: int| 1 <= i < r.len() ==> #[trigger] r[i] == entries[ps[i - 1]]
            }
        }),
{
    let f = fit(e);
    let ps = lemma_others(entries, f, entries.len() as int);
    assert(entries.take(entries.len() as int) == entries);
    let all = seq![f] + others(entries, f);
    let r = remembered(entries, e);
    if can_keep(e) {
        assert forall|i: int| 1 <= i < r.len() implies #[trigger] r[i] == entries[ps[i - 1]] by {
            assert(r[i] == all[i]);
        }
    }
    ps
}

/// Where lines stand that describe an entry.
pub open spec fn described_at(lines: Seq<Seq<char>>) -> spec_fn(int) -> bool {
    |k: int| entry_in(lines[k]) is Some
}

proof fn lemma_described(lines: Seq<Seq<char>>, n: int) -> (ps: Seq<int>)
    requires
        0 <= n <= lines.len(),
    ensures
        lists(ps, 0, n, described_at(lines)),
        entries_in(lines.take(n)) == Seq::new(ps.len(), |i: int| entry_in(lines[ps[i]]).unwrap()),
    decreases n,
{
    if n == 0 {
        let ps = Seq::<int>::empty();
        assert(entries_in(lines.take(0)) == Seq::new(
            ps.len(),
            |i: int| entry_in(lines[ps[i]]).unwrap(),
        ));
        ps
    } else {
        let was = lemma_described(lines, n - 1);
        lemma_one_more(was, 0, n - 1, described_at(lines));
        assert(lines.take(n).drop_last() == lines.take(n - 1));
        assert(lines.take(n).last() == lines[n - 1]);
        let ps = if described_at(lines)(n - 1) {
            was.push(n - 1)
        } else {
            was
        };
        assert(entries_in(lines.take(n)) == Seq::new(
            ps.len(),
            |i: int| entry_in(lines[ps[i]]).unwrap(),
        ));
        ps
    }
}

/// The history that a file keeps has an entry for each line that describes one, in the order of the
/// lines; without a file it is empty, and a file that cannot be read is an error.
pub proof fn history_follows_lines(path: Seq<char>, source: TextSourceView) -> (ps: Seq<int>)
    ensures
        match source {
            TextSourceView::Missing => history_from(path, source) matches Ok(r) && r.len() == 0,
            TextSourceView::Failed(e) => history_from(path, source) matches Err(f) && f.message
                == "读取历史文件失败: "@ + path + ": "@ + e.message,
            TextSourceView::Text(content) => {
                let lines = line_texts(content);
                &&& lists(ps, 0, lines.len() as int, described_at(lines))
                &&& history_from(path, source) matches Ok(r) && r.len() == ps.len() && forall|
                    i: int,
                |
                    0 <= i < r.len() ==> Some(#[trigger] r[i]) == entry_in(lines[ps[i]])
            },
        },
{
    if let TextSourceView::Text(content) = source {
        let lines = line_texts(content);
        let ps = lemma_described(lines, lines.len() as int);
        assert(lines.take(lines.len() as int) == lines);
        ps
    } else {
        Seq::empty()
    }
}

/// Whether a text has something in it, no white space around it, and no tab.
pub open spec fn is_plain(s: Seq<char>) -> bool {
    &&& s.len() > 0
    &&& trimmed(s) == s
    &&& !s.contains('\t')
}

proof fn lemma_plain(s: Seq<char>)
    requires
        is_plain(s),
    ensures
        forall|i: int| 0 <= i < s.len() ==> s[i] != '\t',
        pieces(s, '\t') == seq![s],
{
    assert forall|i: int| 0 <= i < s.len() implies s[i] != '\t' by {
        assert(s.contains(s[i]));
    }
    pieces_of_two(s, Seq::empty(), '\t');
}

/// Of a line of the history the first field is the input, the second the output, and the others,
/// where they are there, are the choices to write over, to search below, and to keep the structure:
/// on where they are `1`. Without a choice nothing is written over, nothing below is searched, and
/// the structure is kept. A line with one field alone describes nothing.
pub proof fn fields_have_their_places(
    a: Seq<char>,
    b: Seq<char>,
    c: Seq<char>,
    d: Seq<char>,
    e: Seq<char>,
)
    requires
        is_plain(a),
        is_plain(b),
        is_plain(c),
        is_plain(d),
        is_plain(e),
    ensures
        ({
            let tab = seq!['\t'];
            let one = seq!['1'];
            &&& entry_in(a) is None
            &&& entry_in(a + tab + b) == Some(
                HistoryView {
                    input_path: a,
                    output_dir: b,
                    options: ConvertOptions {
                        overwrite: false,
                        recursive: false,
                        keep_structure: true,
                    },
                },
            )
            &&& entry_in(a + tab + (b + tab + c)) == Some(
                HistoryView {
                    input_path: a,
                    output_dir: b,
                    options: ConvertOptions {
                        overwrite: c == one,
                        recursive: false,
                        keep_structure: true,
                    },
                },
            )
            &&& entry_in(a + tab + (b + tab + (c + tab + d))) == Some(
                HistoryView {
                    input_path: a,
                    output_dir: b,
                    options: ConvertOptions {
                        overwrite: c == one,
                        recursive: d == one,
                        keep_structure: true,
                    },
                },
            )
            &&& entry_in(a + tab + (b + tab + (c + tab + (d + tab + e)))) == Some(
                HistoryView {
                    input_path: a,
                    output_dir: b,
                    options: ConvertOptions {
                        overwrite: c == one,
                        recursive: d == one,
                        keep_structure: e == one,
                    },
                },
            )
        }),
{
    reveal_strlit("1");
    assert("1"@ == seq!['1']);
    let tab = seq!['\t'];
    lemma_plain(a);
    lemma_plain(b);
    lemma_plain(c);
    lemma_plain(d);
    lemma_plain(e);
    let p2 = d + tab + e;
    let p3 = c + tab + p2;
    let p4 = b + tab + p3;
    let q3 = c + tab + d;
    let q4 = b + tab + q3;
    let r4 = b + tab + c;
    pieces_of_two(a, b, '\t');
    pieces_of_two(a, r4, '\t');
    pieces_of_two(a, q4, '\t');
    pieces_of_two(a, p4, '\t');
    pieces_of_two(b, c, '\t');
    pieces_of_two(b, q3, '\t');
    pieces_of_two(b, p3, '\t');
    pieces_of_two(c, d, '\t');
    pieces_of_two(c, p2, '\t');
    pieces_of_two(d, e, '\t');
    lemma_ends(d, e);
    lemma_ends(c, p2);
    lemma_ends(c, d);
    lemma_ends(b, p3);
    lemma_ends(b, q3);
    lemma_ends(b, c);
    lemma_ends(a, p4);
    lemma_ends(a, q4);
    lemma_ends(a, r4);
    lemma_ends(a, b);
    assert(pieces(a + tab + b, '\t') == seq![a, b]);
    assert(pieces(a + tab + r4, '\t') == seq![a, b, c]);
    assert(pieces(a + tab + q4, '\t') == seq![a, b, c, d]);
    assert(pieces(a + tab + p4, '\t') == seq![a, b, c, d, e]);
}

/// Texts without white space at their outer ends have none around them, with a tab between.
proof fn lemma_ends(a: Seq<char>, b: Seq<char>)
    requires
        a.len() > 0,
        b.len() > 0,
        trimmed(a) == a,
        trimmed(b) == b,
    ensures
        trimmed(a + seq!['\t'] + b) == a + seq!['\t'] + b,
{
    super::texts::cut_ends_is_final(a, crate::text::CharClass::White);
    super::texts::cut_ends_is_final(b, crate::text::CharClass::White);
    let s = a + seq!['\t'] + b;
    assert(s[0] == a[0]);
    assert(s.last() == b.last());
    trimmed_already(s);
}

/// What lines say of a key is what the last line with the key says.
pub proof fn last_lines_hold(lines: Seq<Seq<char>>, key: Seq<char>, i: int)
    requires
        key.len() > 0,
        0 <= i < lines.len(),
        line_key(lines[i]) == key,
        forall|j: int| i < j < lines.len() ==> line_key(#[trigger] lines[j]) != key,
    ensures
        settings(lines).dom().contains(key),
        settings(lines)[key] == line_value(lines[i]),
    decreases lines.len(),
{
    let rest = lines.drop_last();
    if i < rest.len() {
        assert(rest[i] == lines[i]);
        assert(line_key(lines[lines.len() - 1]) != key);
        assert forall|j: int| i < j < rest.len() implies line_key(#[trigger] rest[j]) != key by {
            assert(rest[j] == lines[j]);
        }
        last_lines_hold(rest, key, i);
    }
}

/// A key that no line has is not there, nor is the empty one.
pub proof fn unsaid_keys_are_absent(lines: Seq<Seq<char>>, key: Seq<char>)
    requires
        key.len() == 0 || forall|i: int|
            0 <= i < lines.len() ==> line_key(#[trigger] lines[i]) != key,
    ensures
        !settings(lines).dom().contains(key),
    decreases lines.len(),
{
    if lines.len() > 0 {
        let rest = lines.drop_last();
        if key.len() > 0 {
            assert(line_key(lines[lines.len() - 1]) != key);
            assert forall|i: int| 0 <= i < rest.len() implies line_key(#[trigger] rest[i])
                != key by {
                assert(rest[i] == lines[i]);
            }
        }
        unsaid_keys_are_absent(rest, key);
    }
}

/// A line is a key before its first tab and a value behind it, each without white space around it.
pub proof fn lines_are_keys_and_values(key: Seq<char>, value: Seq<char>)
    requires
        !key.contains('\t'),
    ensures
        line_key(key + seq!['\t'] + value) == trimmed(key),
        line_value(key + seq!['\t'] + value) == trimmed(value),
        line_key(key) == trimmed(key),
        line_value(key).len() == 0,
{
    let line = key + seq!['\t'] + value;
    let n = key.len() as int;
    assert forall|i: int| 0 <= i < n implies key[i] != '\t' by {
        assert(key.contains(key[i]));
    }
    assert forall|i: int| 0 <= i < n implies line[i] != '\t' by {
        assert(line[i] == key[i]);
    }
    lemma_before_is(line, '\t', n);
    lemma_before_is(key, '\t', n);
    assert(line.take(n) == key);
    assert(key.take(n) == key);
    assert(line.skip(n + 1) == value);
}

/// What a file says of a session: the text at the keys for the paths, and the choices at the keys
/// for the options, on where they are `1`; without a key the path is empty, nothing is written over,
/// nothing below is searched, and the structure is kept.
pub proof fn sessions_are_read_by_key(content: Seq<char>)
    ensures
        ({
            let m = settings(line_texts(content));
            let c = config_in(content);
            let one = seq!['1'];
            &&& m.dom().contains("last_input"@) ==> c.last_input == m["last_input"@]
            &&& !m.dom().contains("last_input"@) ==> c.last_input.len() == 0
            &&& m.dom().contains("last_output_dir"@) ==> c.last_output_dir == m["last_output_dir"@]
            &&& !m.dom().contains("last_output_dir"@) ==> c.last_output_dir.len() == 0
            &&& c.options.overwrite <==> m.dom().contains("overwrite"@) && m["overwrite"@] == one
            &&& c.options.recursive <==> m.dom().contains("recursive"@) && m["recursive"@] == one
            &&& c.options.keep_structure <==> !m.dom().contains("keep_structure"@)
                || m["keep_structure"@] == one
        }),
{
    reveal_strlit("1");
    assert("1"@ == seq!['1']);
}

/// Without a file a session begins with empty paths and the usual options; a file that cannot be
/// read is an error.
pub proof fn sessions_begin_empty(path: Seq<char>, source: TextSourceView)
    ensures
        source is Missing ==> (config_from(path, source) matches Ok(c) && c.last_input.len() == 0
            && c.last_output_dir.len() == 0 && c.options == (ConvertOptions {
            overwrite: false,
            recursive: false,
            keep_structure: true,
        })),
        source matches TextSourceView::Text(content) ==> (config_from(path, source) matches Ok(c)
            && c == config_in(content)),
        source matches TextSourceView::Failed(e) ==> (config_from(path, source) matches Err(f)
            && f.message == "读取配置文件失败: "@ + path + ": "@ + e.message && (f.kind
            == ErrorKind::PermissionDenied <==> e.kind == IoFailureKind::PermissionDenied)),
{
}

/// An entry is kept just where both of its paths have something left when they are made fit for a
/// field, and it is kept with those.
pub proof fn entries_are_kept_by_field(e: HistoryView)
    ensures
        can_keep(e) <==> field_text(e.input_path).len() > 0 && field_text(e.output_dir).len() > 0,
        fit(e).input_path == field_text(e.input_path),
        fit(e).output_dir == field_text(e.output_dir),
        fit(e).options == e.options,
{
}

/// Where entries stand that a file can hold.
pub open spec fn kept_at(entries: Seq<HistoryView>) -> spec_fn(int) -> bool {
    |k: int| field_text(entries[k].input_path).len() > 0 && field_text(
        entries[k].output_dir,
    ).len() > 0
}

/// What a file keeps of a history is each entry that it can hold, in order.
pub proof fn files_keep_the_order(entries: Seq<HistoryView>, n: int) -> (ps: Seq<int>)
    requires
        0 <= n <= entries.len(),
    ensures
        lists(ps, 0, n, kept_at(entries)),
        kept(entries.take(n)) == Seq::new(ps.len(), |i: int| fit(entries[ps[i]])),
    decreases n,
{
    if n == 0 {
        let ps = Seq::<int>::empty();
        assert(kept(entries.take(0)) == Seq::new(ps.len(), |i: int| fit(entries[ps[i]])));
        ps
    } else {
        let was = files_keep_the_order(entries, n - 1);
        lemma_one_more(was, 0, n - 1, kept_at(entries));
        assert(entries.take(n).drop_last() == entries.take(n - 1));
        assert(entries.take(n).last() == entries[n - 1]);
        let ps = if kept_at(entries)(n - 1) {
            was.push(n - 1)
        } else {
            was
        };
        assert(kept(entries.take(n)) == Seq::new(ps.len(), |i: int| fit(entries[ps[i]])));
        ps
    }
}

} // verus!
