//! Laws of the files that keep the history and the session.

use vstd::prelude::*;

use crate::history::{
    can_keep,
    entries_in,
    entry_fields,
    entry_in,
    fit,
    history_text,
    others,
    remembered,
    same_conversion,
    HistoryView,
    HISTORY_MAX,
};
use crate::laws::texts::{
    field_text_is_fit,
    line_of_one,
    lines_of_two,
    pieces_of_two,
    trimmed_already,
};
use crate::names::breaks_field;
use crate::options::{
    config_in,
    config_text,
    line_key,
    line_value,
    setting_line,
    settings,
    switch_mark,
    ConfigView,
};
use crate::text::{lemma_before_is, line_texts, pieces, trimmed};

verus! {

/// The entries that a file can hold, as it holds them.
pub open spec fn kept(entries: Seq<HistoryView>) -> Seq<HistoryView>
    decreases entries.len(),
{
    if entries.len() == 0 {
        seq![]
    } else if can_keep(entries.last()) {
        kept(entries.drop_last()).push(fit(entries.last()))
    } else {
        kept(entries.drop_last())
    }
}

proof fn lemma_switch_mark(v: bool)
    ensures
        switch_mark(v) == seq![
            if v {
                '1'
            } else {
                '0'
            },
        ],
        switch_mark(v) == "1"@ <==> v,
{
    reveal_strlit("1");
    reveal_strlit("0");
    assert("1"@ == seq!['1']);
    assert("0"@ == seq!['0']);
    assert("0"@[0] != "1"@[0]);
}

/// A line of the history file gives back the entry that it was written for.
pub proof fn entry_survives(e: HistoryView)
    requires
        can_keep(e),
    ensures
        entry_in(entry_fields(fit(e))) == Some(fit(e)),
        line_texts(entry_fields(fit(e)) + "\n"@) == seq![entry_fields(fit(e))],
{
    let f = fit(e);
    let o = f.options;
    let row = entry_fields(f);
    field_text_is_fit(e.input_path);
    field_text_is_fit(e.output_dir);
    lemma_switch_mark(o.overwrite);
    lemma_switch_mark(o.recursive);
    lemma_switch_mark(o.keep_structure);
    reveal_strlit("\t");
    assert("\t"@ == seq!['\t']);
    let tab = seq!['\t'];
    let p4 = switch_mark(o.keep_structure);
    let p3 = switch_mark(o.recursive) + tab + p4;
    let p2 = switch_mark(o.overwrite) + tab + p3;
    let p1 = f.output_dir + tab + p2;
    assert(row == f.input_path + tab + p1);
    pieces_of_two(p4, Seq::empty(), '\t');
    pieces_of_two(switch_mark(o.recursive), p4, '\t');
    pieces_of_two(switch_mark(o.overwrite), p3, '\t');
    pieces_of_two(f.output_dir, p2, '\t');
    pieces_of_two(f.input_path, p1, '\t');
    let fields = pieces(row, '\t');
    assert(fields == seq![
        f.input_path,
        f.output_dir,
        switch_mark(o.overwrite),
        switch_mark(o.recursive),
        switch_mark(o.keep_structure),
    ]);
    assert(row[0] == f.input_path[0]);
    assert(row.last() == p4.last());
    trimmed_already(row);
    assert(entry_in(row) == Some(f));
    assert forall|i: int| 0 <= i < row.len() implies row[i] != '\n' by {
        if i < f.input_path.len() {
            assert(row[i] == f.input_path[i]);
        } else if i > f.input_path.len() {
            let j = i - f.input_path.len() - 1;
            assert(row[i] == p1[j]);
            if j < f.output_dir.len() {
                assert(p1[j] == f.output_dir[j]);
            }
        }
    }
    line_of_one(row);
}

proof fn lemma_entries_of_two(a: Seq<Seq<char>>, b: Seq<Seq<char>>)
    ensures
        entries_in(a + b) == entries_in(a) + entries_in(b),
    decreases b.len(),
{
    if b.len() == 0 {
        assert(a + b == a);
    } else {
        lemma_entries_of_two(a, b.drop_last());
        assert((a + b).drop_last() == a + b.drop_last());
        assert((a + b).last() == b.last());
    }
}

proof fn lemma_history_text_ends(entries: Seq<HistoryView>)
    ensures
        history_text(entries).len() > 0 ==> history_text(entries).last() == '\n',
    decreases entries.len(),
{
    reveal_strlit("\n");
    if entries.len() > 0 {
        lemma_history_text_ends(entries.drop_last());
    }
}

/// What is read back of a written history is what the file can hold of it.
pub proof fn history_survives(entries: Seq<HistoryView>)
    ensures
        entries_in(line_texts(history_text(entries))) == kept(entries),
    decreases entries.len(),
{
    if entries.len() > 0 {
        let earlier = entries.drop_last();
        history_survives(earlier);
        if can_keep(entries.last()) {
            let row = entry_fields(fit(entries.last()));
            entry_survives(entries.last());
            lemma_history_text_ends(earlier);
            lines_of_two(history_text(earlier), row + "\n"@);
            lemma_entries_of_two(line_texts(history_text(earlier)), seq![row]);
            assert(seq![row].drop_last() == Seq::<Seq<char>>::empty());
            assert(entries_in(Seq::<Seq<char>>::empty()) == Seq::<HistoryView>::empty());
            assert(seq![row].last() == row);
            assert(entries_in(seq![row]) == seq![fit(entries.last())]);
        }
    }
}

/// A file that can hold all of a history gives it back as it was.
pub proof fn fit_history_survives(entries: Seq<HistoryView>)
    requires
        forall|i: int|
            0 <= i < entries.len() ==> can_keep(#[trigger] entries[i]) && fit(entries[i])
                == entries[i],
    ensures
        entries_in(line_texts(history_text(entries))) == entries,
    decreases entries.len(),
{
    history_survives(entries);
    lemma_kept_all(entries);
}

proof fn lemma_kept_all(entries: Seq<HistoryView>)
    requires
        forall|i: int|
            0 <= i < entries.len() ==> can_keep(#[trigger] entries[i]) && fit(entries[i])
                == entries[i],
    ensures
        kept(entries) == entries,
    decreases entries.len(),
{
    if entries.len() > 0 {
        let earlier = entries.drop_last();
        assert forall|i: int| 0 <= i < earlier.len() implies can_keep(#[trigger] earlier[i])
            && fit(earlier[i]) == earlier[i] by {
            assert(earlier[i] == entries[i]);
        }
        lemma_kept_all(earlier);
        assert(entries.last() == entries[entries.len() - 1]);
        assert(earlier.push(entries.last()) == entries);
    }
}

proof fn lemma_others(entries: Seq<HistoryView>, e: HistoryView)
    ensures
        others(entries, e).len() <= entries.len(),
        forall|i: int|
            0 <= i < others(entries, e).len() ==> !same_conversion(
                #[trigger] others(entries, e)[i],
                e,
            ) && entries.contains(others(entries, e)[i]),
        (forall|i: int| 0 <= i < entries.len() ==> !same_conversion(#[trigger] entries[i], e))
            ==> others(entries, e) == entries,
    decreases entries.len(),
{
    if entries.len() > 0 {
        let earlier = entries.drop_last();
        lemma_others(earlier, e);
        let r = others(entries, e);
        assert forall|i: int| 0 <= i < r.len() implies !same_conversion(#[trigger] r[i], e)
            && entries.contains(r[i]) by {
            if i < others(earlier, e).len() {
                assert(r[i] == others(earlier, e)[i]);
                let k = choose|k: int| 0 <= k < earlier.len() && earlier[k] == r[i];
                assert(entries[k] == r[i]);
            } else {
                assert(r[i] == entries[entries.len() - 1]);
            }
        }
        if forall|i: int| 0 <= i < entries.len() ==> !same_conversion(#[trigger] entries[i], e) {
            assert forall|i: int| 0 <= i < earlier.len() implies !same_conversion(
                #[trigger] earlier[i],
                e,
            ) by {
                assert(earlier[i] == entries[i]);
            }
            assert(entries[entries.len() - 1] == entries.last());
            assert(earlier.push(entries.last()) == entries);
        }
    }
}

/// A remembered conversion stands first in the history and nowhere else, the history keeps no more
/// than it may, and all else in it was there before.
pub proof fn remembered_stands_first(entries: Seq<HistoryView>, e: HistoryView)
    requires
        can_keep(e),
    ensures
        remembered(entries, e).len() >= 1,
        remembered(entries, e)[0] == fit(e),
        remembered(entries, e).len() <= HISTORY_MAX,
        forall|i: int|
            1 <= i < remembered(entries, e).len() ==> !same_conversion(
                #[trigger] remembered(entries, e)[i],
                fit(e),
            ) && entries.contains(remembered(entries, e)[i]),
{
    let f = fit(e);
    lemma_others(entries, f);
    let all = seq![f] + others(entries, f);
    let r = remembered(entries, e);
    assert forall|i: int| 1 <= i < r.len() implies !same_conversion(#[trigger] r[i], f)
        && entries.contains(r[i]) by {
        assert(r[i] == all[i]);
        assert(all[i] == others(entries, f)[i - 1]);
    }
}

proof fn lemma_others_behind(f: HistoryView, rest: Seq<HistoryView>)
    requires
        forall|i: int| 0 <= i < rest.len() ==> !same_conversion(#[trigger] rest[i], f),
    ensures
        others(seq![f] + rest, f) == rest,
    decreases rest.len(),
{
    if rest.len() == 0 {
        assert(seq![f] + rest == seq![f]);
        assert(seq![f].drop_last() == Seq::<HistoryView>::empty());
        assert(others(Seq::<HistoryView>::empty(), f) == Seq::<HistoryView>::empty());
        assert(seq![f].last() == f);
        assert(others(seq![f], f) == Seq::<HistoryView>::empty());
    } else {
        let earlier = rest.drop_last();
        assert forall|i: int| 0 <= i < earlier.len() implies !same_conversion(
            #[trigger] earlier[i],
            f,
        ) by {
            assert(earlier[i] == rest[i]);
        }
        lemma_others_behind(f, earlier);
        assert((seq![f] + rest).drop_last() == seq![f] + earlier);
        assert((seq![f] + rest).last() == rest[rest.len() - 1]);
        assert(earlier.push(rest.last()) == rest);
    }
}

/// To remember a conversion again changes nothing.
pub proof fn remembering_again_changes_nothing(entries: Seq<HistoryView>, e: HistoryView)
    ensures
        remembered(remembered(entries, e), e) == remembered(entries, e),
{
    if can_keep(e) {
        let f = fit(e);
        let r = remembered(entries, e);
        remembered_stands_first(entries, e);
        let rest = r.skip(1);
        assert(r == seq![f] + rest);
        assert forall|i: int| 0 <= i < rest.len() implies !same_conversion(
            #[trigger] rest[i],
            f,
        ) by {
            assert(rest[i] == r[i + 1]);
        }
        lemma_others_behind(f, rest);
    }
}

proof fn lemma_setting(key: Seq<char>, value: Seq<char>)
    requires
        key.len() > 0,
        trimmed(key) == key,
        trimmed(value) == value,
        forall|i: int| 0 <= i < key.len() ==> !breaks_field(#[trigger] key[i]),
        forall|i: int| 0 <= i < value.len() ==> !breaks_field(#[trigger] value[i]),
    ensures
        line_texts(setting_line(key, value)) == seq![key + "\t"@ + value],
        line_key(key + "\t"@ + value) == key,
        line_value(key + "\t"@ + value) == value,
        setting_line(key, value).len() > 0,
        setting_line(key, value).last() == '\n',
{
    reveal_strlit("\t");
    reveal_strlit("\n");
    let line = key + "\t"@ + value;
    let n = key.len() as int;
    assert forall|i: int| 0 <= i < line.len() implies line[i] != '\n' by {
        if i < n {
            assert(line[i] == key[i]);
        } else if i > n {
            assert(line[i] == value[i - n - 1]);
        }
    }
    if value.len() > 0 {
        assert(line.last() == value[value.len() - 1]);
    }
    line_of_one(line);
    assert forall|i: int| 0 <= i < n implies line[i] != '\t' by {
        assert(line[i] == key[i]);
    }
    lemma_before_is(line, '\t', n);
    assert(line.take(n) == key);
    assert(line.skip(n + 1) == value);
}

/// What is read back of a written session is the session, with its texts as a file can hold them.
pub proof fn config_survives(c: ConfigView)
    ensures
        config_in(config_text(c)) == c.fit(),
{
    reveal_strlit("last_input");
    reveal_strlit("last_output_dir");
    reveal_strlit("overwrite");
    reveal_strlit("recursive");
    reveal_strlit("keep_structure");
    let k1 = "last_input"@;
    let k2 = "last_output_dir"@;
    let k3 = "overwrite"@;
    let k4 = "recursive"@;
    let k5 = "keep_structure"@;
    let f = c.fit();
    let v1 = f.last_input;
    let v2 = f.last_output_dir;
    let v3 = switch_mark(f.options.overwrite);
    let v4 = switch_mark(f.options.recursive);
    let v5 = switch_mark(f.options.keep_structure);
    field_text_is_fit(c.last_input);
    field_text_is_fit(c.last_output_dir);
    lemma_switch_mark(f.options.overwrite);
    lemma_switch_mark(f.options.recursive);
    lemma_switch_mark(f.options.keep_structure);
    trimmed_already(k1);
    trimmed_already(k2);
    trimmed_already(k3);
    trimmed_already(k4);
    trimmed_already(k5);
    trimmed_already(v3);
    trimmed_already(v4);
    trimmed_already(v5);
    lemma_setting(k1, v1);
    lemma_setting(k2, v2);
    lemma_setting(k3, v3);
    lemma_setting(k4, v4);
    lemma_setting(k5, v5);
    let t1 = setting_line(k1, v1);
    let t2 = t1 + setting_line(k2, v2);
    let t3 = t2 + setting_line(k3, v3);
    let t4 = t3 + setting_line(k4, v4);
    lines_of_two(t1, setting_line(k2, v2));
    lines_of_two(t2, setting_line(k3, v3));
    lines_of_two(t3, setting_line(k4, v4));
    lines_of_two(t4, setting_line(k5, v5));
    let l1 = k1 + "\t"@ + v1;
    let l2 = k2 + "\t"@ + v2;
    let l3 = k3 + "\t"@ + v3;
    let l4 = k4 + "\t"@ + v4;
    let l5 = k5 + "\t"@ + v5;
    let s1 = seq![l1];
    let s2 = s1.push(l2);
    let s3 = s2.push(l3);
    let s4 = s3.push(l4);
    let s5 = s4.push(l5);
    assert(line_texts(config_text(c)) == s5);
    assert(s5.drop_last() == s4 && s4.drop_last() == s3 && s3.drop_last() == s2 && s2.drop_last()
        == s1 && s1.drop_last() == Seq::<Seq<char>>::empty());
    let m0 = settings(Seq::<Seq<char>>::empty());
    let m1 = settings(s1);
    assert(m1 == m0.insert(k1, v1));
    let m2 = settings(s2);
    assert(m2 == m1.insert(k2, v2));
    let m3 = settings(s3);
    assert(m3 == m2.insert(k3, v3));
    let m4 = settings(s4);
    assert(m4 == m3.insert(k4, v4));
    let m5 = settings(s5);
    assert(m5 == m4.insert(k5, v5));
    assert(k1.len() == 10 && k2.len() == 15 && k3.len() == 9 && k4.len() == 9 && k5.len() == 14);
    assert(k3[0] == 'o' && k4[0] == 'r');
    assert(config_in(config_text(c)) =~= f);
}

} // verus!
