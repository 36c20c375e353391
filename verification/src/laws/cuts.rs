//! Cuts and joins: what is taken off texts, and how texts are put together and apart.

use vstd::prelude::*;

use crate::names::{
    dot_place,
    extension_of,
    docx_name,
    field_text,
    last_name,
    path_extension,
    stem_of,
    typed_path,
    without_breaks,
    without_drive,
    word_target,
    lemma_dot_place,
};
use crate::number::{decimal, padded, parsed, value_of};
use crate::order::{path_less, text_less};
use crate::text::{
    ascii_lower,
    ascii_lowered,
    before,
    begins_with,
    cut_end,
    cut_ends,
    cut_start,
    is_white,
    joined,
    lemma_before,
    lemma_before_is,
    line_texts,
    pieces,
    replaced,
    trimmed,
    without_cr,
    CharClass,
};
use super::numbers::decimal_is_read_back;
use super::places::{lemma_one_more, lists};

verus! {

proof fn lemma_cut_start(a: Seq<char>, s: Seq<char>, class: CharClass)
    requires
        forall|i: int| 0 <= i < a.len() ==> class.holds(#[trigger] a[i]),
        s.len() > 0 ==> !class.holds(s[0]),
    ensures
        cut_start(a + s, class) == s,
    decreases a.len(),
{
    if a.len() == 0 {
        assert(a + s == s);
    } else {
        let rest = a.drop_first();
        assert(class.holds(a[0]));
        assert forall|i: int| 0 <= i < rest.len() implies class.holds(#[trigger] rest[i]) by {
            assert(rest[i] == a[i + 1]);
        }
        lemma_cut_start(rest, s, class);
        assert((a + s).drop_first() == rest + s);
    }
}

proof fn lemma_cut_end(s: Seq<char>, b: Seq<char>, class: CharClass)
    requires
        forall|i: int| 0 <= i < b.len() ==> class.holds(#[trigger] b[i]),
        s.len() > 0 ==> !class.holds(s.last()),
    ensures
        cut_end(s + b, class) == s,
    decreases b.len(),
{
    if b.len() == 0 {
        assert(s + b == s);
    } else {
        let rest = b.drop_last();
        assert(class.holds(b[b.len() - 1]));
        assert forall|i: int| 0 <= i < rest.len() implies class.holds(#[trigger] rest[i]) by {
            assert(rest[i] == b[i]);
        }
        lemma_cut_end(s, rest, class);
        assert((s + b).drop_last() == s + rest);
    }
}

/// What stands between characters of a class is left when they are cut off, all of it.
pub proof fn ends_are_cut_off(a: Seq<char>, s: Seq<char>, b: Seq<char>, class: CharClass)
    requires
        forall|i: int| 0 <= i < a.len() ==> class.holds(#[trigger] a[i]),
        forall|i: int| 0 <= i < b.len() ==> class.holds(#[trigger] b[i]),
        s.len() > 0 ==> !class.holds(s[0]) && !class.holds(s.last()),
    ensures
        cut_ends(a + s + b, class) == s,
{
    if s.len() > 0 {
        assert((s + b)[0] == s[0]);
        assert(a + s + b == a + (s + b));
        lemma_cut_start(a, s + b, class);
        lemma_cut_end(s, b, class);
    } else {
        let all = a + s + b;
        assert forall|i: int| 0 <= i < all.len() implies class.holds(#[trigger] all[i]) by {
            if i < a.len() {
                assert(all[i] == a[i]);
            } else {
                assert(all[i] == b[i - a.len()]);
            }
        }
        lemma_cut_start(all, Seq::empty(), class);
        assert(all + Seq::<char>::empty() == all);
        assert(cut_start(all, class) == s);
    }
}

/// What stands between white space is left when a text is trimmed, with all white space in it.
pub proof fn white_space_is_trimmed(a: Seq<char>, s: Seq<char>, b: Seq<char>)
    requires
        forall|i: int| 0 <= i < a.len() ==> is_white(#[trigger] a[i]),
        forall|i: int| 0 <= i < b.len() ==> is_white(#[trigger] b[i]),
        s.len() > 0 ==> !is_white(s[0]) && !is_white(s.last()),
    ensures
        trimmed(a + s + b) == s,
{
    assert forall|i: int| 0 <= i < a.len() implies CharClass::White.holds(#[trigger] a[i]) by {}
    assert forall|i: int| 0 <= i < b.len() implies CharClass::White.holds(#[trigger] b[i]) by {}
    ends_are_cut_off(a, s, b, CharClass::White);
}

/// A typed path loses the white space around it, then the quotes around it, and nothing else.
pub proof fn typed_paths_lose_ends(
    a: Seq<char>,
    q: Seq<char>,
    s: Seq<char>,
    r: Seq<char>,
    b: Seq<char>,
)
    requires
        forall|i: int| 0 <= i < a.len() ==> is_white(#[trigger] a[i]),
        forall|i: int| 0 <= i < b.len() ==> is_white(#[trigger] b[i]),
        forall|i: int| 0 <= i < q.len() ==> #[trigger] q[i] == '"',
        forall|i: int| 0 <= i < r.len() ==> #[trigger] r[i] == '"',
        s.len() > 0 ==> s[0] != '"' && s.last() != '"',
        q.len() == 0 && s.len() > 0 ==> !is_white(s[0]),
        r.len() == 0 && s.len() > 0 ==> !is_white(s.last()),
    ensures
        typed_path(a + (q + s + r) + b) == s,
{
    let mid = q + s + r;
    if mid.len() > 0 {
        if q.len() > 0 {
            assert(mid[0] == q[0]);
        } else if s.len() > 0 {
            assert(mid[0] == s[0]);
        } else {
            assert(mid[0] == r[0]);
        }
        if r.len() > 0 {
            assert(mid.last() == r[r.len() - 1]);
        } else if s.len() > 0 {
            assert(mid.last() == s.last());
        } else {
            assert(mid.last() == q[q.len() - 1]);
        }
    }
    white_space_is_trimmed(a, mid, b);
    assert forall|i: int| 0 <= i < q.len() implies CharClass::Quote.holds(#[trigger] q[i]) by {}
    assert forall|i: int| 0 <= i < r.len() implies CharClass::Quote.holds(#[trigger] r[i]) by {}
    ends_are_cut_off(q, s, r, CharClass::Quote);
}

/// Where the characters of a text stand that are no tab and end no line.
pub open spec fn fit_at(s: Seq<char>) -> spec_fn(int) -> bool {
    |k: int| s[k] != '\r' && s[k] != '\n' && s[k] != '\t'
}

/// A text made fit for a field is all of its characters but tabs and line ends, in order, without
/// the white space around them.
pub proof fn fields_keep_characters(s: Seq<char>) -> (ps: Seq<int>)
    ensures
        lists(ps, 0, s.len() as int, fit_at(s)),
        field_text(s) == trimmed(Seq::new(ps.len(), |i: int| s[ps[i]])),
{
    let ps = lemma_kept(s);
    assert(without_breaks(s) == Seq::new(ps.len(), |i: int| s[ps[i]]));
    ps
}

proof fn lemma_kept(s: Seq<char>) -> (ps: Seq<int>)
    ensures
        lists(ps, 0, s.len() as int, fit_at(s)),
        without_breaks(s) == Seq::new(ps.len(), |i: int| s[ps[i]]),
    decreases s.len(),
{
    if s.len() == 0 {
        let ps = Seq::<int>::empty();
        assert(without_breaks(s) == Seq::new(ps.len(), |i: int| s[ps[i]]));
        ps
    } else {
        let rest = s.drop_last();
        let n = rest.len() as int;
        let was = lemma_kept(rest);
        assert(lists(was, 0, n, fit_at(s))) by {
            assert forall|i: int| 0 <= i < was.len() implies 0 <= #[trigger] was[i] < n && fit_at(
                s,
            )(was[i]) by {
                assert(fit_at(rest)(was[i]));
                assert(rest[was[i]] == s[was[i]]);
            }
            assert forall|k: int| 0 <= k < n && #[trigger] fit_at(s)(k) implies was.contains(
                k,
            ) by {
                assert(rest[k] == s[k]);
                assert(fit_at(rest)(k));
            }
        }
        lemma_one_more(was, 0, n, fit_at(s));
        let ps = if fit_at(s)(n) {
            was.push(n)
        } else {
            was
        };
        assert forall|i: int| 0 <= i < was.len() implies s[#[trigger] was[i]] == rest[was[i]] by {
            assert(fit_at(s)(was[i]));
        }
        assert(without_breaks(s) == Seq::new(ps.len(), |i: int| s[ps[i]]));
        ps
    }
}

/// Parts are joined with the separator between each two: none is joined to nothing, one to itself,
/// and lists one behind the other to what they are joined to, with a separator between.
pub proof fn joins_are_joined(a: Seq<Seq<char>>, b: Seq<Seq<char>>, separator: Seq<char>)
    ensures
        a.len() == 0 ==> joined(a, separator).len() == 0,
        a.len() == 1 ==> joined(a, separator) == a[0],
        a.len() > 0 && b.len() > 0 ==> joined(a + b, separator) == joined(a, separator)
            + separator + joined(b, separator),
    decreases b.len(),
{
    if a.len() > 0 && b.len() > 0 {
        let rest = b.drop_last();
        assert((a + b).drop_last() == a + rest);
        assert((a + b).last() == b.last());
        if rest.len() == 0 {
            assert(a + rest == a);
            assert(b == seq![b[0]]);
        } else {
            joins_are_joined(a, rest, separator);
            assert(joined(a + b, separator) == joined(a, separator) + separator + joined(
                b,
                separator,
            ));
        }
    }
}

proof fn lemma_joined_first(a: Seq<char>, rest: Seq<Seq<char>>, separator: Seq<char>)
    requires
        rest.len() > 0,
    ensures
        joined(seq![a] + rest, separator) == a + separator + joined(rest, separator),
{
    joins_are_joined(seq![a], rest, separator);
}

/// The pieces of a text hold no separator, and joined they are the text again.
pub proof fn pieces_are_joined_again(s: Seq<char>, c: char)
    ensures
        pieces(s, c).len() > 0,
        joined(pieces(s, c), seq![c]) == s,
        forall|i: int| 0 <= i < pieces(s, c).len() ==> !(#[trigger] pieces(s, c)[i]).contains(c),
    decreases s.len(),
{
    lemma_before(s, c);
    let n = before(s, c);
    if n < s.len() {
        let rest = s.skip(n + 1);
        pieces_are_joined_again(rest, c);
        lemma_joined_first(s.take(n), pieces(rest, c), seq![c]);
        assert(s == s.take(n) + seq![c] + rest);
        let all = pieces(s, c);
        assert forall|i: int| 0 <= i < all.len() implies !(#[trigger] all[i]).contains(c) by {
            if i > 0 {
                assert(all[i] == pieces(rest, c)[i - 1]);
            }
        }
    } else {
        assert(pieces(s, c)[0] == s);
    }
}

/// A text without line feeds is one line, and so is one with a carriage return and a line feed
/// behind it.
pub proof fn last_lines_need_no_end(r: Seq<char>)
    requires
        forall|i: int| 0 <= i < r.len() ==> #[trigger] r[i] != '\n',
    ensures
        r.len() > 0 ==> line_texts(r) == seq![r],
        r.len() == 0 ==> line_texts(r).len() == 0,
        line_texts(r + seq!['\r', '\n']) == seq![r],
{
    lemma_before_is(r, '\n', r.len() as int);
    let s = r + seq!['\r', '\n'];
    let n = r.len() as int + 1;
    assert forall|i: int| 0 <= i < n implies s[i] != '\n' by {
        if i < r.len() {
            assert(s[i] == r[i]);
        }
    }
    lemma_before_is(s, '\n', n);
    assert(without_cr(s.take(n)) == r);
    assert(s.skip(n + 1) == Seq::<char>::empty());
    assert(line_texts(Seq::<char>::empty()) == Seq::<Seq<char>>::empty());
    assert(line_texts(s) == seq![r] + line_texts(s.skip(n + 1)));
}

/// Replacing changes just the characters that are replaced.
pub proof fn replacing_changes_one_character(s: Seq<char>, from: char, to: char)
    ensures
        replaced(s, from, to).len() == s.len(),
        forall|i: int|
            0 <= i < s.len() ==> #[trigger] replaced(s, from, to)[i] == if s[i] == from {
                to
            } else {
                s[i]
            },
{
}

/// A text begins with a prefix just where it is the prefix and something behind it.
pub proof fn prefixes_are_followed(p: Seq<char>, rest: Seq<char>, s: Seq<char>)
    ensures
        begins_with(p + rest, p),
        begins_with(s, p) ==> s == p + s.skip(p.len() as int),
{
    assert((p + rest).take(p.len() as int) == p);
    if begins_with(s, p) {
        assert(s == p + s.skip(p.len() as int));
    }
}

/// Characters are the same but for case just where they are the same, or are the capital and the
/// small form of one letter of ASCII.
pub proof fn case_is_that_of_letters(c: char, d: char)
    ensures
        ascii_lower(c) == ascii_lower(d) <==> c == d || ('A' <= c <= 'Z' && d as u32 == c as u32
            + 32) || ('A' <= d <= 'Z' && c as u32 == d as u32 + 32),
{
    if 'A' <= c <= 'Z' {
        assert(ascii_lower(c) as u32 == c as u32 + 32);
    }
    if 'A' <= d <= 'Z' {
        assert(ascii_lower(d) as u32 == d as u32 + 32);
    }
}

/// Texts are compared character by character.
pub proof fn case_is_ignored_in_texts(a: Seq<char>, b: Seq<char>)
    ensures
        ascii_lowered(a) == ascii_lowered(b) <==> a.len() == b.len() && forall|i: int|
            0 <= i < a.len() ==> ascii_lower(#[trigger] a[i]) == ascii_lower(b[i]),
{
    if ascii_lowered(a) == ascii_lowered(b) {
        assert(ascii_lowered(a).len() == a.len() && ascii_lowered(b).len() == b.len());
        assert forall|i: int| 0 <= i < a.len() implies ascii_lower(#[trigger] a[i]) == ascii_lower(
            b[i],
        ) by {
            assert(ascii_lowered(a)[i] == ascii_lowered(b)[i]);
        }
    }
    if a.len() == b.len() && forall|i: int|
        0 <= i < a.len() ==> ascii_lower(#[trigger] a[i]) == ascii_lower(b[i]) {
        assert(ascii_lowered(a) == ascii_lowered(b));
    }
}

/// A number in decimal notation does not begin with a zero, unless it is zero.
pub proof fn decimals_begin_without_zero(n: nat)
    ensures
        n > 0 ==> decimal(n)[0] != '0',
        n < 10 ==> decimal(n).len() == 1,
        n >= 10 ==> decimal(n) == decimal(n / 10) + decimal(n % 10),
    decreases n,
{
    if n >= 10 {
        decimals_begin_without_zero(n / 10);
        decimal_is_read_back(n / 10);
        assert(decimal(n) == decimal(n / 10) + decimal(n % 10));
        assert(decimal(n)[0] == decimal(n / 10)[0]);
    }
}

/// A number is filled up with zeros to the width, and no further.
pub proof fn padding_is_zeros(n: nat, width: nat)
    ensures
        decimal(n).len() >= width ==> padded(n, width) == decimal(n),
        decimal(n).len() < width ==> padded(n, width).len() == width && padded(n, width).skip(
            width - decimal(n).len(),
        ) == decimal(n),
        forall|i: int| 0 <= i < width - decimal(n).len() ==> #[trigger] padded(n, width)[i] == '0',
{
    if decimal(n).len() < width {
        assert(padded(n, width).skip(width - decimal(n).len()) == decimal(n));
    }
}

/// A digit more is worth ten times what stands before it, and itself.
pub proof fn digits_are_worth_tens(s: Seq<char>, c: char)
    requires
        '0' <= c <= '9',
    ensures
        value_of(s.push(c)) == 10 * value_of(s) + (c as u32 - '0' as u32),
        value_of(Seq::<char>::empty()) == 0,
{
    assert(s.push(c).drop_last() == s);
}

/// A number is read from digits behind at most one plus sign, and from nothing else.
pub proof fn numbers_are_digits(s: Seq<char>)
    requires
        s.len() > 0,
        forall|i: int| 0 <= i < s.len() ==> '0' <= #[trigger] s[i] <= '9',
        value_of(s) <= usize::MAX,
    ensures
        parsed(s) == Some(value_of(s)),
        parsed(seq!['+'] + s) == Some(value_of(s)),
        parsed(seq!['-'] + s) is None,
        parsed(seq!['+', '+'] + s) is None,
        parsed(Seq::<char>::empty()) is None,
{
    assert(s[0] != '+');
    assert((seq!['+'] + s).skip(1) == s);
    assert((seq!['-'] + s)[0] == '-');
    let two = seq!['+', '+'] + s;
    assert(two.skip(1)[0] == '+');
}

/// A text with another character than a digit behind its first character is no number.
pub proof fn other_characters_are_no_numbers(s: Seq<char>, i: int)
    requires
        0 < i < s.len(),
        !('0' <= s[i] <= '9'),
    ensures
        parsed(s) is None,
{
    if s[0] == '+' {
        assert(s.skip(1)[i - 1] == s[i]);
    }
}

/// A file name with a dot behind its beginning, and none behind that, has the stem before the dot
/// and the extension behind it.
pub proof fn dots_part_names(stem: Seq<char>, extension: Seq<char>)
    requires
        stem.len() > 0,
        !extension.contains('.'),
        stem != seq!['.'] || extension.len() > 0,
    ensures
        stem_of(stem + seq!['.'] + extension) == stem,
        extension_of(stem + seq!['.'] + extension) == Some(extension),
{
    let name = stem + seq!['.'] + extension;
    let n = stem.len() as int;
    lemma_dot_place(name);
    assert(name[n] == '.');
    let i = dot_place(name).unwrap();
    if i > n {
        assert(name[i] == extension[i - n - 1]);
        assert(extension.contains(extension[i - n - 1]));
    }
    assert(i == n);
    reveal_strlit("..");
    if name == ".."@ {
        assert(name.len() == 2);
        assert(stem.len() == 1);
        assert(stem[0] == name[0]);
        assert(stem == seq!['.']);
    }
    assert(name.take(n) == stem);
    assert(name.skip(n + 1) == extension);
}

/// A file name without a dot behind its beginning is all stem.
pub proof fn names_without_dots_are_stems(name: Seq<char>)
    requires
        forall|i: int| 0 < i < name.len() ==> #[trigger] name[i] != '.',
    ensures
        stem_of(name) == name,
        extension_of(name) is None,
{
    lemma_dot_place(name);
}

/// A name is that of a DOCX file just where its extension is `docx`, in capital or small letters.
pub proof fn docx_files_are_known(stem: Seq<char>, extension: Seq<char>)
    requires
        stem.len() > 0,
        !extension.contains('.'),
        stem != seq!['.'] || extension.len() > 0,
    ensures
        docx_name(Some(stem + seq!['.'] + extension)) <==> extension.len() == 4 && (extension[0]
            == 'd' || extension[0] == 'D') && (extension[1] == 'o' || extension[1] == 'O') && (
        extension[2] == 'c' || extension[2] == 'C') && (extension[3] == 'x' || extension[3]
            == 'X'),
        !docx_name(None),
{
    reveal_strlit("docx");
    dots_part_names(stem, extension);
    case_is_ignored_in_texts(extension, "docx"@);
    if extension.len() == 4 {
        case_is_that_of_letters(extension[0], 'd');
        case_is_that_of_letters(extension[1], 'o');
        case_is_that_of_letters(extension[2], 'c');
        case_is_that_of_letters(extension[3], 'x');
        assert("docx"@[0] == 'd' && "docx"@[1] == 'o' && "docx"@[2] == 'c' && "docx"@[3] == 'x');
    }
}

/// A name without a dot is that of no DOCX file.
pub proof fn names_without_dots_are_no_documents(name: Seq<char>)
    requires
        forall|i: int| 0 < i < name.len() ==> #[trigger] name[i] != '.',
    ensures
        !docx_name(Some(name)),
{
    names_without_dots_are_stems(name);
}

proof fn lemma_no_slash(name: Seq<char>)
    requires
        !name.contains('/'),
    ensures
        pieces(name, '/') == seq![name],
{
    assert forall|i: int| 0 <= i < name.len() implies name[i] != '/' by {
        assert(name.contains(name[i]));
    }
    lemma_before_is(name, '/', name.len() as int);
}

proof fn lemma_last_piece(dirs: Seq<char>, name: Seq<char>)
    requires
        !name.contains('/'),
    ensures
        pieces(dirs + seq!['/'] + name, '/') == pieces(dirs, '/').push(name),
    decreases dirs.len(),
{
    lemma_before(dirs, '/');
    let n = before(dirs, '/');
    let s = dirs + seq!['/'] + name;
    lemma_no_slash(name);
    assert forall|i: int| 0 <= i < n implies s[i] != '/' by {
        assert(s[i] == dirs[i]);
    }
    lemma_before_is(s, '/', n);
    assert(s.take(n) == dirs.take(n));
    if n == dirs.len() {
        assert(dirs.take(n) == dirs);
        assert(s.skip(n + 1) == name);
        assert(pieces(s, '/') == seq![dirs] + seq![name]);
        assert(pieces(s, '/') == pieces(dirs, '/').push(name));
    } else {
        let rest = dirs.skip(n + 1);
        assert(s.skip(n + 1) == rest + seq!['/'] + name);
        lemma_last_piece(rest, name);
        assert(pieces(s, '/') == pieces(dirs, '/').push(name));
    }
}

/// The extension of the file that a path leads to is that of its last name.
pub proof fn paths_end_in_names(dirs: Seq<char>, name: Seq<char>)
    requires
        !name.contains('/'),
        name.len() > 0,
        name != seq!['.'],
        name != seq!['.', '.'],
    ensures
        path_extension(dirs + seq!['/'] + name, false) == extension_of(name),
        path_extension(name, false) == extension_of(name),
{
    reveal_strlit(".");
    reveal_strlit("..");
    assert("."@ == seq!['.']);
    assert(".."@ == seq!['.', '.']);
    lemma_last_piece(dirs, name);
    lemma_no_slash(name);
    let parts = pieces(dirs, '/').push(name);
    assert(parts.last() == name);
    assert(last_name(parts) == Some(name));
    assert(seq![name].last() == name);
    assert(last_name(seq![name]) == Some(name));
}

/// A drive before a path is no part of its names, where paths can have drives.
pub proof fn drives_are_left_out(letter: char, path: Seq<char>)
    requires
        'a' <= letter <= 'z' || 'A' <= letter <= 'Z',
    ensures
        path_extension(seq![letter, ':'] + path, true) == path_extension(path, false),
{
    let whole = seq![letter, ':'] + path;
    assert(whole[0] == letter && whole[1] == ':');
    assert(whole.skip(2) == path);
    assert(without_drive(whole, true) == path);
}

/// A path that begins with no drive has the same names, whether paths can have drives or not.
pub proof fn paths_without_drives_stay(path: Seq<char>)
    requires
        path.len() < 2 || path[1] != ':' || !('a' <= path[0] <= 'z' || 'A' <= path[0] <= 'Z'),
    ensures
        path_extension(path, true) == path_extension(path, false),
{
}

/// The target of a relationship is an entry of the archive: one below `word` as it is, one from the
/// root without its slashes, and any other below `word`. Backslashes count as slashes.
pub proof fn targets_stand_for_entries(t: Seq<char>)
    requires
        !t.contains('\\'),
    ensures
        word_target(seq!['w', 'o', 'r', 'd', '/'] + t) == seq!['w', 'o', 'r', 'd', '/'] + t,
        t.len() == 0 || t[0] != '/' ==> word_target(seq!['/'] + t) == t,
        t.len() == 0 || t[0] != '/' ==> word_target(seq!['/', '/'] + t) == t,
        (t.len() == 0 || t[0] != '/') && !begins_with(t, seq!['w', 'o', 'r', 'd', '/'])
            ==> word_target(t) == seq!['w', 'o', 'r', 'd', '/'] + t,
{
    reveal_strlit("word/");
    let w = seq!['w', 'o', 'r', 'd', '/'];
    assert("word/"@ == w);
    lemma_no_backslash(t);
    lemma_no_backslash(w + t);
    lemma_no_backslash(seq!['/'] + t);
    lemma_no_backslash(seq!['/', '/'] + t);
    assert((w + t).take(5) == w);
    let one = seq!['/'] + t;
    let two = seq!['/', '/'] + t;
    assert(one.take(1) == seq!['/']);
    assert(two.take(1) == seq!['/']);
    assert(one[0] == '/' && two[0] == '/');
    assert(w[0] == 'w');
    if begins_with(one, w) {
        assert(one.take(5)[0] == '/');
    }
    if begins_with(two, w) {
        assert(two.take(5)[0] == '/');
    }
    if t.len() == 0 || t[0] != '/' {
        lemma_cut_start(seq!['/'], t, CharClass::Slash);
        lemma_cut_start(seq!['/', '/'], t, CharClass::Slash);
        if begins_with(t, seq!['/']) {
            assert(t.take(1)[0] == '/');
        }
    }
}

proof fn lemma_no_backslash(t: Seq<char>)
    requires
        forall|i: int| 0 <= i < t.len() ==> #[trigger] t[i] != '\\',
    ensures
        replaced(t, '\\', '/') == t,
{
}

/// A target with backslashes stands for the same entry as the one with slashes.
pub proof fn backslashes_count_as_slashes(t: Seq<char>)
    ensures
        word_target(t) == word_target(replaced(t, '\\', '/')),
{
    assert(replaced(replaced(t, '\\', '/'), '\\', '/') == replaced(t, '\\', '/'));
}

/// A text comes before another by the first characters in which they differ, and before its
/// continuations.
pub proof fn texts_are_ordered_by_characters(
    p: Seq<char>,
    c: char,
    x: Seq<char>,
    d: char,
    y: Seq<char>,
)
    requires
        c < d,
    ensures
        text_less(p + seq![c] + x, p + seq![d] + y),
        text_less(p, p + seq![c] + x),
    decreases p.len(),
{
    let a = p + seq![c] + x;
    let b = p + seq![d] + y;
    if p.len() > 0 {
        let rest = p.drop_first();
        texts_are_ordered_by_characters(rest, c, x, d, y);
        assert(a.drop_first() == rest + seq![c] + x);
        assert(b.drop_first() == rest + seq![d] + y);
        assert(a[0] == p[0] && b[0] == p[0]);
    } else {
        assert(a[0] == c && b[0] == d);
    }
}

/// A path comes before another by the first names in which they differ, and before the paths below
/// it.
pub proof fn paths_are_ordered_by_names(
    p: Seq<Seq<char>>,
    c: Seq<char>,
    x: Seq<Seq<char>>,
    d: Seq<char>,
    y: Seq<Seq<char>>,
)
    requires
        text_less(c, d),
    ensures
        path_less(p + seq![c] + x, p + seq![d] + y),
        path_less(p, p + seq![c] + x),
    decreases p.len(),
{
    crate::order::lemma_text_total(c, d);
    let a = p + seq![c] + x;
    let b = p + seq![d] + y;
    if p.len() > 0 {
        let rest = p.drop_first();
        paths_are_ordered_by_names(rest, c, x, d, y);
        assert(a.drop_first() == rest + seq![c] + x);
        assert(b.drop_first() == rest + seq![d] + y);
        assert(a[0] == p[0] && b[0] == p[0]);
    } else {
        assert(a[0] == c && b[0] == d);
    }
}

} // verus!
