//! Text primitives: every string is read as its sequence of characters.

use vstd::prelude::*;

verus! {

/// `String::push` appends the character at the end.
pub assume_specification[ String::push ](s: &mut String, c: char)
    ensures
        final(s)@ == old(s)@.push(c),
;

/// `String::pop` takes the last character off, and hands it out; an empty string stays as it is.
pub assume_specification[ String::pop ](s: &mut String) -> (r: Option<char>)
    ensures
        old(s)@.len() == 0 ==> r is None && final(s)@ == old(s)@,
        old(s)@.len() > 0 ==> r == Some(old(s)@.last()) && final(s)@ == old(s)@.drop_last(),
;

/// The characters of a string, in order.
pub fn chars_of(s: &str) -> (r: Vec<char>)
    ensures
        r@ == s@,
{
    let mut r: Vec<char> = Vec::new();
    for c in it: s.chars()
        invariant
            it.seq() == s@,
            r@ == s@.take(it.index() as int),
    {
        r.push(c);
    }
    assert(s@.take(s@.len() as int) == s@);
    r
}

/// Whether two texts are the same.
pub fn same_text(a: &str, b: &str) -> (r: bool)
    ensures
        r == (a@ == b@),
{
    let right = chars_of(b);
    let mut i: usize = 0;
    for c in it: a.chars()
        invariant
            it.seq() == a@,
            i == it.index(),
            i <= right@.len(),
            right@ == b@,
            a@.take(i as int) == b@.take(i as int),
    {
        if i >= right.len() || right[i] != c {
            assert(a@[i as int] == c);
            return false;
        }
        assert(a@.take(i + 1) == a@.take(i as int).push(c));
        assert(b@.take(i + 1) == b@.take(i as int).push(c));
        i = i + 1;
    }
    assert(a@.take(i as int) == a@);
    if i == right.len() {
        assert(b@.take(i as int) == b@);
    }
    i == right.len()
}

/// The characters from `from` up to, not including, `to` as a string.
pub fn string_of(chars: &Vec<char>, from: usize, to: usize) -> (r: String)
    requires
        from <= to <= chars@.len(),
    ensures
        r@ == chars@.subrange(from as int, to as int),
{
    let mut r = String::new();
    let mut i: usize = from;
    while i < to
        invariant
            from <= i <= to <= chars@.len(),
            r@ == chars@.subrange(from as int, i as int),
        decreases to - i,
    {
        r.push(chars[i]);
        i = i + 1;
        assert(chars@.subrange(from as int, i as int) =~= chars@.subrange(
            from as int,
            i - 1,
        ).push(chars@[i - 1]));
    }
    r
}

/// One text behind another.
pub fn concat(a: &str, b: &str) -> (r: String)
    ensures
        r@ == a@ + b@,
{
    let mut r = a.to_owned();
    r.append(b);
    r
}

/// The characters with the Unicode property `White_Space`.
pub open spec fn is_white(c: char) -> bool {
    ||| '\u{9}' <= c <= '\u{d}'
    ||| c == '\u{20}'
    ||| c == '\u{85}'
    ||| c == '\u{a0}'
    ||| c == '\u{1680}'
    ||| '\u{2000}' <= c <= '\u{200a}'
    ||| '\u{2028}' <= c <= '\u{2029}'
    ||| c == '\u{202f}'
    ||| c == '\u{205f}'
    ||| c == '\u{3000}'
}

/// Whether `c` is white space.
pub fn is_whitespace(c: char) -> (r: bool)
    ensures
        r == is_white(c),
{
    ('\u{9}' <= c && c <= '\u{d}') || c == '\u{20}' || c == '\u{85}' || c == '\u{a0}' || c
        == '\u{1680}' || ('\u{2000}' <= c && c <= '\u{200a}') || ('\u{2028}' <= c && c <= '\u{2029}')
        || c == '\u{202f}' || c == '\u{205f}' || c == '\u{3000}'
}

/// A class of characters that can be cut off the ends of a text.
#[derive(Clone, Copy, Debug, PartialEq, Eq, Structural)]
pub enum CharClass {
    /// White space.
    White,
    /// The double quote.
    Quote,
    /// Carriage return, line feed and the double quote.
    QuoteOrLineEnd,
    /// The slash.
    Slash,
}

impl CharClass {
    /// The characters of the class.
    pub open spec fn holds(self, c: char) -> bool {
        match self {
            CharClass::White => is_white(c),
            CharClass::Quote => c == '"',
            CharClass::QuoteOrLineEnd => c == '\r' || c == '\n' || c == '"',
            CharClass::Slash => c == '/',
        }
    }

    /// Whether `c` is of the class.
    pub fn has(self, c: char) -> (r: bool)
        ensures
            r == self.holds(c),
    {
        match self {
            CharClass::White => is_whitespace(c),
            CharClass::Quote => c == '"',
            CharClass::QuoteOrLineEnd => c == '\r' || c == '\n' || c == '"',
            CharClass::Slash => c == '/',
        }
    }
}

/// `s` without its longest prefix of characters of the class.
pub open spec fn cut_start(s: Seq<char>, class: CharClass) -> Seq<char>
    decreases s.len(),
{
    if s.len() > 0 && class.holds(s[0]) {
        cut_start(s.drop_first(), class)
    } else {
        s
    }
}

/// `s` without its longest suffix of characters of the class.
pub open spec fn cut_end(s: Seq<char>, class: CharClass) -> Seq<char>
    decreases s.len(),
{
    if s.len() > 0 && class.holds(s.last()) {
        cut_end(s.drop_last(), class)
    } else {
        s
    }
}

/// `s` without characters of the class at either end.
pub open spec fn cut_ends(s: Seq<char>, class: CharClass) -> Seq<char> {
    cut_end(cut_start(s, class), class)
}

/// `s` without white space at either end.
pub open spec fn trimmed(s: Seq<char>) -> Seq<char> {
    cut_ends(s, CharClass::White)
}

/// Cuts the characters of the class off the start.
pub fn trim_start_of(s: &str, class: CharClass) -> (r: String)
    ensures
        r@ == cut_start(s@, class),
{
    let chars = chars_of(s);
    let mut from: usize = 0;
    assert(chars@.skip(0) == chars@);
    while from < chars.len() && class.has(chars[from])
        invariant
            from <= chars@.len(),
            cut_start(chars@, class) == cut_start(chars@.skip(from as int), class),
        decreases chars.len() - from,
    {
        assert(chars@.skip(from as int).drop_first() == chars@.skip(from + 1));
        from = from + 1;
    }
    string_of(&chars, from, chars.len())
}

/// Cuts the characters of the class off both ends.
pub fn trim_of(s: &str, class: CharClass) -> (r: String)
    ensures
        r@ == cut_ends(s@, class),
{
    let chars = chars_of(s);
    let mut from: usize = 0;
    assert(chars@.skip(0) == chars@);
    while from < chars.len() && class.has(chars[from])
        invariant
            from <= chars@.len(),
            cut_start(chars@, class) == cut_start(chars@.skip(from as int), class),
        decreases chars.len() - from,
    {
        assert(chars@.skip(from as int).drop_first() == chars@.skip(from + 1));
        from = from + 1;
    }
    let ghost kept = chars@.skip(from as int);
    let mut to: usize = chars.len();
    assert(chars@.subrange(from as int, to as int) == kept);
    while to > from && class.has(chars[to - 1])
        invariant
            from <= to <= chars@.len(),
            cut_end(kept, class) == cut_end(chars@.subrange(from as int, to as int), class),
        decreases to,
    {
        assert(chars@.subrange(from as int, to as int).drop_last() == chars@.subrange(
            from as int,
            to - 1,
        ));
        to = to - 1;
    }
    string_of(&chars, from, to)
}

/// Cuts white space off both ends.
pub fn trim(s: &str) -> (r: String)
    ensures
        r@ == trimmed(s@),
{
    trim_of(s, CharClass::White)
}

/// How many characters stand before the first `c`: the length of `s` where there is none.
pub open spec fn before(s: Seq<char>, c: char) -> int
    decreases s.len(),
{
    if s.len() == 0 || s[0] == c {
        0
    } else {
        1 + before(s.drop_first(), c)
    }
}

pub proof fn lemma_before(s: Seq<char>, c: char)
    ensures
        0 <= before(s, c) <= s.len(),
        forall|i: int| 0 <= i < before(s, c) ==> s[i] != c,
        before(s, c) < s.len() ==> s[before(s, c)] == c,
    decreases s.len(),
{
    if s.len() > 0 && s[0] != c {
        lemma_before(s.drop_first(), c);
        assert forall|i: int| 0 <= i < before(s, c) implies s[i] != c by {
            if i > 0 {
                assert(s.drop_first()[i - 1] == s[i]);
            }
        }
    }
}

/// A place that holds `c`, with none before it, is where the first `c` stands.
pub proof fn lemma_before_is(s: Seq<char>, c: char, n: int)
    requires
        0 <= n <= s.len(),
        forall|i: int| 0 <= i < n ==> s[i] != c,
        n < s.len() ==> s[n] == c,
    ensures
        before(s, c) == n,
{
    lemma_before(s, c);
    if before(s, c) < n {
        assert(s[before(s, c)] == c);
    }
}

/// The index from `from` on at which the first `c` stands, or the length.
fn find_char(chars: &Vec<char>, c: char, from: usize) -> (r: usize)
    requires
        from <= chars@.len(),
    ensures
        from <= r <= chars@.len(),
        r - from == before(chars@.skip(from as int), c),
{
    let mut i: usize = from;
    while i < chars.len() && chars[i] != c
        invariant
            from <= i <= chars@.len(),
            forall|j: int| from <= j < i ==> chars@[j] != c,
        decreases chars.len() - i,
    {
        i = i + 1;
    }
    proof {
        lemma_before_is(chars@.skip(from as int), c, i - from);
    }
    i
}

/// The pieces of `s` between the separators `c`: one more than there are separators.
pub open spec fn pieces(s: Seq<char>, c: char) -> Seq<Seq<char>>
    decreases s.len(),
    via pieces_decreases
{
    if before(s, c) == s.len() {
        seq![s]
    } else {
        seq![s.take(before(s, c))] + pieces(s.skip(before(s, c) + 1), c)
    }
}

#[via_fn]
proof fn pieces_decreases(s: Seq<char>, c: char) {
    lemma_before(s, c);
}

/// The text of each string.
pub open spec fn texts(v: Seq<String>) -> Seq<Seq<char>> {
    Seq::new(v.len(), |i: int| v[i]@)
}

/// Adds a text to a list.
pub fn push_text(list: &mut Vec<String>, text: String)
    ensures
        texts(final(list)@) == texts(old(list)@).push(text@),
{
    let ghost was = texts(list@);
    list.push(text);
    assert(texts(list@) == was.push(text@));
}

/// Splits `s` at every `c`.
pub fn split(s: &str, c: char) -> (r: Vec<String>)
    ensures
        texts(r@) == pieces(s@, c),
{
    let chars = chars_of(s);
    let mut r: Vec<String> = Vec::new();
    let mut from: usize = 0;
    let mut end: usize = find_char(&chars, c, 0);
    proof {
        assert(chars@.skip(0) == chars@);
        lemma_before(chars@, c);
    }
    assert(texts(r@) + pieces(chars@, c) == pieces(chars@, c));
    while end < chars.len()
        invariant
            from <= end <= chars@.len(),
            end - from == before(chars@.skip(from as int), c),
            texts(r@) + pieces(chars@.skip(from as int), c) == pieces(chars@, c),
        decreases chars.len() - from,
    {
        let ghost rest = chars@.skip(from as int);
        let ghost was = texts(r@);
        proof {
            lemma_before(rest, c);
        }
        r.push(string_of(&chars, from, end));
        assert(chars@.subrange(from as int, end as int) == rest.take(end - from));
        assert(texts(r@) == was.push(rest.take(end - from)));
        from = end + 1;
        assert(rest.skip(before(rest, c) + 1) == chars@.skip(from as int));
        assert(was.push(rest.take(before(rest, c))) + pieces(chars@.skip(from as int), c)
            == was + (seq![rest.take(before(rest, c))] + pieces(chars@.skip(from as int), c)));
        end = find_char(&chars, c, from);
    }
    let ghost rest = chars@.skip(from as int);
    let ghost was = texts(r@);
    proof {
        lemma_before(rest, c);
    }
    r.push(string_of(&chars, from, chars.len()));
    assert(chars@.subrange(from as int, chars@.len() as int) == rest);
    assert(texts(r@) == was + seq![rest]);
    r
}

/// `s` without one carriage return at its end.
pub open spec fn without_cr(s: Seq<char>) -> Seq<char> {
    if s.len() > 0 && s.last() == '\r' {
        s.drop_last()
    } else {
        s
    }
}

/// The lines of `s`: a line ends at a line feed, or a carriage return and a line feed, or at the
/// end of the text. Where the text ends with a line feed, no empty line follows it.
pub open spec fn line_texts(s: Seq<char>) -> Seq<Seq<char>>
    decreases s.len(),
    via line_texts_decreases
{
    if s.len() == 0 {
        seq![]
    } else if before(s, '\n') == s.len() {
        seq![s]
    } else {
        seq![without_cr(s.take(before(s, '\n')))] + line_texts(s.skip(before(s, '\n') + 1))
    }
}

#[via_fn]
proof fn line_texts_decreases(s: Seq<char>) {
    lemma_before(s, '\n');
}

/// The lines of a text.
pub fn lines(s: &str) -> (r: Vec<String>)
    ensures
        texts(r@) == line_texts(s@),
{
    let chars = chars_of(s);
    let mut r: Vec<String> = Vec::new();
    let mut from: usize = 0;
    assert(chars@.skip(0) == chars@);
    assert(texts(r@) + line_texts(chars@) == line_texts(chars@));
    while from < chars.len()
        invariant
            from <= chars@.len(),
            texts(r@) + line_texts(chars@.skip(from as int)) == line_texts(chars@),
        decreases chars.len() - from,
    {
        let ghost rest = chars@.skip(from as int);
        let ghost was = texts(r@);
        let end = find_char(&chars, '\n', from);
        proof {
            lemma_before(rest, '\n');
        }
        if end == chars.len() {
            r.push(string_of(&chars, from, end));
            assert(chars@.subrange(from as int, end as int) == rest);
            assert(chars@.skip(end as int) == Seq::<char>::empty());
            assert(texts(r@) == was + seq![rest]);
            assert(texts(r@) + line_texts(chars@.skip(end as int)) == texts(r@));
            from = end;
        } else {
            let ghost line = rest.take(before(rest, '\n'));
            assert(line == chars@.subrange(from as int, end as int));
            if end > from && chars[end - 1] == '\r' {
                r.push(string_of(&chars, from, end - 1));
                assert(chars@.subrange(from as int, end - 1) == without_cr(line));
            } else {
                r.push(string_of(&chars, from, end));
            }
            assert(texts(r@) == was.push(without_cr(line)));
            from = end + 1;
            assert(rest.skip(before(rest, '\n') + 1) == chars@.skip(from as int));
            assert(was.push(without_cr(line)) + line_texts(chars@.skip(from as int)) == was + (
            seq![without_cr(line)] + line_texts(chars@.skip(from as int))));
        }
    }
    assert(chars@.skip(from as int) == Seq::<char>::empty());
    assert(texts(r@) + line_texts(chars@.skip(from as int)) == texts(r@));
    r
}

/// The parts one after the other, with the separator between each two.
pub open spec fn joined(parts: Seq<Seq<char>>, separator: Seq<char>) -> Seq<char>
    decreases parts.len(),
{
    if parts.len() == 0 {
        seq![]
    } else if parts.len() == 1 {
        parts[0]
    } else {
        joined(parts.drop_last(), separator) + separator + parts.last()
    }
}

/// Joins the parts with the separator.
pub fn join(parts: &Vec<String>, separator: &str) -> (r: String)
    ensures
        r@ == joined(texts(parts@), separator@),
{
    let mut r = String::new();
    let mut i: usize = 0;
    while i < parts.len()
        invariant
            i <= parts@.len(),
            r@ == joined(texts(parts@).take(i as int), separator@),
        decreases parts.len() - i,
    {
        if i > 0 {
            r.append(separator);
        }
        r.append(parts[i].as_str());
        i = i + 1;
        let ghost upto = texts(parts@).take(i as int);
        assert(upto.drop_last() == texts(parts@).take(i - 1));
        assert(upto.last() == parts@[i - 1]@);
        assert(r@ == joined(upto, separator@));
    }
    assert(texts(parts@).take(i as int) == texts(parts@));
    r
}

/// `s` with each `from` turned into `to`.
pub open spec fn replaced(s: Seq<char>, from: char, to: char) -> Seq<char> {
    Seq::new(
        s.len(),
        |i: int|
            if s[i] == from {
                to
            } else {
                s[i]
            },
    )
}

/// Turns each `from` into `to`.
pub fn replace(s: &str, from: char, to: char) -> (r: String)
    ensures
        r@ == replaced(s@, from, to),
{
    let chars = chars_of(s);
    let mut r = String::new();
    let mut i: usize = 0;
    while i < chars.len()
        invariant
            i <= chars@.len(),
            r@ == replaced(chars@, from, to).take(i as int),
        decreases chars.len() - i,
    {
        if chars[i] == from {
            r.push(to);
        } else {
            r.push(chars[i]);
        }
        i = i + 1;
        assert(r@ == replaced(chars@, from, to).take(i as int));
    }
    assert(replaced(chars@, from, to).take(i as int) == replaced(chars@, from, to));
    r
}

/// Whether `s` begins with `prefix`.
pub open spec fn begins_with(s: Seq<char>, prefix: Seq<char>) -> bool {
    prefix.len() <= s.len() && s.take(prefix.len() as int) == prefix
}

/// What follows `prefix` in a text that begins with it.
pub fn strip_prefix(s: &str, prefix: &str) -> (r: Option<String>)
    ensures
        r is Some <==> begins_with(s@, prefix@),
        r matches Some(rest) ==> rest@ == s@.skip(prefix@.len() as int),
{
    let chars = chars_of(s);
    let head = chars_of(prefix);
    if head.len() > chars.len() {
        return None;
    }
    let mut i: usize = 0;
    while i < head.len()
        invariant
            i <= head@.len() <= chars@.len(),
            forall|j: int| 0 <= j < i ==> chars@[j] == head@[j],
            chars@ == s@,
            head@ == prefix@,
        decreases head.len() - i,
    {
        if chars[i] != head[i] {
            assert(s@.take(prefix@.len() as int)[i as int] != prefix@[i as int]);
            return None;
        }
        i = i + 1;
    }
    assert(s@.take(prefix@.len() as int) == prefix@);
    assert(chars@.subrange(head@.len() as int, chars@.len() as int) == s@.skip(
        prefix@.len() as int,
    ));
    Some(string_of(&chars, head.len(), chars.len()))
}

/// `c` in lower case, where it is a capital letter of ASCII.
pub open spec fn ascii_lower(c: char) -> char {
    if 'A' <= c <= 'Z' {
        (c as u32 + 32) as char
    } else {
        c
    }
}

/// `s` with the capital letters of ASCII in lower case.
pub open spec fn ascii_lowered(s: Seq<char>) -> Seq<char> {
    Seq::new(s.len(), |i: int| ascii_lower(s[i]))
}

fn to_ascii_lower(c: char) -> (r: char)
    ensures
        r == ascii_lower(c),
{
    if 'A' <= c && c <= 'Z' {
        let code: u8 = c as u8;
        (code + 32) as char
    } else {
        c
    }
}

/// Whether two texts are the same but for the case of ASCII letters.
pub fn same_ignoring_case(a: &str, b: &str) -> (r: bool)
    ensures
        r == (ascii_lowered(a@) == ascii_lowered(b@)),
{
    let left = chars_of(a);
    let right = chars_of(b);
    if left.len() != right.len() {
        assert(ascii_lowered(a@).len() != ascii_lowered(b@).len());
        return false;
    }
    let mut i: usize = 0;
    while i < left.len()
        invariant
            i <= left@.len() == right@.len(),
            forall|j: int| 0 <= j < i ==> ascii_lower(left@[j]) == ascii_lower(right@[j]),
            left@ == a@,
            right@ == b@,
        decreases left.len() - i,
    {
        if to_ascii_lower(left[i]) != to_ascii_lower(right[i]) {
            assert(ascii_lowered(a@)[i as int] != ascii_lowered(b@)[i as int]);
            return false;
        }
        i = i + 1;
    }
    assert(ascii_lowered(a@) == ascii_lowered(b@));
    true
}

/// The lower case of a text under the Unicode rules, as `str::to_lowercase` gives it.
pub uninterp spec fn unicode_lowered(s: Seq<char>) -> Seq<char>;

/// `str::to_lowercase`: its result is a function of the text alone.
#[verifier::external_body]
pub(crate) fn to_lowercase(s: &str) -> (r: String)
    ensures
        r@ == unicode_lowered(s@),
{
    s.to_lowercase()
}

} // verus!
