//! Laws of the text primitives.

use vstd::prelude::*;

use crate::names::{breaks_field, field_text, typed_path, without_breaks, word_target};
use crate::text::{
    before,
    begins_with,
    cut_end,
    cut_ends,
    cut_start,
    lemma_before,
    lemma_before_is,
    line_texts,
    pieces,
    replaced,
    trimmed,
    without_cr,
    CharClass,
};

verus! {

/// What is left of a text after a cut at its start is its end, and begins with no character of the
/// class.
pub proof fn cut_start_leaves_end(s: Seq<char>, class: CharClass)
    ensures
        cut_start(s, class).len() <= s.len(),
        cut_start(s, class) == s.skip(s.len() - cut_start(s, class).len()),
        cut_start(s, class).len() > 0 ==> !class.holds(cut_start(s, class)[0]),
    decreases s.len(),
{
    if s.len() > 0 && class.holds(s[0]) {
        cut_start_leaves_end(s.drop_first(), class);
        let n = cut_start(s, class).len();
        assert(s.drop_first().skip(s.len() - 1 - n) == s.skip(s.len() - n));
    } else {
        assert(s.skip(0) == s);
    }
}

/// What is left of a text after a cut at its end is its beginning, and ends with no character of
/// the class.
pub proof fn cut_end_leaves_start(s: Seq<char>, class: CharClass)
    ensures
        cut_end(s, class).len() <= s.len(),
        cut_end(s, class) == s.take(cut_end(s, class).len() as int),
        cut_end(s, class).len() > 0 ==> !class.holds(cut_end(s, class).last()),
    decreases s.len(),
{
    if s.len() > 0 && class.holds(s.last()) {
        cut_end_leaves_start(s.drop_last(), class);
        let n = cut_end(s, class).len() as int;
        assert(s.drop_last().take(n) == s.take(n));
    } else {
        assert(s.take(s.len() as int) == s);
    }
}

/// A cut text has no character of the class at either end, is part of the text that it was cut
/// from, and a second cut changes nothing.
pub proof fn cut_ends_is_final(s: Seq<char>, class: CharClass)
    ensures
        cut_ends(s, class).len() > 0 ==> !class.holds(cut_ends(s, class)[0]) && !class.holds(
            cut_ends(s, class).last(),
        ),
        forall|c: char| cut_ends(s, class).contains(c) ==> s.contains(c),
        cut_ends(cut_ends(s, class), class) == cut_ends(s, class),
{
    let mid = cut_start(s, class);
    let r = cut_ends(s, class);
    cut_start_leaves_end(s, class);
    cut_end_leaves_start(mid, class);
    if r.len() > 0 {
        assert(r[0] == mid[0]);
    }
    assert forall|c: char| r.contains(c) implies s.contains(c) by {
        let i = choose|i: int| 0 <= i < r.len() && r[i] == c;
        assert(mid[i] == c);
        assert(s[s.len() - mid.len() + i] == c);
    }
}

/// Text without white space at its ends is trimmed.
pub proof fn trimmed_already(s: Seq<char>)
    requires
        s.len() > 0 ==> !CharClass::White.holds(s[0]) && !CharClass::White.holds(s.last()),
    ensures
        trimmed(s) == s,
{
}

/// No character that breaks a field is left.
pub proof fn without_breaks_has_none(s: Seq<char>)
    ensures
        forall|c: char| #[trigger] without_breaks(s).contains(c) ==> !breaks_field(c),
        (forall|i: int| 0 <= i < s.len() ==> !breaks_field(#[trigger] s[i])) ==> without_breaks(s)
            == s,
    decreases s.len(),
{
    if s.len() > 0 {
        without_breaks_has_none(s.drop_last());
        let earlier = without_breaks(s.drop_last());
        assert forall|c: char| #[trigger] without_breaks(s).contains(c) implies !breaks_field(
            c,
        ) by {
            if !breaks_field(s.last()) {
                let i = choose|i: int|
                    0 <= i < without_breaks(s).len() && without_breaks(s)[i] == c;
                if i < earlier.len() {
                    assert(earlier[i] == c);
                    assert(earlier.contains(c));
                }
            }
        }
        if forall|i: int| 0 <= i < s.len() ==> !breaks_field(#[trigger] s[i]) {
            assert forall|i: int| 0 <= i < s.drop_last().len() implies !breaks_field(
                #[trigger] s.drop_last()[i],
            ) by {
                assert(s.drop_last()[i] == s[i]);
            }
            assert(s.drop_last().push(s.last()) == s);
        }
    }
}

/// A text made fit for a field holds no tab and no line end, has no white space at its ends, and
/// is fit as it is.
pub proof fn field_text_is_fit(s: Seq<char>)
    ensures
        forall|i: int| 0 <= i < field_text(s).len() ==> !breaks_field(#[trigger] field_text(s)[i]),
        field_text(s).len() > 0 ==> !CharClass::White.holds(field_text(s)[0])
            && !CharClass::White.holds(field_text(s).last()),
        trimmed(field_text(s)) == field_text(s),
        field_text(field_text(s)) == field_text(s),
{
    let kept = without_breaks(s);
    let r = field_text(s);
    without_breaks_has_none(s);
    cut_ends_is_final(kept, CharClass::White);
    assert forall|i: int| 0 <= i < r.len() implies !breaks_field(#[trigger] r[i]) by {
        assert(r.contains(r[i]));
        assert(kept.contains(r[i]));
    }
    without_breaks_has_none(r);
}

/// Lines of a text that ends with a line feed stay lines when more text follows.
pub proof fn lines_of_two(t: Seq<char>, s: Seq<char>)
    requires
        t.len() > 0 ==> t.last() == '\n',
    ensures
        line_texts(t + s) == line_texts(t) + line_texts(s),
    decreases t.len(),
{
    if t.len() == 0 {
        assert(t + s == s);
    } else {
        let n = before(t, '\n');
        lemma_before(t, '\n');
        if n == t.len() {
            assert(t[t.len() - 1] != '\n');
        }
        assert forall|i: int| 0 <= i < n implies (t + s)[i] != '\n' by {
            assert((t + s)[i] == t[i]);
        }
        lemma_before_is(t + s, '\n', n);
        let rest = t.skip(n + 1);
        assert((t + s).take(n) == t.take(n));
        assert((t + s).skip(n + 1) == rest + s);
        if rest.len() > 0 {
            assert(rest.last() == t.last());
        }
        lines_of_two(rest, s);
        assert(line_texts(t + s) == seq![without_cr(t.take(n))] + (line_texts(rest) + line_texts(
            s,
        )));
    }
}

/// A text without line feed, and without carriage return at its end, is a line when a line feed
/// follows.
pub proof fn line_of_one(r: Seq<char>)
    requires
        forall|i: int| 0 <= i < r.len() ==> r[i] != '\n',
        r.len() > 0 ==> r.last() != '\r',
    ensures
        line_texts(r + "\n"@) == seq![r],
{
    reveal_strlit("\n");
    let s = r + "\n"@;
    lemma_before_is(s, '\n', r.len() as int);
    assert(s.take(r.len() as int) == r);
    assert(s.skip(r.len() as int + 1) == Seq::<char>::empty());
    assert(line_texts(Seq::<char>::empty()) == Seq::<Seq<char>>::empty());
    assert(line_texts(s) == seq![r] + line_texts(s.skip(r.len() as int + 1)));
}

/// The first piece is what stands before the first separator.
pub proof fn pieces_of_two(a: Seq<char>, b: Seq<char>, c: char)
    requires
        forall|i: int| 0 <= i < a.len() ==> a[i] != c,
    ensures
        pieces(a, c) == seq![a],
        pieces(a + seq![c] + b, c) == seq![a] + pieces(b, c),
{
    lemma_before_is(a, c, a.len() as int);
    let s = a + seq![c] + b;
    assert forall|i: int| 0 <= i < a.len() implies s[i] != c by {
        assert(s[i] == a[i]);
    }
    lemma_before_is(s, c, a.len() as int);
    assert(s.take(a.len() as int) == a);
    assert(s.skip(a.len() as int + 1) == b);
}

/// The entry that a relationship leads to never begins with a slash, and holds no backslash.
pub proof fn word_target_is_relative(target: Seq<char>)
    ensures
        !begins_with(word_target(target), seq!['/']),
        !word_target(target).contains('\\'),
{
    let t = replaced(target, '\\', '/');
    assert forall|i: int| 0 <= i < t.len() implies t[i] != '\\' by {}
    reveal_strlit("word/");
    let r = word_target(target);
    cut_start_leaves_end(t, CharClass::Slash);
    assert forall|i: int| 0 <= i < r.len() implies r[i] != '\\' by {
        if begins_with(t, "word/"@) {
        } else if begins_with(t, seq!['/']) {
            assert(r[i] == t[t.len() - r.len() + i]);
        } else if i >= "word/"@.len() {
            assert(r[i] == t[i - "word/"@.len()]);
        }
    }
    if begins_with(r, seq!['/']) {
        assert(r.take(1)[0] == '/');
        if begins_with(t, "word/"@) {
            assert(t.take(5)[0] == 'w');
        }
    }
}

/// A typed path taken over has no quote at either end, and taking it over changes a path without
/// white space and quotes at its ends in nothing.
pub proof fn typed_path_is_bare(s: Seq<char>)
    ensures
        typed_path(s).len() > 0 ==> typed_path(s)[0] != '"' && typed_path(s).last() != '"',
        s.len() > 0 && !CharClass::White.holds(s[0]) && !CharClass::White.holds(s.last()) && s[0]
            != '"' && s.last() != '"' ==> typed_path(s) == s,
{
    cut_ends_is_final(trimmed(s), CharClass::Quote);
}

} // verus!
