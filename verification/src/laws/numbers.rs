//! Numbers and their texts.

use vstd::prelude::*;

use crate::images::image_path;
use crate::number::{all_digits, decimal, is_digit, padded, parsed, value_of, without_plus};
use crate::paragraph::style_level;
use crate::text::begins_with;

verus! {

/// A number in decimal notation is made of digits, and stands for the number.
pub proof fn decimal_is_read_back(n: nat)
    ensures
        decimal(n).len() > 0,
        all_digits(decimal(n)),
        value_of(decimal(n)) == n,
        n <= usize::MAX ==> parsed(decimal(n)) == Some(n),
    decreases n,
{
    let d = decimal(n);
    if n < 10 {
        assert(d.drop_last() == Seq::<char>::empty());
        assert(value_of(Seq::<char>::empty()) == 0);
    } else {
        decimal_is_read_back(n / 10);
        assert(d.drop_last() == decimal(n / 10));
        assert forall|i: int| 0 <= i < d.len() implies is_digit(#[trigger] d[i]) by {
            if i < d.len() - 1 {
                assert(d[i] == decimal(n / 10)[i]);
            }
        }
    }
    assert(is_digit(d[0]));
    assert(without_plus(d) == d);
}

proof fn lemma_zeros(k: nat, s: Seq<char>)
    ensures
        value_of(Seq::new(k, |i: int| '0') + s) == value_of(s),
    decreases s.len(), k,
{
    let zeros = Seq::new(k, |i: int| '0');
    let all = zeros + s;
    if s.len() > 0 {
        lemma_zeros(k, s.drop_last());
        assert(all.drop_last() == zeros + s.drop_last());
    } else if k > 0 {
        lemma_zeros((k - 1) as nat, s);
        assert(all.drop_last() == Seq::new((k - 1) as nat, |i: int| '0') + s);
    } else {
        assert(all == s);
    }
}

/// Leading zeros do not change what a number stands for.
pub proof fn padded_is_read_back(n: nat, width: nat)
    ensures
        padded(n, width).len() >= width,
        all_digits(padded(n, width)),
        value_of(padded(n, width)) == n,
{
    decimal_is_read_back(n);
    let d = decimal(n);
    if d.len() < width {
        let k = (width - d.len()) as nat;
        lemma_zeros(k, d);
        let p = padded(n, width);
        assert forall|i: int| 0 <= i < p.len() implies is_digit(#[trigger] p[i]) by {
            if i >= k {
                assert(p[i] == d[i - k]);
            }
        }
    }
}

/// Two texts of digits before a dot are the same where the whole texts are.
proof fn lemma_digits_before_dot(a: Seq<char>, b: Seq<char>, x: Seq<char>, y: Seq<char>)
    requires
        all_digits(a),
        all_digits(b),
        a + "."@ + x == b + "."@ + y,
    ensures
        a == b,
{
    reveal_strlit(".");
    let s = a + "."@ + x;
    let t = b + "."@ + y;
    assert(s[a.len() as int] == '.');
    assert(t[b.len() as int] == '.');
    if a.len() < b.len() {
        assert(t[a.len() as int] == b[a.len() as int]);
    } else if b.len() < a.len() {
        assert(s[b.len() as int] == a[b.len() as int]);
    }
    assert forall|i: int| 0 <= i < a.len() implies a[i] == b[i] by {
        assert(s[i] == a[i] && t[i] == b[i]);
    }
}

/// Images of different numbers are written to different files.
pub proof fn images_share_no_file(i: int, j: int, x: Seq<char>, y: Seq<char>)
    requires
        0 <= i,
        0 <= j,
        i != j,
    ensures
        image_path(i, x) != image_path(j, y),
{
    if image_path(i, x) == image_path(j, y) {
        let p = padded(i as nat, 3);
        let q = padded(j as nat, 3);
        padded_is_read_back(i as nat, 3);
        padded_is_read_back(j as nat, 3);
        let n = ("assets/"@ + "image_"@).len() as int;
        assert(image_path(i, x).skip(n) == p + "."@ + x);
        assert(image_path(j, y).skip(n) == q + "."@ + y);
        lemma_digits_before_dot(p, q, x, y);
    }
}

/// The styles `Heading1` to `Heading6` stand for the levels one to six.
pub proof fn heading_styles(n: nat)
    requires
        1 <= n <= 6,
    ensures
        style_level("Heading"@ + decimal(n)) == Some(n as int),
{
    decimal_is_read_back(n);
    let style = "Heading"@ + decimal(n);
    let k = "Heading"@.len() as int;
    assert(style.take(k) == "Heading"@);
    assert(style.skip(k) == decimal(n));
}

/// No style stands for another level.
pub proof fn heading_levels(style: Seq<char>)
    ensures
        style_level(style) matches Some(n) ==> 1 <= n <= 6 && begins_with(style, "Heading"@),
{
}

} // verus!
