//! The order of paths, and sorting by it.

use vstd::prelude::*;
use vstd::seq_lib::{to_multiset_build, to_multiset_insert};

use crate::text::{chars_of, texts};

verus! {

/// Whether a text comes before another: by the first characters in which they differ, a text
/// before its continuations.
pub open spec fn text_less(a: Seq<char>, b: Seq<char>) -> bool
    decreases a.len(),
{
    if b.len() == 0 {
        false
    } else if a.len() == 0 {
        true
    } else if a[0] == b[0] {
        text_less(a.drop_first(), b.drop_first())
    } else {
        a[0] < b[0]
    }
}

/// Whether a path comes before another: by the first names in which they differ, a path before
/// what lies below it.
pub open spec fn path_less(a: Seq<Seq<char>>, b: Seq<Seq<char>>) -> bool
    decreases a.len(),
{
    if b.len() == 0 {
        false
    } else if a.len() == 0 {
        true
    } else if a[0] == b[0] {
        path_less(a.drop_first(), b.drop_first())
    } else {
        text_less(a[0], b[0])
    }
}

/// Of two different texts one comes before the other, and not the other way round.
pub proof fn lemma_text_total(a: Seq<char>, b: Seq<char>)
    ensures
        !(text_less(a, b) && text_less(b, a)),
        a != b ==> text_less(a, b) || text_less(b, a),
        a == b ==> !text_less(a, b),
    decreases a.len(),
{
    if a.len() > 0 && b.len() > 0 && a[0] == b[0] {
        lemma_text_total(a.drop_first(), b.drop_first());
        if a.drop_first() == b.drop_first() {
            assert(a == seq![a[0]] + a.drop_first());
            assert(b == seq![b[0]] + b.drop_first());
        }
    } else if a.len() == 0 && b.len() == 0 {
        assert(a == b);
    }
}

/// The order of texts is transitive.
pub proof fn lemma_text_transitive(a: Seq<char>, b: Seq<char>, c: Seq<char>)
    requires
        text_less(a, b),
        text_less(b, c),
    ensures
        text_less(a, c),
    decreases a.len(),
{
    if a.len() > 0 && a[0] == b[0] && b[0] == c[0] {
        lemma_text_transitive(a.drop_first(), b.drop_first(), c.drop_first());
    }
}

/// Of two different paths one comes before the other, and not the other way round.
pub proof fn lemma_path_total(a: Seq<Seq<char>>, b: Seq<Seq<char>>)
    ensures
        !(path_less(a, b) && path_less(b, a)),
        a != b ==> path_less(a, b) || path_less(b, a),
        a == b ==> !path_less(a, b),
    decreases a.len(),
{
    if a.len() > 0 && b.len() > 0 {
        lemma_text_total(a[0], b[0]);
        if a[0] == b[0] {
            lemma_path_total(a.drop_first(), b.drop_first());
            if a.drop_first() == b.drop_first() {
                assert(a == seq![a[0]] + a.drop_first());
                assert(b == seq![b[0]] + b.drop_first());
            }
        }
    } else if a.len() == 0 && b.len() == 0 {
        assert(a == b);
    }
}

/// The order of paths is transitive.
pub proof fn lemma_path_transitive(a: Seq<Seq<char>>, b: Seq<Seq<char>>, c: Seq<Seq<char>>)
    requires
        path_less(a, b),
        path_less(b, c),
    ensures
        path_less(a, c),
    decreases a.len(),
{
    if a.len() > 0 {
        if a[0] == b[0] && b[0] == c[0] {
            lemma_path_transitive(a.drop_first(), b.drop_first(), c.drop_first());
        } else if a[0] != b[0] && b[0] != c[0] {
            lemma_text_transitive(a[0], b[0], c[0]);
            lemma_text_total(a[0], c[0]);
        }
    }
}

/// Whether entry `i` of a list of paths comes before entry `j`: of equal paths the earlier entry
/// comes first.
pub open spec fn entry_less(paths: Seq<Seq<Seq<char>>>, i: int, j: int) -> bool {
    path_less(paths[i], paths[j]) || (paths[i] == paths[j] && i < j)
}

/// Whether places of a list of paths stand in order.
pub open spec fn in_order(paths: Seq<Seq<Seq<char>>>, places: Seq<int>) -> bool {
    forall|i: int, j: int|
        0 <= i < j < places.len() ==> entry_less(paths, #[trigger] places[i], #[trigger] places[j])
}

/// Whether the places are those of all paths, in order.
pub open spec fn is_order(paths: Seq<Seq<Seq<char>>>, places: Seq<int>) -> bool {
    &&& places.len() == paths.len()
    &&& forall|i: int| 0 <= i < places.len() ==> 0 <= #[trigger] places[i] < paths.len()
    &&& in_order(paths, places)
}

/// The places of all paths, in order.
pub open spec fn order_of(paths: Seq<Seq<Seq<char>>>) -> Seq<int> {
    choose|places: Seq<int>| is_order(paths, places)
}

pub proof fn lemma_entry_total(paths: Seq<Seq<Seq<char>>>, i: int, j: int)
    ensures
        !(entry_less(paths, i, j) && entry_less(paths, j, i)),
        i != j ==> entry_less(paths, i, j) || entry_less(paths, j, i),
        !entry_less(paths, i, i),
{
    lemma_path_total(paths[i], paths[j]);
    lemma_path_total(paths[i], paths[i]);
}

pub proof fn lemma_entry_transitive(paths: Seq<Seq<Seq<char>>>, i: int, j: int, k: int)
    requires
        entry_less(paths, i, j),
        entry_less(paths, j, k),
    ensures
        entry_less(paths, i, k),
{
    if path_less(paths[i], paths[j]) && path_less(paths[j], paths[k]) {
        lemma_path_transitive(paths[i], paths[j], paths[k]);
    }
}

/// Each place occurs in an order.
proof fn lemma_order_complete(paths: Seq<Seq<Seq<char>>>, places: Seq<int>, p: int)
    requires
        is_order(paths, places),
        0 <= p < paths.len(),
    ensures
        exists|k: int| 0 <= k < places.len() && places[k] == p,
{
    let n = paths.len() as int;
    assert forall|i: int, j: int| 0 <= i < j < places.len() implies places[i] != places[j] by {
        lemma_entry_total(paths, places[i], places[j]);
    }
    assert(places.no_duplicates());
    places.unique_seq_to_set();
    let all = vstd::set_lib::set_int_range(0, n);
    vstd::set_lib::lemma_int_range(0, n);
    assert(places.to_set().subset_of(all));
    vstd::set_lib::lemma_subset_equality(places.to_set(), all);
    assert(all.contains(p));
    assert(places.to_set().contains(p));
}

/// There is one order of a list of paths.
pub proof fn order_is_unique(paths: Seq<Seq<Seq<char>>>, a: Seq<int>, b: Seq<int>)
    requires
        is_order(paths, a),
        is_order(paths, b),
    ensures
        a == b,
{
    assert forall|k: int| 0 <= k < a.len() implies a[k] == b[k] by {
        lemma_same_place(paths, a, b, k);
    }
}

proof fn lemma_same_place(paths: Seq<Seq<Seq<char>>>, a: Seq<int>, b: Seq<int>, k: int)
    requires
        is_order(paths, a),
        is_order(paths, b),
        0 <= k < a.len(),
    ensures
        a[k] == b[k],
    decreases k,
{
    assert forall|m: int| 0 <= m < k implies a[m] == b[m] by {
        lemma_same_place(paths, a, b, m);
    }
    if a[k] != b[k] {
        lemma_entry_total(paths, a[k], b[k]);
        lemma_order_complete(paths, a, b[k]);
        lemma_order_complete(paths, b, a[k]);
        let i = choose|i: int| 0 <= i < a.len() && a[i] == b[k];
        let j = choose|j: int| 0 <= j < b.len() && b[j] == a[k];
        if i < k {
            lemma_entry_total(paths, b[i], b[k]);
        }
        if j < k {
            lemma_entry_total(paths, a[j], a[k]);
        }
        assert(entry_less(paths, a[k], a[i]));
        assert(entry_less(paths, b[k], b[j]));
    }
}

/// A place can be put into places that stand in order.
proof fn lemma_insert(paths: Seq<Seq<Seq<char>>>, places: Seq<int>, x: int) -> (p: int)
    requires
        in_order(paths, places),
        forall|i: int| 0 <= i < places.len() ==> #[trigger] places[i] != x,
    ensures
        0 <= p <= places.len(),
        in_order(paths, places.insert(p, x)),
    decreases places.len(),
{
    if places.len() == 0 {
        0
    } else {
        let n = places.len() as int;
        let last = places.last();
        lemma_entry_total(paths, last, x);
        if entry_less(paths, last, x) {
            let all = places.insert(n, x);
            assert forall|i: int, j: int| 0 <= i < j < all.len() implies entry_less(
                paths,
                #[trigger] all[i],
                #[trigger] all[j],
            ) by {
                if j == n && i < n - 1 {
                    assert(entry_less(paths, places[i], places[n - 1]));
                    lemma_entry_transitive(paths, all[i], last, x);
                }
            }
            n
        } else {
            let earlier = places.drop_last();
            assert forall|i: int, j: int| 0 <= i < j < earlier.len() implies entry_less(
                paths,
                #[trigger] earlier[i],
                #[trigger] earlier[j],
            ) by {
                assert(entry_less(paths, places[i], places[j]));
            }
            let p = lemma_insert(paths, earlier, x);
            let inner = earlier.insert(p, x);
            let all = places.insert(p, x);
            assert(all == inner.push(last));
            assert forall|i: int, j: int| 0 <= i < j < all.len() implies entry_less(
                paths,
                #[trigger] all[i],
                #[trigger] all[j],
            ) by {
                if j < n {
                    assert(all[i] == inner[i] && all[j] == inner[j]);
                } else if i < p {
                    assert(entry_less(paths, places[i], places[n - 1]));
                } else if i > p {
                    assert(entry_less(paths, places[i - 1], places[n - 1]));
                }
            }
            p
        }
    }
}

/// Things at places.
pub open spec fn at_places<A>(things: Seq<A>, places: Seq<int>) -> Seq<A> {
    Seq::new(places.len(), |k: int| things[places[k]])
}

/// The first `n` paths have an order, which has the same things.
proof fn lemma_order_of_first<A>(paths: Seq<Seq<Seq<char>>>, things: Seq<A>, n: int) -> (places:
    Seq<int>)
    requires
        0 <= n <= paths.len() == things.len(),
    ensures
        places.len() == n,
        forall|i: int| 0 <= i < n ==> 0 <= #[trigger] places[i] < n,
        in_order(paths, places),
        at_places(things, places).to_multiset() == things.take(n).to_multiset(),
    decreases n,
{
    if n == 0 {
        assert(at_places(things, seq![]) == things.take(0));
        Seq::empty()
    } else {
        let earlier = lemma_order_of_first(paths, things, n - 1);
        let p = lemma_insert(paths, earlier, n - 1);
        let places = earlier.insert(p, n - 1);
        assert forall|i: int| 0 <= i < n implies 0 <= #[trigger] places[i] < n by {
            if i < p {
                assert(places[i] == earlier[i]);
            } else if i > p {
                assert(places[i] == earlier[i - 1]);
            }
        }
        let x = things[n - 1];
        assert(at_places(things, places) == at_places(things, earlier).insert(p, x));
        to_multiset_insert(at_places(things, earlier), p, x);
        assert(things.take(n) == things.take(n - 1).push(x));
        to_multiset_build(things.take(n - 1), x);
        places
    }
}

/// Each list of paths has an order, and it is the one that `order_of` names.
pub proof fn order_exists(paths: Seq<Seq<Seq<char>>>)
    ensures
        is_order(paths, order_of(paths)),
{
    let places = lemma_order_of_first(paths, paths, paths.len() as int);
    assert(is_order(paths, places));
}

/// Things in the order of their paths are the same things, each as often as before.
pub proof fn order_keeps_all<A>(paths: Seq<Seq<Seq<char>>>, things: Seq<A>)
    requires
        things.len() == paths.len(),
    ensures
        at_places(things, order_of(paths)).to_multiset() == things.to_multiset(),
{
    let places = lemma_order_of_first(paths, things, paths.len() as int);
    assert(is_order(paths, places));
    order_is_unique(paths, places, order_of(paths));
    assert(things.take(paths.len() as int) == things);
}

fn is_text_less(a: &str, b: &str) -> (r: bool)
    ensures
        r == text_less(a@, b@),
{
    let left = chars_of(a);
    let right = chars_of(b);
    let n: usize = left.len();
    let mut i: usize = 0;
    assert(left@.skip(0) == left@ && right@.skip(0) == right@);
    while i < n && i < right.len() && left[i] == right[i]
        invariant
            i <= n == left@.len(),
            i <= right@.len(),
            text_less(left@, right@) == text_less(left@.skip(i as int), right@.skip(i as int)),
        decreases n - i,
    {
        assert(left@.skip(i as int).drop_first() == left@.skip(i + 1));
        assert(right@.skip(i as int).drop_first() == right@.skip(i + 1));
        i = i + 1;
    }
    if i >= right.len() {
        false
    } else if i >= n {
        true
    } else {
        left[i] < right[i]
    }
}

fn is_path_less(a: &Vec<String>, b: &Vec<String>) -> (r: bool)
    ensures
        r == path_less(texts(a@), texts(b@)),
{
    let n: usize = a.len();
    let m: usize = b.len();
    let ghost left = texts(a@);
    let ghost right = texts(b@);
    let mut i: usize = 0;
    assert(left.skip(0) == left && right.skip(0) == right);
    while i < n && i < m
        invariant
            i <= n == a@.len(),
            i <= m == b@.len(),
            left == texts(a@),
            right == texts(b@),
            path_less(left, right) == path_less(left.skip(i as int), right.skip(i as int)),
        decreases n - i,
    {
        assert(left.skip(i as int)[0] == a@[i as int]@);
        assert(right.skip(i as int)[0] == b@[i as int]@);
        assert(left.skip(i as int).drop_first() == left.skip(i + 1));
        assert(right.skip(i as int).drop_first() == right.skip(i + 1));
        proof {
            lemma_text_total(a@[i as int]@, b@[i as int]@);
        }
        if is_text_less(a[i].as_str(), b[i].as_str()) {
            return true;
        }
        if is_text_less(b[i].as_str(), a[i].as_str()) {
            return false;
        }
        i = i + 1;
    }
    i >= n && i < m
}

/// What each path of a list holds.
pub open spec fn paths_of(paths: Seq<Vec<String>>) -> Seq<Seq<Seq<char>>> {
    Seq::new(paths.len(), |i: int| texts(paths[i]@))
}

/// Places as mathematical numbers.
pub open spec fn places_of(places: Seq<usize>) -> Seq<int> {
    Seq::new(places.len(), |i: int| places[i] as int)
}

/// Whether places stand in order and between two bounds.
spec fn run_of(paths: Seq<Seq<Seq<char>>>, places: Seq<usize>, from: int, to: int) -> bool {
    &&& forall|i: int| 0 <= i < places.len() ==> from <= #[trigger] places[i] < to
    &&& forall|i: int, j: int|
        0 <= i < j < places.len() ==> entry_less(
            paths,
            #[trigger] places[i] as int,
            #[trigger] places[j] as int,
        )
}

/// Two runs as one.
fn merge(paths: &Vec<Vec<String>>, left: &Vec<usize>, right: &Vec<usize>, mid: usize) -> (r: Vec<
    usize,
>)
    requires
        mid <= paths@.len(),
        run_of(paths_of(paths@), left@, 0, mid as int),
        run_of(paths_of(paths@), right@, mid as int, paths@.len() as int),
        left@.len() + right@.len() <= usize::MAX,
    ensures
        r@.len() == left@.len() + right@.len(),
        forall|i: int|
            0 <= i < r@.len() ==> left@.contains(#[trigger] r@[i]) || right@.contains(r@[i]),
        run_of(paths_of(paths@), r@, 0, paths@.len() as int),
{
    let ghost ps = paths_of(paths@);
    let n: usize = left.len();
    let m: usize = right.len();
    let mut r: Vec<usize> = Vec::new();
    let mut i: usize = 0;
    let mut j: usize = 0;
    while i < n || j < m
        invariant
            i <= n == left@.len(),
            j <= m == right@.len(),
            n + m <= usize::MAX,
            r@.len() == i + j,
            mid <= paths@.len(),
            ps == paths_of(paths@),
            run_of(ps, left@, 0, mid as int),
            run_of(ps, right@, mid as int, paths@.len() as int),
            run_of(ps, r@, 0, paths@.len() as int),
            forall|k: int|
                0 <= k < r@.len() ==> left@.contains(#[trigger] r@[k]) || right@.contains(r@[k]),
            forall|k: int, h: int|
                0 <= k < r@.len() && i <= h < n ==> entry_less(
                    ps,
                    #[trigger] r@[k] as int,
                    #[trigger] left@[h] as int,
                ),
            forall|k: int, h: int|
                0 <= k < r@.len() && j <= h < m ==> entry_less(
                    ps,
                    #[trigger] r@[k] as int,
                    #[trigger] right@[h] as int,
                ),
        decreases n + m - i - j,
    {
        let take_left = if i >= n {
            false
        } else if j >= m {
            true
        } else {
            let a: usize = left[i];
            let b: usize = right[j];
            proof {
                assert(ps[a as int] == texts(paths@[a as int]@));
                assert(ps[b as int] == texts(paths@[b as int]@));
                lemma_path_total(ps[a as int], ps[b as int]);
            }
            !is_path_less(&paths[b], &paths[a])
        };
        let ghost was = r@;
        if take_left {
            let a: usize = left[i];
            proof {
                assert(left@.contains(a));
                if j < m {
                    assert(entry_less(ps, a as int, right@[j as int] as int));
                    assert forall|h: int| j <= h < m implies entry_less(
                        ps,
                        a as int,
                        #[trigger] right@[h] as int,
                    ) by {
                        if h > j {
                            lemma_entry_transitive(
                                ps,
                                a as int,
                                right@[j as int] as int,
                                right@[h] as int,
                            );
                        }
                    }
                }
            }
            r.push(a);
            i = i + 1;
        } else {
            let b: usize = right[j];
            proof {
                assert(right@.contains(b));
                if i < n {
                    assert(entry_less(ps, b as int, left@[i as int] as int));
                    assert forall|h: int| i <= h < n implies entry_less(
                        ps,
                        b as int,
                        #[trigger] left@[h] as int,
                    ) by {
                        if h > i {
                            lemma_entry_transitive(
                                ps,
                                b as int,
                                left@[i as int] as int,
                                left@[h] as int,
                            );
                        }
                    }
                }
            }
            r.push(b);
            j = j + 1;
        }
        assert forall|k: int| 0 <= k < r@.len() implies left@.contains(#[trigger] r@[k])
            || right@.contains(r@[k]) by {
            if k < was.len() {
                assert(r@[k] == was[k]);
            }
        }
    }
    r
}

/// The places from `from` on, before `to`, in order.
fn sort_between(paths: &Vec<Vec<String>>, from: usize, to: usize) -> (r: Vec<usize>)
    requires
        from <= to <= paths@.len(),
    ensures
        r@.len() == to - from,
        run_of(paths_of(paths@), r@, from as int, to as int),
    decreases to - from,
{
    let mut r: Vec<usize> = Vec::new();
    if to - from == 0 {
        return r;
    }
    if to - from == 1 {
        r.push(from);
        return r;
    }
    let mid: usize = from + (to - from) / 2;
    let left = sort_between(paths, from, mid);
    let right = sort_between(paths, mid, to);
    let merged = merge(paths, &left, &right, mid);
    assert forall|i: int| 0 <= i < merged@.len() implies from <= #[trigger] merged@[i] < to by {
        let p = merged@[i];
        if left@.contains(p) {
            let k = choose|k: int| 0 <= k < left@.len() && left@[k] == p;
            assert(from <= left@[k] < mid);
        } else {
            assert(right@.contains(p));
            let k = choose|k: int| 0 <= k < right@.len() && right@[k] == p;
            assert(mid <= right@[k] < to);
        }
    }
    merged
}

/// The places of all paths, in order.
pub fn sort_paths(paths: &Vec<Vec<String>>) -> (r: Vec<usize>)
    ensures
        is_order(paths_of(paths@), places_of(r@)),
        places_of(r@) == order_of(paths_of(paths@)),
{
    let n: usize = paths.len();
    let r = sort_between(paths, 0, n);
    proof {
        let ps = paths_of(paths@);
        let places = places_of(r@);
        assert forall|i: int| 0 <= i < places.len() implies 0 <= #[trigger] places[i]
            < ps.len() by {
            assert(places[i] == r@[i]);
        }
        assert forall|i: int, j: int| 0 <= i < j < places.len() implies entry_less(
            ps,
            #[trigger] places[i],
            #[trigger] places[j],
        ) by {
            assert(places[i] == r@[i] && places[j] == r@[j]);
        }
        assert(is_order(ps, places));
        order_is_unique(ps, places, order_of(ps));
    }
    r
}

} // verus!
