//! Places of a list at which something holds.

use vstd::prelude::*;

verus! {

/// Whether `ps` lists, from the first to the last, the places from `from` on, before `to`, at
/// which something holds.
pub open spec fn lists(ps: Seq<int>, from: int, to: int, holds: spec_fn(int) -> bool) -> bool {
    &&& forall|i: int| 0 <= i < ps.len() ==> from <= #[trigger] ps[i] < to && holds(ps[i])
    &&& forall|i: int, j: int| 0 <= i < j < ps.len() ==> #[trigger] ps[i] < #[trigger] ps[j]
    &&& forall|k: int| from <= k < to && #[trigger] holds(k) ==> ps.contains(k)
}

/// One place more.
pub proof fn lemma_one_more(ps: Seq<int>, from: int, to: int, holds: spec_fn(int) -> bool)
    requires
        from <= to,
        lists(ps, from, to, holds),
    ensures
        holds(to) ==> lists(ps.push(to), from, to + 1, holds),
        !holds(to) ==> lists(ps, from, to + 1, holds),
{
    if holds(to) {
        let all = ps.push(to);
        assert forall|k: int| from <= k < to + 1 && #[trigger] holds(k) implies all.contains(k) by {
            if k < to {
                let i = choose|i: int| 0 <= i < ps.len() && ps[i] == k;
                assert(all[i] == k);
            } else {
                assert(all[ps.len() as int] == k);
            }
        }
    }
}

/// There is just one list of the places at which something holds.
pub proof fn places_are_unique(
    ps: Seq<int>,
    qs: Seq<int>,
    from: int,
    to: int,
    holds: spec_fn(int) -> bool,
)
    requires
        lists(ps, from, to, holds),
        lists(qs, from, to, holds),
    ensures
        ps == qs,
    decreases ps.len(),
{
    if ps.len() == 0 {
        if qs.len() > 0 {
            assert(holds(qs[0]));
            assert(ps.contains(qs[0]));
        }
    } else {
        let x = ps.last();
        assert(holds(ps[ps.len() - 1]));
        assert(qs.contains(x));
        let j = choose|j: int| 0 <= j < qs.len() && qs[j] == x;
        let y = qs.last();
        assert(holds(qs[qs.len() - 1]));
        assert(ps.contains(y));
        let i = choose|i: int| 0 <= i < ps.len() && ps[i] == y;
        assert(x == y) by {
            if i < ps.len() - 1 {
                assert(ps[i] < ps[ps.len() - 1]);
            }
            if j < qs.len() - 1 {
                assert(qs[j] < qs[qs.len() - 1]);
            }
        }
        let p = ps.drop_last();
        let q = qs.drop_last();
        lemma_without_last(ps, from, to, holds);
        lemma_without_last(qs, from, to, holds);
        places_are_unique(p, q, from, x, holds);
        assert(ps == p.push(x));
        assert(qs == q.push(y));
    }
}

proof fn lemma_without_last(ps: Seq<int>, from: int, to: int, holds: spec_fn(int) -> bool)
    requires
        lists(ps, from, to, holds),
        ps.len() > 0,
    ensures
        lists(ps.drop_last(), from, ps.last(), holds),
{
    let p = ps.drop_last();
    let x = ps.last();
    assert forall|i: int| 0 <= i < p.len() implies from <= #[trigger] p[i] < x && holds(p[i]) by {
        assert(p[i] == ps[i]);
        assert(ps[i] < ps[ps.len() - 1]);
    }
    assert forall|i: int, j: int| 0 <= i < j < p.len() implies #[trigger] p[i] < #[trigger] p[j] by {
        assert(p[i] == ps[i] && p[j] == ps[j]);
    }
    assert forall|k: int| from <= k < x && #[trigger] holds(k) implies p.contains(k) by {
        assert(from <= ps[ps.len() - 1] < to);
        assert(ps.contains(k));
        let i = choose|i: int| 0 <= i < ps.len() && ps[i] == k;
        assert(p[i] == k);
    }
}

} // verus!
