//! Documents as lists of nodes: what stands below a node.

use vstd::prelude::*;

use crate::xml::{
    end_of,
    in_document_order,
    is_below,
    is_child,
    lemma_end_of,
    parent_from,
    run_end,
    NodeView,
};

verus! {

proof fn lemma_below_is_behind(ns: Seq<NodeView>, i: int, k: int)
    requires
        is_below(ns, i, k),
    ensures
        i < k,
        ns[k].parent matches Some(p) && p >= i,
    decreases k,
{
    let p = ns[k].parent.unwrap() as int;
    if p != i {
        lemma_below_is_behind(ns, i, p);
    }
}

proof fn lemma_below_transitive(ns: Seq<NodeView>, i: int, j: int, k: int)
    requires
        is_below(ns, i, j),
        is_below(ns, j, k),
    ensures
        is_below(ns, i, k),
    decreases k,
{
    let p = ns[k].parent.unwrap() as int;
    if p != j {
        lemma_below_transitive(ns, i, j, p);
    }
}

/// What is below a node stands behind it without a gap.
proof fn lemma_no_gap(ns: Seq<NodeView>, i: int, j: int, k: int)
    requires
        in_document_order(ns),
        0 <= i < j <= k < ns.len(),
        is_below(ns, i, k),
    ensures
        is_below(ns, i, j),
    decreases k - j,
{
    if j < k {
        let p = ns[k].parent.unwrap() as int;
        if p == k - 1 {
            if p == i {
                assert(false);
            }
        } else if p != i {
            lemma_below_transitive(ns, i, p, k - 1);
        }
        lemma_no_gap(ns, i, j, k - 1);
    }
}

proof fn lemma_run_grows(ns: Seq<NodeView>, i: int, j: int)
    ensures
        run_end(ns, i, j) >= j,
    decreases ns.len() - j,
{
    if j < ns.len() && parent_from(ns, i, j) {
        lemma_run_grows(ns, i, j + 1);
    }
}

proof fn lemma_run_covers(ns: Seq<NodeView>, i: int, j: int, k: int)
    requires
        j <= k < ns.len(),
        forall|m: int| j <= m <= k ==> #[trigger] parent_from(ns, i, m),
    ensures
        run_end(ns, i, j) > k,
    decreases k - j,
{
    assert(parent_from(ns, i, j));
    if j < k {
        lemma_run_covers(ns, i, j + 1, k);
    } else {
        lemma_run_grows(ns, i, j + 1);
    }
}

/// In a document, the nodes of the subtree of a node are the node itself and all that is below it.
pub proof fn subtree_is_what_is_below(ns: Seq<NodeView>, i: int, k: int)
    requires
        in_document_order(ns),
        0 <= i < ns.len(),
        0 <= k < ns.len(),
    ensures
        i < k < end_of(ns, i) <==> is_below(ns, i, k),
    decreases k,
{
    lemma_end_of(ns, i);
    if i < k < end_of(ns, i) {
        assert(parent_from(ns, i, k));
        assert(ns[k].parent is Some);
        let p = ns[k].parent.unwrap() as int;
        if p != i {
            subtree_is_what_is_below(ns, i, p);
        }
    }
    if is_below(ns, i, k) {
        lemma_below_is_behind(ns, i, k);
        assert forall|m: int| i + 1 <= m <= k implies #[trigger] parent_from(ns, i, m) by {
            lemma_no_gap(ns, i, m, k);
            lemma_below_is_behind(ns, i, m);
        }
        lemma_run_covers(ns, i, i + 1, k);
    }
}

/// In a document, the children of a node are the nodes that have it as their parent.
pub proof fn children_have_their_parent(ns: Seq<NodeView>, i: int, k: int)
    requires
        in_document_order(ns),
        0 <= i < ns.len() <= usize::MAX,
        0 < k < ns.len(),
    ensures
        is_child(ns, i, k) <==> ns[k].parent == Some(i as usize),
{
    subtree_is_what_is_below(ns, i, k);
    assert(ns[k].parent is Some);
}

} // verus!
