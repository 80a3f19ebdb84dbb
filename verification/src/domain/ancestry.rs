//! Rows above rows.

use vstd::prelude::*;

use crate::domain::tree::{opt_index, parents_precede, rows, NodeView, TreeNode};

verus! {

/// Row `p` is reached from row `i` by going up at least once.
pub open spec fn is_ancestor(t: Seq<NodeView>, p: int, i: int) -> bool
    decreases i,
{
    match t[i].parent_idx {
        Some(q) => 0 <= q < i && (q == p || is_ancestor(t, p, q)),
        None => false,
    }
}

pub proof fn lemma_ancestor_smaller(t: Seq<NodeView>, p: int, i: int)
    requires
        is_ancestor(t, p, i),
    ensures
        0 <= p < i,
    decreases i,
{
    let q = t[i].parent_idx->0;
    if q != p {
        lemma_ancestor_smaller(t, p, q);
    }
}

pub proof fn lemma_ancestor_transitive(t: Seq<NodeView>, outer: int, inner: int, i: int)
    requires
        is_ancestor(t, outer, inner),
        is_ancestor(t, inner, i),
    ensures
        is_ancestor(t, outer, i),
    decreases i,
{
    let q = t[i].parent_idx->0;
    if q != inner {
        lemma_ancestor_transitive(t, outer, inner, q);
    }
}

/// Row `q` is still to come on the way up from `from`.
pub open spec fn on_the_way(t: Seq<NodeView>, from: Option<int>, q: int) -> bool {
    match from {
        Some(c) => q == c || is_ancestor(t, q, c),
        None => false,
    }
}

/// Row `r` is one of the flagged rows or lies above one.
pub open spec fn reaches_up_to(t: Seq<NodeView>, flagged: Seq<bool>, r: int) -> bool {
    exists|i: int|
        0 <= i < flagged.len() && #[trigger] flagged[i] && (i == r || is_ancestor(t, r, i))
}

spec fn reached_from(t: Seq<NodeView>, flagged: Seq<bool>, n: int, r: int) -> bool {
    exists|i: int| 0 <= i < n && #[trigger] flagged[i] && (i == r || is_ancestor(t, r, i))
}

/// Flags every row that is flagged or lies above a flagged row.
pub fn flag_upwards(tree: &[TreeNode], flagged: &Vec<bool>) -> (r: Vec<bool>)
    requires
        parents_precede(rows(tree@)),
        flagged@.len() == tree@.len(),
    ensures
        r@.len() == tree@.len(),
        forall|i: int|
            0 <= i < r@.len() ==> #[trigger] r@[i] == reaches_up_to(rows(tree@), flagged@, i),
{
    let ghost t = rows(tree@);
    let n: usize = tree.len();
    let mut out: Vec<bool> = Vec::new();
    let mut k: usize = 0;
    while k < n
        invariant
            k <= n,
            out@.len() == k,
            forall|i: int| 0 <= i < k ==> !#[trigger] out@[i],
        decreases n - k,
    {
        out.push(false);
        k += 1;
    }
    let mut i: usize = 0;
    while i < n
        invariant
            t == rows(tree@),
            parents_precede(t),
            n == tree@.len(),
            flagged@.len() == n,
            out@.len() == n,
            i <= n,
            forall|j: int| 0 <= j < n ==> #[trigger] out@[j] == reached_from(t, flagged@, i as int, j),
        decreases n - i,
    {
        let ghost before = out@;
        if flagged[i] {
            let mut at: Option<usize> = Some(i);
            assert forall|q: int| on_the_way(t, Some(i as int), q) <==> q == i || is_ancestor(
                t,
                q,
                i as int,
            ) by {}
            loop
                invariant_except_break
                    t == rows(tree@),
                    parents_precede(t),
                    n == tree@.len(),
                    out@.len() == n,
                    i < n,
                    match at {
                        Some(c) => c < n,
                        None => true,
                    },
                    forall|q: int|
                        on_the_way(t, opt_index(at), q) ==> #[trigger] on_the_way(
                            t,
                            Some(i as int),
                            q,
                        ),
                    forall|j: int|
                        0 <= j < n ==> #[trigger] out@[j] == (before[j] || (on_the_way(
                            t,
                            Some(i as int),
                            j,
                        ) && !on_the_way(t, opt_index(at), j))),
                ensures
                    out@.len() == n,
                    forall|j: int|
                        0 <= j < n ==> #[trigger] out@[j] == (before[j] || on_the_way(
                            t,
                            Some(i as int),
                            j,
                        )),
                decreases
                        match at {
                            Some(c) => c + 1,
                            None => 0,
                        },
            {
                match at {
                    None => {
                        break;
                    },
                    Some(c) => {
                        out.set(c, true);
                        assert(tree@[c as int]@ == t[c as int]);
                        let next: Option<usize> = tree[c].parent_idx;
                        proof {
                            assert forall|q: int|
                                on_the_way(t, Some(c as int), q) <==> q == c || on_the_way(
                                    t,
                                    opt_index(next),
                                    q,
                                ) by {}
                            assert(on_the_way(t, Some(i as int), c as int));
                            assert(!on_the_way(t, opt_index(next), c as int)) by {
                                if on_the_way(t, opt_index(next), c as int) {
                                    let q = next->0 as int;
                                    if q != c {
                                        lemma_ancestor_smaller(t, c as int, q);
                                    }
                                }
                            }
                        }
                        at = next;
                    },
                }
            }
        }
        proof {
            assert forall|j: int| 0 <= j < n implies #[trigger] out@[j] == reached_from(
                t,
                flagged@,
                i + 1,
                j,
            ) by {
                assert(before[j] == reached_from(t, flagged@, i as int, j));
                if reached_from(t, flagged@, i as int, j) {
                    let m = choose|m: int|
                        0 <= m < i && #[trigger] flagged@[m] && (m == j || is_ancestor(t, j, m));
                    assert(flagged@[m]);
                }
                if reached_from(t, flagged@, i + 1, j) && !reached_from(t, flagged@, i as int, j) {
                    let m = choose|m: int|
                        0 <= m < i + 1 && #[trigger] flagged@[m] && (m == j || is_ancestor(
                            t,
                            j,
                            m,
                        ));
                    assert(m == i);
                }
            }
        }
        i += 1;
    }
    proof {
        assert forall|j: int| 0 <= j < n implies #[trigger] out@[j] == reaches_up_to(
            t,
            flagged@,
            j,
        ) by {
            assert(reached_from(t, flagged@, n as int, j) == reaches_up_to(t, flagged@, j));
        }
    }
    out
}

/// Every row above row `i` is expanded.
pub open spec fn unfolded(t: Seq<NodeView>, i: int) -> bool {
    forall|p: int| is_ancestor(t, p, i) ==> (#[trigger] t[p]).is_expanded
}

pub fn is_unfolded(tree: &[TreeNode], i: usize) -> (r: bool)
    requires
        parents_precede(rows(tree@)),
        i < tree@.len(),
    ensures
        r == unfolded(rows(tree@), i as int),
{
    let ghost t = rows(tree@);
    assert(tree@[i as int]@ == t[i as int]);
    let mut at: Option<usize> = tree[i].parent_idx;
    assert forall|q: int| is_ancestor(t, q, i as int) <==> on_the_way(t, opt_index(at), q) by {}
    loop
        invariant
            t == rows(tree@),
            parents_precede(t),
            i < tree@.len(),
            match at {
                Some(c) => c < i,
                None => true,
            },
            forall|q: int| on_the_way(t, opt_index(at), q) ==> #[trigger] is_ancestor(t, q, i as int),
            forall|q: int| #[trigger]
                is_ancestor(t, q, i as int) && !on_the_way(t, opt_index(at), q) ==> t[q].is_expanded,
        decreases
                match at {
                    Some(c) => c + 1,
                    None => 0,
                },
    {
        match at {
            None => {
                return true;
            },
            Some(c) => {
                assert(tree@[c as int]@ == t[c as int]);
                assert(is_ancestor(t, c as int, i as int)) by {
                    assert(on_the_way(t, opt_index(at), c as int));
                }
                if !tree[c].is_expanded {
                    assert(!t[c as int].is_expanded);
                    return false;
                }
                let next: Option<usize> = tree[c].parent_idx;
                assert forall|q: int|
                    on_the_way(t, Some(c as int), q) <==> q == c || on_the_way(
                        t,
                        opt_index(next),
                        q,
                    ) by {}
                at = next;
            },
        }
    }
}

} // verus!
