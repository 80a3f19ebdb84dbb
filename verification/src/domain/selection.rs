//! Which rows of the tree are selected and expanded, and how that changes.

use vstd::prelude::*;

use crate::domain::ancestry::{flag_upwards, is_ancestor, reaches_up_to};
use crate::domain::tree::{
    parents_precede, pre_order, row_in_order, row_path, row_paths, rows, NodeView, TreeNode,
};
use crate::seqs::positions;
use crate::text::{has_text_in, opt_text, texts};

verus! {

/// Row `i` with another selection; `partial` says whether it is shown as half
/// selected.
pub open spec fn with_selection(n: NodeView, selected: bool, partial: bool) -> NodeView {
    NodeView { is_selected: selected, is_partial: partial, ..n }
}

pub open spec fn selected_leaf_flags(t: Seq<NodeView>) -> Seq<bool> {
    t.map_values(|n: NodeView| n.is_leaf && n.is_selected)
}

pub open spec fn unselected_leaf_flags(t: Seq<NodeView>) -> Seq<bool> {
    t.map_values(|n: NodeView| n.is_leaf && !n.is_selected)
}

/// A selected leaf lies below row `i`.
pub open spec fn has_selected_below(t: Seq<NodeView>, i: int) -> bool {
    reaches_up_to(t, selected_leaf_flags(t), i)
}

/// An unselected leaf lies below row `i`.
pub open spec fn has_unselected_below(t: Seq<NodeView>, i: int) -> bool {
    reaches_up_to(t, unselected_leaf_flags(t), i)
}

/// Folders follow their leaves: a folder is selected where all leaves below it
/// are, and half selected where only some are.
pub open spec fn synced(t: Seq<NodeView>) -> Seq<NodeView> {
    Seq::new(
        t.len(),
        |i: int|
            if t[i].is_leaf {
                with_selection(t[i], t[i].is_selected, false)
            } else {
                with_selection(
                    t[i],
                    has_selected_below(t, i) && !has_unselected_below(t, i),
                    has_selected_below(t, i) && has_unselected_below(t, i),
                )
            },
    )
}

/// Makes the folders follow the selection of their leaves.
pub fn sync_parents(tree: &mut Vec<TreeNode>)
    requires
        parents_precede(rows(old(tree)@)),
    ensures
        rows(final(tree)@) == synced(rows(old(tree)@)),
{
    let ghost t = rows(tree@);
    let n: usize = tree.len();
    let mut yes: Vec<bool> = Vec::new();
    let mut no: Vec<bool> = Vec::new();
    let mut k: usize = 0;
    while k < n
        invariant
            n == tree@.len(),
            t == rows(tree@),
            k <= n,
            yes@ == selected_leaf_flags(t).take(k as int),
            no@ == unselected_leaf_flags(t).take(k as int),
        decreases n - k,
    {
        assert(t[k as int] == tree@[k as int]@);
        yes.push(tree[k].is_leaf && tree[k].is_selected);
        no.push(tree[k].is_leaf && !tree[k].is_selected);
        assert(yes@ =~= selected_leaf_flags(t).take(k + 1));
        assert(no@ =~= unselected_leaf_flags(t).take(k + 1));
        k += 1;
    }
    assert(yes@ =~= selected_leaf_flags(t));
    assert(no@ =~= unselected_leaf_flags(t));
    let some_selected = flag_upwards(tree.as_slice(), &yes);
    let some_unselected = flag_upwards(tree.as_slice(), &no);
    let mut i: usize = 0;
    while i < n
        invariant
            n == tree@.len(),
            n == t.len(),
            i <= n,
            some_selected@.len() == n,
            some_unselected@.len() == n,
            forall|j: int| 0 <= j < n ==> #[trigger] some_selected@[j] == has_selected_below(t, j),
            forall|j: int|
                0 <= j < n ==> #[trigger] some_unselected@[j] == has_unselected_below(t, j),
            forall|j: int| 0 <= j < i ==> (#[trigger] tree@[j])@ == synced(t)[j],
            forall|j: int| i <= j < n ==> (#[trigger] tree@[j])@ == t[j],
        decreases n - i,
    {
        let leaf = tree[i].is_leaf;
        if leaf {
            tree[i].is_partial = false;
        } else {
            tree[i].is_selected = some_selected[i] && !some_unselected[i];
            tree[i].is_partial = some_selected[i] && some_unselected[i];
        }
        assert(tree@[i as int]@ == synced(t)[i as int]);
        i += 1;
    }
    assert(rows(tree@) =~= synced(t));
}

/// Sync changes nothing but the marks of selection: the tree keeps its shape.
pub open spec fn same_shape(t: Seq<NodeView>, u: Seq<NodeView>) -> bool {
    &&& t.len() == u.len()
    &&& forall|i: int|
        0 <= i < t.len() ==> u[i] == (NodeView {
            is_selected: u[i].is_selected,
            is_partial: u[i].is_partial,
            is_expanded: u[i].is_expanded,
            ..#[trigger] t[i]
        })
}

pub proof fn lemma_same_shape(t: Seq<NodeView>, u: Seq<NodeView>)
    requires
        same_shape(t, u),
    ensures
        parents_precede(t) ==> parents_precede(u),
        pre_order(t) ==> pre_order(u),
{
    if parents_precede(t) {
        assert forall|i: int| 0 <= i < u.len() implies match (#[trigger] u[i]).parent_idx {
            Some(p) => 0 <= p < i,
            None => true,
        } by {
            assert(t[i].parent_idx == u[i].parent_idx);
        }
    }
    if pre_order(t) {
        assert forall|i: int| 0 <= i < u.len() implies #[trigger] row_in_order(u, i) by {
            assert(row_in_order(t, i));
            assert(t[i].parent_idx == u[i].parent_idx);
            if let Some(p) = t[i].parent_idx {
                assert(t[p].depth + 1 == t[i].depth);
                assert forall|j: int| p < j < i implies (#[trigger] u[j]).depth >= u[i].depth by {
                    assert(t[j].depth >= t[i].depth);
                }
            }
        }
    }
}

pub proof fn lemma_shape_ancestors(t: Seq<NodeView>, u: Seq<NodeView>, p: int, i: int)
    requires
        same_shape(t, u),
        0 <= i < t.len(),
    ensures
        is_ancestor(t, p, i) == is_ancestor(u, p, i),
    decreases i,
{
    assert(t[i].parent_idx == u[i].parent_idx);
    if let Some(q) = t[i].parent_idx {
        if 0 <= q < i {
            lemma_shape_ancestors(t, u, p, q);
        }
    }
}

pub proof fn lemma_synced_shape(t: Seq<NodeView>)
    ensures
        same_shape(t, synced(t)),
{
}

/// Syncing once is enough.
pub proof fn law_sync_is_idempotent(t: Seq<NodeView>)
    ensures
        synced(synced(t)) == synced(t),
{
    let u = synced(t);
    assert forall|i: int| 0 <= i < t.len() implies has_selected_below(u, i) == has_selected_below(
        t,
        i,
    ) && has_unselected_below(u, i) == has_unselected_below(t, i) by {
        assert(selected_leaf_flags(u) =~= selected_leaf_flags(t));
        assert(unselected_leaf_flags(u) =~= unselected_leaf_flags(t));
        assert forall|m: int| 0 <= m < t.len() implies is_ancestor(u, i, m) == is_ancestor(
            t,
            i,
            m,
        ) by {
            lemma_shape_ancestors(t, u, i, m);
        }
    }
    assert(synced(u) =~= u);
}

// ---------------------------------------------------------------------------
// Toggling
// ---------------------------------------------------------------------------
/// The first row from `j` on that is not deeper than row `ri`.
pub open spec fn block_end(t: Seq<NodeView>, ri: int, j: int) -> int
    decreases t.len() - j,
{
    if j < t.len() && t[j].depth > t[ri].depth {
        block_end(t, ri, j + 1)
    } else {
        j
    }
}

/// Row `ri` and the rows that follow it while they are deeper, all with the same
/// selection.
pub open spec fn flooded(t: Seq<NodeView>, ri: int, selected: bool) -> Seq<NodeView> {
    let end = block_end(t, ri, ri + 1);
    Seq::new(
        t.len(),
        |j: int|
            if ri <= j < end {
                with_selection(t[j], selected, t[j].is_partial)
            } else {
                t[j]
            },
    )
}

/// The tree after row `ri` was toggled: it and all below it change to what it
/// was not, and the folders follow.
pub open spec fn toggled(t: Seq<NodeView>, ri: int) -> Seq<NodeView> {
    synced(flooded(t, ri, !t[ri].is_selected))
}

pub fn toggle_row(tree: &mut Vec<TreeNode>, ri: usize)
    requires
        parents_precede(rows(old(tree)@)),
        ri < old(tree)@.len(),
    ensures
        rows(final(tree)@) == toggled(rows(old(tree)@), ri as int),
{
    let ghost t = rows(tree@);
    let n: usize = tree.len();
    assert(t[ri as int] == tree@[ri as int]@);
    let new_state = !tree[ri].is_selected;
    let depth: usize = tree[ri].depth;
    tree[ri].is_selected = new_state;
    let mut j: usize = ri + 1;
    while j < n && tree[j].depth > depth
        invariant
            ri < j <= n,
            n == tree@.len(),
            n == t.len(),
            t[ri as int].depth == depth,
            new_state == !t[ri as int].is_selected,
            block_end(t, ri as int, ri + 1) == block_end(t, ri as int, j as int),
            forall|k: int|
                ri <= k < j ==> (#[trigger] tree@[k])@ == with_selection(
                    t[k],
                    new_state,
                    t[k].is_partial,
                ),
            forall|k: int| 0 <= k < ri || j <= k < n ==> (#[trigger] tree@[k])@ == t[k],
        decreases n - j,
    {
        assert(tree@[j as int]@ == t[j as int]);
        tree[j].is_selected = new_state;
        j += 1;
    }
    proof {
        if j < n {
            assert(tree@[j as int]@ == t[j as int]);
        }
        assert(block_end(t, ri as int, ri + 1) == j);
        let u = flooded(t, ri as int, new_state);
        assert(rows(tree@) =~= u);
        assert(same_shape(t, u));
        lemma_same_shape(t, u);
    }
    sync_parents(tree);
}

proof fn lemma_block_is_below(t: Seq<NodeView>, ri: int, j: int)
    requires
        pre_order(t),
        0 <= ri < j < t.len(),
        forall|k: int| ri < k <= j ==> (#[trigger] t[k]).depth > t[ri].depth,
    ensures
        is_ancestor(t, ri, j),
    decreases j,
{
    assert(t[j].depth > t[ri].depth);
    assert(row_in_order(t, j));
    match t[j].parent_idx {
        None => {},
        Some(p) => {
            if p < ri {
                assert(t[ri].depth >= t[j].depth);
            } else if p > ri {
                assert forall|k: int| ri < k <= p implies (#[trigger] t[k]).depth
                    > t[ri].depth by {}
                lemma_block_is_below(t, ri, p);
            }
        },
    }
}

proof fn lemma_below_is_in_block(t: Seq<NodeView>, ri: int, j: int)
    requires
        pre_order(t),
        0 <= j < t.len(),
        is_ancestor(t, ri, j),
    ensures
        0 <= ri < j,
        forall|k: int| ri < k <= j ==> (#[trigger] t[k]).depth > t[ri].depth,
    decreases j,
{
    let p = t[j].parent_idx->0;
    assert(row_in_order(t, j));
    if p != ri {
        lemma_below_is_in_block(t, ri, p);
        assert(t[p].depth > t[ri].depth);
        assert forall|k: int| ri < k <= j implies (#[trigger] t[k]).depth > t[ri].depth by {
            if k > p && k < j {
                assert(t[k].depth >= t[j].depth);
            }
        }
    } else {
        assert forall|k: int| ri < k <= j implies (#[trigger] t[k]).depth > t[ri].depth by {
            if k < j {
                assert(t[k].depth >= t[j].depth);
            }
        }
    }
}

proof fn lemma_block_end(t: Seq<NodeView>, ri: int, j: int)
    requires
        0 <= ri < j <= t.len(),
    ensures
        j <= block_end(t, ri, j) <= t.len(),
        forall|k: int| j <= k < block_end(t, ri, j) ==> (#[trigger] t[k]).depth > t[ri].depth,
        block_end(t, ri, j) < t.len() ==> t[block_end(t, ri, j)].depth <= t[ri].depth,
    decreases t.len() - j,
{
    if j < t.len() && t[j].depth > t[ri].depth {
        lemma_block_end(t, ri, j + 1);
    }
}

/// In a tree in pre-order the rows that are toggled with a row are exactly the
/// rows below it.
pub proof fn law_block_is_the_subtree(t: Seq<NodeView>, ri: int, j: int)
    requires
        pre_order(t),
        0 <= ri < t.len(),
        0 <= j < t.len(),
    ensures
        is_ancestor(t, ri, j) <==> ri < j < block_end(t, ri, ri + 1),
{
    let end = block_end(t, ri, ri + 1);
    lemma_block_end(t, ri, ri + 1);
    if ri < j < end {
        lemma_block_is_below(t, ri, j);
    }
    if is_ancestor(t, ri, j) {
        lemma_below_is_in_block(t, ri, j);
        if j >= end {
            assert(t[end].depth > t[ri].depth);
        }
    }
}

/// Toggling a row gives every leaf at or below it the opposite of what the row
/// was, and no other leaf anything new.
pub proof fn law_toggle_changes_the_leaves_below(t: Seq<NodeView>, ri: int, j: int)
    requires
        pre_order(t),
        0 <= ri < t.len(),
        0 <= j < t.len(),
        t[j].is_leaf,
    ensures
        toggled(t, ri)[j].is_selected == if j == ri || is_ancestor(t, ri, j) {
            !t[ri].is_selected
        } else {
            t[j].is_selected
        },
{
    law_block_is_the_subtree(t, ri, j);
    lemma_block_end(t, ri, ri + 1);
}

/// Toggling and syncing leave the shape of the tree alone.
pub proof fn law_toggle_keeps_the_shape(t: Seq<NodeView>, ri: int)
    requires
        0 <= ri < t.len(),
    ensures
        same_shape(t, toggled(t, ri)),
{
}

pub open spec fn some_selected_leaf(t: Seq<NodeView>) -> bool {
    exists|i: int| 0 <= i < t.len() && (#[trigger] t[i]).is_leaf && t[i].is_selected
}

/// The tree after everything was toggled: nothing is selected if a test was,
/// else all is.
pub open spec fn all_toggled(t: Seq<NodeView>) -> Seq<NodeView> {
    Seq::new(t.len(), |i: int| with_selection(t[i], !some_selected_leaf(t), false))
}

pub fn toggle_all(tree: &mut Vec<TreeNode>)
    ensures
        rows(final(tree)@) == all_toggled(rows(old(tree)@)),
{
    let ghost t = rows(tree@);
    let n: usize = tree.len();
    let mut any = false;
    let mut k: usize = 0;
    while k < n
        invariant
            n == tree@.len(),
            t == rows(tree@),
            k <= n,
            any == exists|i: int|
                0 <= i < k && (#[trigger] t[i]).is_leaf && t[i].is_selected,
        decreases n - k,
    {
        assert(t[k as int] == tree@[k as int]@);
        if tree[k].is_leaf && tree[k].is_selected {
            any = true;
        }
        k += 1;
    }
    assert(any == some_selected_leaf(t));
    let mut i: usize = 0;
    while i < n
        invariant
            n == tree@.len(),
            n == t.len(),
            i <= n,
            forall|j: int| 0 <= j < i ==> (#[trigger] tree@[j])@ == with_selection(t[j], !any, false),
            forall|j: int| i <= j < n ==> (#[trigger] tree@[j])@ == t[j],
        decreases n - i,
    {
        tree[i].is_selected = !any;
        tree[i].is_partial = false;
        i += 1;
    }
    assert(rows(tree@) =~= all_toggled(t));
}

/// Toggling everything twice leaves every test selected or every test
/// unselected, as it was the time before the last.
pub proof fn law_toggle_all_alternates(t: Seq<NodeView>, i: int)
    requires
        0 <= i < t.len(),
        t[i].is_leaf,
    ensures
        all_toggled(t)[i].is_selected == !some_selected_leaf(t),
        all_toggled(all_toggled(t))[i].is_selected == some_selected_leaf(t),
{
    let u = all_toggled(t);
    assert(u[i].is_leaf);
    if some_selected_leaf(u) {
        let k = choose|k: int| 0 <= k < u.len() && (#[trigger] u[k]).is_leaf && u[k].is_selected;
    }
}

/// A leaf among the listed rows is selected.
pub open spec fn some_listed_selected(t: Seq<NodeView>, listed: Seq<int>) -> bool {
    exists|k: int| 0 <= k < listed.len() && is_selected_leaf(t[#[trigger] listed[k]])
}

/// The listed leaves with another selection.
pub open spec fn listed_flooded(t: Seq<NodeView>, listed: Seq<int>, selected: bool) -> Seq<
    NodeView,
> {
    Seq::new(
        t.len(),
        |i: int|
            if t[i].is_leaf && listed.contains(i) {
                NodeView { is_selected: selected, ..t[i] }
            } else {
                t[i]
            },
    )
}

/// The tree after the listed tests were toggled: none of them is selected if one
/// was, else all are; the folders follow.
pub open spec fn listed_toggled(t: Seq<NodeView>, listed: Seq<int>) -> Seq<NodeView> {
    synced(listed_flooded(t, listed, !some_listed_selected(t, listed)))
}

pub fn toggle_listed(tree: &mut Vec<TreeNode>, listed: &Vec<usize>)
    requires
        parents_precede(rows(old(tree)@)),
        forall|k: int| 0 <= k < listed@.len() ==> (#[trigger] listed@[k]) < old(tree)@.len(),
    ensures
        rows(final(tree)@) == listed_toggled(rows(old(tree)@), positions(listed@)),
{
    let ghost t = rows(tree@);
    let ghost all = positions(listed@);
    let mut any = false;
    let mut k: usize = 0;
    while k < listed.len()
        invariant
            t == rows(tree@),
            all == positions(listed@),
            forall|j: int| 0 <= j < listed@.len() ==> (#[trigger] listed@[j]) < tree@.len(),
            k <= listed@.len(),
            any == exists|j: int| 0 <= j < k && is_selected_leaf(t[#[trigger] all[j]]),
        decreases listed@.len() - k,
    {
        let i: usize = listed[k];
        assert(all[k as int] == i);
        assert(t[i as int] == tree@[i as int]@);
        if tree[i].is_leaf && tree[i].is_selected {
            any = true;
        }
        k += 1;
    }
    assert(any == some_listed_selected(t, all));
    let mut j: usize = 0;
    while j < listed.len()
        invariant
            all == positions(listed@),
            tree@.len() == t.len(),
            forall|m: int| 0 <= m < listed@.len() ==> (#[trigger] listed@[m]) < t.len(),
            j <= listed@.len(),
            forall|i: int|
                0 <= i < t.len() ==> (#[trigger] tree@[i])@ == listed_flooded(
                    t,
                    all.take(j as int),
                    !any,
                )[i],
        decreases listed@.len() - j,
    {
        let at: usize = listed[j];
        assert(all[j as int] == at);
        let ghost before = tree@;
        let ghost done = all.take(j as int);
        let ghost next = all.take(j + 1);
        assert(next =~= done.push(at as int));
        assert(before[at as int]@ == listed_flooded(t, done, !any)[at as int]);
        if tree[at].is_leaf {
            tree[at].is_selected = !any;
        }
        assert forall|i: int| 0 <= i < t.len() implies (#[trigger] tree@[i])@ == listed_flooded(
            t,
            next,
            !any,
        )[i] by {
            assert(before[i]@ == listed_flooded(t, done, !any)[i]);
            if done.contains(i) {
                assert(next[done.index_of(i)] == i);
            }
            if next.contains(i) && i != at {
                assert(done[next.index_of(i)] == i);
            }
            if i == at {
                assert(next[j as int] == i);
            }
        }
        j += 1;
    }
    assert(all.take(j as int) =~= all);
    proof {
        let u = listed_flooded(t, all, !any);
        assert(rows(tree@) =~= u);
        assert(same_shape(t, u));
        lemma_same_shape(t, u);
    }
    sync_parents(tree);
}

/// Toggling the listed tests changes every listed test to the same, and leaves
/// the tests that are not listed alone.
pub proof fn law_toggle_reaches_the_listed_tests(t: Seq<NodeView>, listed: Seq<int>, i: int)
    requires
        0 <= i < t.len(),
        t[i].is_leaf,
    ensures
        listed_toggled(t, listed)[i].is_selected == if listed.contains(i) {
            !some_listed_selected(t, listed)
        } else {
            t[i].is_selected
        },
{
}

/// Toggling the listed tests leaves the shape of the tree alone.
pub proof fn lemma_listed_shape(t: Seq<NodeView>, listed: Seq<int>)
    ensures
        same_shape(t, listed_toggled(t, listed)),
{
    let u = listed_flooded(t, listed, !some_listed_selected(t, listed));
    assert(same_shape(t, u));
    lemma_synced_shape(u);
}

// ---------------------------------------------------------------------------
// Keys of the selection
// ---------------------------------------------------------------------------
pub open spec fn is_selected_leaf(n: NodeView) -> bool {
    n.is_leaf && n.is_selected
}

/// The keys of the selected leaves among the first `n` rows, in tree order.
pub open spec fn selected_keys(t: Seq<NodeView>, n: int) -> Seq<Seq<char>>
    decreases n,
{
    if n <= 0 {
        Seq::empty()
    } else if is_selected_leaf(t[n - 1]) && t[n - 1].fqn is Some {
        selected_keys(t, n - 1).push(t[n - 1].fqn->0)
    } else {
        selected_keys(t, n - 1)
    }
}

pub fn collect_selected_tests(tree: &[TreeNode]) -> (r: Vec<String>)
    ensures
        texts(r@) == selected_keys(rows(tree@), tree@.len() as int),
{
    let ghost t = rows(tree@);
    let mut out: Vec<String> = Vec::new();
    let mut i: usize = 0;
    assert(texts(out@) =~= selected_keys(t, 0));
    while i < tree.len()
        invariant
            t == rows(tree@),
            i <= tree@.len(),
            texts(out@) == selected_keys(t, i as int),
        decreases tree@.len() - i,
    {
        let node = &tree[i];
        assert(t[i as int] == node@);
        if node.is_leaf && node.is_selected {
            match &node.fqn {
                Some(fqn) => {
                    let ghost o = texts(out@);
                    out.push(fqn.clone());
                    assert(texts(out@) =~= o.push(fqn@));
                },
                None => {},
            }
        }
        i += 1;
    }
    out
}

/// How many tests the first `n` rows stand for: all leaves, or the selected
/// ones.
pub open spec fn test_total(t: Seq<NodeView>, n: int, selected_only: bool) -> nat
    decreases n,
{
    if n <= 0 {
        0
    } else {
        test_total(t, n - 1, selected_only) + if t[n - 1].is_leaf && (!selected_only
            || t[n - 1].is_selected) {
            t[n - 1].test_count
        } else {
            0
        }
    }
}

pub open spec fn all_tests(t: Seq<NodeView>) -> nat {
    test_total(t, t.len() as int, false)
}

pub open spec fn selected_tests(t: Seq<NodeView>) -> nat {
    test_total(t, t.len() as int, true)
}

proof fn lemma_total_grows(t: Seq<NodeView>, n: int, m: int)
    requires
        0 <= n <= m,
    ensures
        test_total(t, n, true) <= test_total(t, n, false) <= test_total(t, m, false),
    decreases m,
{
    if n < m {
        lemma_total_grows(t, n, m - 1);
    } else if n > 0 {
        lemma_total_grows(t, n - 1, n - 1);
    }
}

/// Changing what is selected and expanded leaves the number of tests as it is.
pub proof fn lemma_shape_total(t: Seq<NodeView>, u: Seq<NodeView>, n: int)
    requires
        same_shape(t, u),
        n <= t.len(),
    ensures
        test_total(t, n, false) == test_total(u, n, false),
    decreases n,
{
    if n > 0 {
        lemma_shape_total(t, u, n - 1);
        assert(u[n - 1].test_count == t[n - 1].test_count);
    }
}

/// Counts all tests in the tree, if a machine word holds the number.
pub fn checked_test_count(tree: &[TreeNode]) -> (r: Option<usize>)
    ensures
        r == if all_tests(rows(tree@)) <= usize::MAX {
            Some(all_tests(rows(tree@)) as usize)
        } else {
            None
        },
{
    let ghost t = rows(tree@);
    let mut sum: usize = 0;
    let mut i: usize = 0;
    while i < tree.len()
        invariant
            t == rows(tree@),
            i <= tree@.len(),
            sum == test_total(t, i as int, false),
        decreases tree@.len() - i,
    {
        let node = &tree[i];
        proof {
            assert(t[i as int] == node@);
            lemma_total_grows(t, i + 1, t.len() as int);
        }
        if node.is_leaf {
            match sum.checked_add(node.test_count) {
                Some(n) => {
                    sum = n;
                },
                None => {
                    return None;
                },
            }
        }
        i += 1;
    }
    Some(sum)
}

/// Counts the tests in the tree: all of them, or the selected ones.
pub fn count_tests(tree: &[TreeNode], selected_only: bool) -> (r: usize)
    requires
        all_tests(rows(tree@)) <= usize::MAX,
    ensures
        r == test_total(rows(tree@), tree@.len() as int, selected_only),
{
    let ghost t = rows(tree@);
    let mut sum: usize = 0;
    let mut i: usize = 0;
    while i < tree.len()
        invariant
            t == rows(tree@),
            all_tests(t) <= usize::MAX,
            i <= tree@.len(),
            sum == test_total(t, i as int, selected_only),
        decreases tree@.len() - i,
    {
        let node = &tree[i];
        proof {
            assert(t[i as int] == node@);
            lemma_total_grows(t, i + 1, t.len() as int);
        }
        if node.is_leaf && (!selected_only || node.is_selected) {
            sum = sum + node.test_count;
        }
        i += 1;
    }
    sum
}

/// The paths of the expanded folders among the first `n` rows.
pub open spec fn expanded_paths(t: Seq<NodeView>, n: int) -> Seq<Seq<char>>
    decreases n,
{
    if n <= 0 {
        Seq::empty()
    } else if !t[n - 1].is_leaf && t[n - 1].is_expanded {
        expanded_paths(t, n - 1).push(row_path(t, n - 1))
    } else {
        expanded_paths(t, n - 1)
    }
}

/// What is kept of a tree while it is discovered anew.
pub struct TreeState {
    /// Keys of the selected tests.
    pub selected: Vec<String>,
    /// Paths of the expanded folders.
    pub expanded: Vec<String>,
}

/// Row `i` as a kept state has it: a leaf is known by its key, a folder by its
/// path.
pub open spec fn restored_row(
    t: Seq<NodeView>,
    i: int,
    selected: Seq<Seq<char>>,
    expanded: Seq<Seq<char>>,
) -> NodeView {
    if t[i].is_leaf {
        NodeView { is_selected: t[i].fqn is Some && selected.contains(t[i].fqn->0), ..t[i] }
    } else {
        NodeView { is_expanded: expanded.contains(row_path(t, i)), ..t[i] }
    }
}

/// The rows as a kept state has them.
pub open spec fn restored_rows(
    t: Seq<NodeView>,
    selected: Seq<Seq<char>>,
    expanded: Seq<Seq<char>>,
) -> Seq<NodeView> {
    Seq::new(t.len(), |i: int| restored_row(t, i, selected, expanded))
}

/// A tree as a kept state has it: the folders follow their leaves.
pub open spec fn restored(
    t: Seq<NodeView>,
    selected: Seq<Seq<char>>,
    expanded: Seq<Seq<char>>,
) -> Seq<NodeView> {
    synced(restored_rows(t, selected, expanded))
}

fn is_among(list: &Vec<String>, key: &Option<String>) -> (r: bool)
    ensures
        r == (opt_text(*key) is Some && texts(list@).contains(opt_text(*key)->0)),
{
    match key {
        None => false,
        Some(k) => has_text_in(list, k.as_str()),
    }
}

/// Selects exactly the leaves with one of these keys; the folders follow.
pub open spec fn reselected(t: Seq<NodeView>, keys: Seq<Seq<char>>) -> Seq<NodeView> {
    synced(
        t.map_values(
            |n: NodeView|
                if n.is_leaf {
                    NodeView { is_selected: n.fqn is Some && keys.contains(n.fqn->0), ..n }
                } else {
                    n
                },
        ),
    )
}

pub fn select_keys(tree: &mut Vec<TreeNode>, keys: &Vec<String>)
    requires
        parents_precede(rows(old(tree)@)),
    ensures
        rows(final(tree)@) == reselected(rows(old(tree)@), texts(keys@)),
{
    let ghost t = rows(tree@);
    let ghost u = t.map_values(
        |n: NodeView|
            if n.is_leaf {
                NodeView { is_selected: n.fqn is Some && texts(keys@).contains(n.fqn->0), ..n }
            } else {
                n
            },
    );
    let n: usize = tree.len();
    let mut i: usize = 0;
    while i < n
        invariant
            n == tree@.len(),
            n == t.len(),
            i <= n,
            u == t.map_values(
                |n: NodeView|
                    if n.is_leaf {
                        NodeView {
                            is_selected: n.fqn is Some && texts(keys@).contains(n.fqn->0),
                            ..n
                        }
                    } else {
                        n
                    },
            ),
            forall|j: int| 0 <= j < i ==> (#[trigger] tree@[j])@ == u[j],
            forall|j: int| i <= j < n ==> (#[trigger] tree@[j])@ == t[j],
        decreases n - i,
    {
        assert(tree@[i as int]@ == t[i as int]);
        if tree[i].is_leaf {
            let hit = is_among(keys, &tree[i].fqn);
            tree[i].is_selected = hit;
        }
        assert(tree@[i as int]@ == u[i as int]);
        i += 1;
    }
    proof {
        assert(rows(tree@) =~= u);
        assert(same_shape(t, u));
        lemma_same_shape(t, u);
    }
    sync_parents(tree);
}

impl TreeState {
    pub fn capture(tree: &[TreeNode]) -> (r: Self)
        ensures
            texts(r.selected@) == selected_keys(rows(tree@), tree@.len() as int),
            texts(r.expanded@) == expanded_paths(rows(tree@), tree@.len() as int),
    {
        let ghost t = rows(tree@);
        let selected = collect_selected_tests(tree);
        let paths = row_paths(tree);
        let mut expanded: Vec<String> = Vec::new();
        let mut i: usize = 0;
        assert(texts(expanded@) =~= expanded_paths(t, 0));
        while i < tree.len()
            invariant
                t == rows(tree@),
                i <= tree@.len(),
                paths@.len() == tree@.len(),
                forall|j: int| 0 <= j < t.len() ==> (#[trigger] paths@[j])@ == row_path(t, j),
                texts(expanded@) == expanded_paths(t, i as int),
            decreases tree@.len() - i,
        {
            let node = &tree[i];
            assert(t[i as int] == node@);
            if !node.is_leaf && node.is_expanded {
                let ghost o = texts(expanded@);
                expanded.push(paths[i].clone());
                assert(texts(expanded@) =~= o.push(paths@[i as int]@));
            }
            i += 1;
        }
        TreeState { selected, expanded }
    }

    pub fn restore(&self, tree: &mut Vec<TreeNode>)
        requires
            parents_precede(rows(old(tree)@)),
        ensures
            rows(final(tree)@) == restored(
                rows(old(tree)@),
                texts(self.selected@),
                texts(self.expanded@),
            ),
    {
        let ghost t = rows(tree@);
        let ghost sel = texts(self.selected@);
        let ghost exp = texts(self.expanded@);
        let ghost u = restored_rows(t, sel, exp);
        let paths = row_paths(tree.as_slice());
        let n: usize = tree.len();
        let mut i: usize = 0;
        while i < n
            invariant
                n == tree@.len(),
                n == t.len(),
                sel == texts(self.selected@),
                exp == texts(self.expanded@),
                u == restored_rows(t, sel, exp),
                paths@.len() == n,
                forall|j: int| 0 <= j < n ==> (#[trigger] paths@[j])@ == row_path(t, j),
                i <= n,
                forall|j: int| 0 <= j < i ==> (#[trigger] tree@[j])@ == u[j],
                forall|j: int| i <= j < n ==> (#[trigger] tree@[j])@ == t[j],
            decreases n - i,
        {
            assert(tree@[i as int]@ == t[i as int]);
            if tree[i].is_leaf {
                let hit = is_among(&self.selected, &tree[i].fqn);
                tree[i].is_selected = hit;
            } else {
                tree[i].is_expanded = has_text_in(&self.expanded, paths[i].as_str());
            }
            assert(tree@[i as int]@ == u[i as int]);
            i += 1;
        }
        proof {
            assert(rows(tree@) =~= u);
            assert(same_shape(t, u));
            lemma_same_shape(t, u);
        }
        sync_parents(tree);
    }
}

pub proof fn lemma_selected_keys(t: Seq<NodeView>, n: int, key: Seq<char>)
    requires
        0 <= n <= t.len(),
    ensures
        selected_keys(t, n).contains(key) <==> exists|i: int|
            0 <= i < n && is_selected_leaf(#[trigger] t[i]) && t[i].fqn == Some(key),
    decreases n,
{
    if n > 0 {
        lemma_selected_keys(t, n - 1, key);
        let a = selected_keys(t, n - 1);
        let b = selected_keys(t, n);
        if a.contains(key) {
            let k = choose|k: int| 0 <= k < a.len() && a[k] == key;
            assert(b[k] == key);
        }
        if is_selected_leaf(t[n - 1]) && t[n - 1].fqn == Some(key) {
            assert(b[b.len() - 1] == key);
        }
        if b.contains(key) {
            let k = choose|k: int| 0 <= k < b.len() && b[k] == key;
            if k < a.len() {
                assert(a[k] == key);
            }
        }
    }
}

/// Discovering anew keeps the selection: a leaf of the new tree is selected
/// exactly if a selected leaf of the old tree had its key.
pub proof fn law_selection_survives(old_tree: Seq<NodeView>, new_tree: Seq<NodeView>, i: int)
    requires
        0 <= i < new_tree.len(),
        new_tree[i].is_leaf,
    ensures
        restored(
            new_tree,
            selected_keys(old_tree, old_tree.len() as int),
            expanded_paths(old_tree, old_tree.len() as int),
        )[i].is_selected <==> new_tree[i].fqn is Some && exists|k: int|
            0 <= k < old_tree.len() && is_selected_leaf(#[trigger] old_tree[k]) && old_tree[k].fqn
                == new_tree[i].fqn,
{
    if new_tree[i].fqn is Some {
        lemma_selected_keys(old_tree, old_tree.len() as int, new_tree[i].fqn->0);
    }
}

proof fn lemma_expanded_paths(t: Seq<NodeView>, n: int, path: Seq<char>)
    requires
        0 <= n <= t.len(),
    ensures
        expanded_paths(t, n).contains(path) <==> exists|i: int|
            0 <= i < n && is_expanded_folder(#[trigger] t[i]) && row_path(t, i) == path,
    decreases n,
{
    if n > 0 {
        lemma_expanded_paths(t, n - 1, path);
        let a = expanded_paths(t, n - 1);
        let b = expanded_paths(t, n);
        if a.contains(path) {
            let k = choose|k: int| 0 <= k < a.len() && a[k] == path;
            assert(b[k] == path);
        }
        if is_expanded_folder(t[n - 1]) && row_path(t, n - 1) == path {
            assert(b[b.len() - 1] == path);
        }
        if b.contains(path) {
            let k = choose|k: int| 0 <= k < b.len() && b[k] == path;
            if k < a.len() {
                assert(a[k] == path);
            }
        }
    }
}

pub open spec fn is_expanded_folder(n: NodeView) -> bool {
    !n.is_leaf && n.is_expanded
}

/// Discovering anew keeps what is expanded: a folder of the new tree is expanded
/// exactly if an expanded folder of the old tree had its path.
pub proof fn law_expansion_survives(old_tree: Seq<NodeView>, new_tree: Seq<NodeView>, i: int)
    requires
        0 <= i < new_tree.len(),
        !new_tree[i].is_leaf,
    ensures
        restored(
            new_tree,
            selected_keys(old_tree, old_tree.len() as int),
            expanded_paths(old_tree, old_tree.len() as int),
        )[i].is_expanded <==> exists|k: int|
            0 <= k < old_tree.len() && is_expanded_folder(#[trigger] old_tree[k]) && row_path(
                old_tree,
                k,
            ) == row_path(new_tree, i),
{
    lemma_expanded_paths(old_tree, old_tree.len() as int, row_path(new_tree, i));
}

} // verus!
