//! What checking and unchecking comes to, row by row.

use vstd::prelude::*;

use crate::domain::ancestry::{is_ancestor};
use crate::domain::selection::{
    all_tests, all_toggled, flooded, has_selected_below, has_unselected_below, is_selected_leaf,
    law_block_is_the_subtree, law_toggle_changes_the_leaves_below,
    law_toggle_reaches_the_listed_tests,
    lemma_shape_ancestors, listed_toggled, reselected, selected_keys, selected_leaf_flags,
    selected_tests, synced, test_total, toggled, unselected_leaf_flags,
};
use crate::domain::tree::{parents_precede, pre_order, NodeView};

verus! {

/// A folder is checked exactly if there are tests below it and all of them are,
/// and half checked exactly if some are and some are not; a test keeps its mark
/// and is never half checked. Nothing else changes.
pub proof fn law_folders_follow_their_tests(t: Seq<NodeView>, i: int)
    requires
        0 <= i < t.len(),
    ensures
        ({
            let n = synced(t)[i];
            let all = forall|j: int|
                0 <= j < t.len() && (#[trigger] t[j]).is_leaf && is_ancestor(t, i, j)
                    ==> t[j].is_selected;
            let some = exists|j: int|
                0 <= j < t.len() && (#[trigger] t[j]).is_leaf && is_ancestor(t, i, j)
                    && t[j].is_selected;
            &&& synced(t).len() == t.len()
            &&& n == (NodeView { is_selected: n.is_selected, is_partial: n.is_partial, ..t[i] })
            &&& t[i].is_leaf ==> n.is_selected == t[i].is_selected && !n.is_partial
            &&& !t[i].is_leaf ==> n.is_selected == (some && all) && n.is_partial == (some && !all)
        }),
{
    let yes = selected_leaf_flags(t);
    let no = unselected_leaf_flags(t);
    if !t[i].is_leaf {
        if has_selected_below(t, i) {
            let j = choose|j: int|
                0 <= j < yes.len() && #[trigger] yes[j] && (j == i || is_ancestor(t, i, j));
            assert(t[j].is_leaf && is_ancestor(t, i, j) && t[j].is_selected);
        }
        if exists|j: int|
            0 <= j < t.len() && (#[trigger] t[j]).is_leaf && is_ancestor(t, i, j)
                && t[j].is_selected {
            let j = choose|j: int|
                0 <= j < t.len() && (#[trigger] t[j]).is_leaf && is_ancestor(t, i, j)
                    && t[j].is_selected;
            assert(yes[j]);
            assert(has_selected_below(t, i));
        }
        if has_unselected_below(t, i) {
            let j = choose|j: int|
                0 <= j < no.len() && #[trigger] no[j] && (j == i || is_ancestor(t, i, j));
            assert(t[j].is_leaf && is_ancestor(t, i, j) && !t[j].is_selected);
        }
        if exists|j: int|
            0 <= j < t.len() && (#[trigger] t[j]).is_leaf && is_ancestor(t, i, j)
                && !t[j].is_selected {
            let j = choose|j: int|
                0 <= j < t.len() && (#[trigger] t[j]).is_leaf && is_ancestor(t, i, j)
                    && !t[j].is_selected;
            assert(no[j]);
            assert(has_unselected_below(t, i));
        }
    }
}

/// Row `p` stands above row `i` exactly if it is the row right above it or
/// stands above that.
pub proof fn law_rows_stand_above_by_steps(t: Seq<NodeView>, p: int, i: int)
    requires
        parents_precede(t),
        0 <= i < t.len(),
    ensures
        is_ancestor(t, p, i) <==> match t[i].parent_idx {
            Some(q) => q == p || is_ancestor(t, p, q),
            None => false,
        },
{
    assert(match t[i].parent_idx {
        Some(q) => 0 <= q < i,
        None => true,
    });
}

/// Toggling a folder checks all tests below it if it was not checked, and
/// unchecks all of them if it was; the folder itself says so afterwards.
pub proof fn law_toggled_folder_shows_it(t: Seq<NodeView>, ri: int, leaf: int)
    requires
        pre_order(t),
        0 <= ri < t.len(),
        0 <= leaf < t.len(),
        t[leaf].is_leaf,
        leaf == ri || is_ancestor(t, ri, leaf),
    ensures
        toggled(t, ri)[ri].is_selected == !t[ri].is_selected,
        !toggled(t, ri)[ri].is_partial,
        toggled(t, ri)[leaf].is_selected == !t[ri].is_selected,
{
    law_toggle_changes_the_leaves_below(t, ri, leaf);
    let f = flooded(t, ri, !t[ri].is_selected);
    law_folders_follow_their_tests(f, ri);
    if !t[ri].is_leaf {
        assert(f[ri].is_leaf == t[ri].is_leaf);
        assert forall|j: int|
            0 <= j < f.len() && (#[trigger] f[j]).is_leaf && is_ancestor(
                f,
                ri,
                j,
            ) implies f[j].is_selected == !t[ri].is_selected by {
            lemma_shape_ancestors(t, f, ri, j);
            law_block_is_the_subtree(t, ri, j);
        }
        lemma_shape_ancestors(t, f, ri, leaf);
        assert(f[leaf].is_leaf && is_ancestor(f, ri, leaf));
    } else {
        law_toggle_changes_the_leaves_below(t, ri, ri);
    }
}

/// Toggling everything leaves every row checked if no test was, and none
/// otherwise, and nothing half checked.
pub proof fn law_toggling_all_treats_all_alike(t: Seq<NodeView>, i: int)
    requires
        0 <= i < t.len(),
    ensures
        ({
            let some = exists|j: int|
                0 <= j < t.len() && (#[trigger] t[j]).is_leaf && t[j].is_selected;
            all_toggled(t)[i] == (NodeView { is_selected: !some, is_partial: false, ..t[i] })
        }),
        all_toggled(t).len() == t.len(),
{
}

/// Toggling the listed tests checks all of them if none was checked, and
/// unchecks all of them otherwise; a test that is not listed keeps its mark.
pub proof fn law_toggling_listed_treats_listed_alike(t: Seq<NodeView>, listed: Seq<int>, i: int)
    requires
        0 <= i < t.len(),
        t[i].is_leaf,
    ensures
        ({
            let some = exists|k: int|
                0 <= k < listed.len() && t[#[trigger] listed[k]].is_leaf && t[listed[k]].is_selected;
            listed_toggled(t, listed)[i].is_selected == if listed.contains(i) {
                !some
            } else {
                t[i].is_selected
            }
        }),
{
    law_toggle_reaches_the_listed_tests(t, listed, i);
    if exists|k: int|
        0 <= k < listed.len() && t[#[trigger] listed[k]].is_leaf && t[listed[k]].is_selected {
        let k = choose|k: int|
            0 <= k < listed.len() && t[#[trigger] listed[k]].is_leaf && t[listed[k]].is_selected;
        assert(is_selected_leaf(t[listed[k]]));
    }
}

/// Selecting by keys checks a test exactly if its key is among them.
pub proof fn law_keys_check_their_tests(t: Seq<NodeView>, keys: Seq<Seq<char>>, i: int)
    requires
        0 <= i < t.len(),
        t[i].is_leaf,
    ensures
        reselected(t, keys)[i].is_selected <==> t[i].fqn is Some && keys.contains(t[i].fqn->0),
        reselected(t, keys).len() == t.len(),
        reselected(t, keys)[i].fqn == t[i].fqn,
{
}

/// The keys of the checked tests are those of the checked leaves, in the order
/// of the tree.
pub proof fn law_checked_keys_are_in_order(t: Seq<NodeView>, n: int)
    requires
        0 <= n <= t.len(),
    ensures
        selected_keys(t, n) == t.take(n).filter(
            |m: NodeView| m.is_leaf && m.is_selected && m.fqn is Some,
        ).map_values(|m: NodeView| m.fqn->0),
    decreases n,
{
    let keep = |m: NodeView| m.is_leaf && m.is_selected && m.fqn is Some;
    let key = |m: NodeView| m.fqn->0;
    reveal(Seq::filter);
    if n > 0 {
        law_checked_keys_are_in_order(t, n - 1);
        assert(t.take(n).drop_last() =~= t.take(n - 1));
        assert(t.take(n).last() == t[n - 1]);
        let before = t.take(n - 1).filter(keep);
        if keep(t[n - 1]) {
            assert(before.push(t[n - 1]).map_values(key) =~= before.map_values(key).push(
                t[n - 1].fqn->0,
            ));
        }
    } else {
        assert(t.take(0).filter(keep).map_values(key) =~= Seq::<Seq<char>>::empty());
    }
}

proof fn lemma_total_of_beginning(t: Seq<NodeView>, row: NodeView, n: int, selected: bool)
    requires
        0 <= n <= t.len(),
    ensures
        test_total(t.push(row), n, selected) == test_total(t, n, selected),
    decreases n,
{
    if n > 0 {
        lemma_total_of_beginning(t, row, n - 1, selected);
        assert(t.push(row)[n - 1] == t[n - 1]);
    }
}

/// One row more: a leaf adds its cases to the tests, and to the checked tests if
/// it is checked; a folder adds nothing.
pub proof fn law_rows_add_their_cases(t: Seq<NodeView>, row: NodeView)
    ensures
        all_tests(Seq::empty()) == 0,
        selected_tests(Seq::empty()) == 0,
        all_tests(t.push(row)) == all_tests(t) + if row.is_leaf {
            row.test_count
        } else {
            0
        },
        selected_tests(t.push(row)) == selected_tests(t) + if row.is_leaf && row.is_selected {
            row.test_count
        } else {
            0
        },
{
    lemma_total_of_beginning(t, row, t.len() as int, false);
    lemma_total_of_beginning(t, row, t.len() as int, true);
    assert(t.push(row)[t.len() as int] == row);
}

} // verus!
