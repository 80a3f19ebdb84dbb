//! Which leaf of the tree a reported test name belongs to.

use vstd::prelude::*;

use crate::domain::tree::{rows, NodeView, TreeNode};
use crate::seqs::{lemma_filter_keeps, lemma_filter_member, lemma_filter_next, lemma_filter_none};
use crate::text::{concat, ends_with, opt_text, same_text};
use crate::ui::failed_tests::{filter_key_for_vstest, name_key};
use crate::ui::leaf_results::{LeafResultView, LeafResults};

verus! {

pub open spec fn is_leaf_named(n: NodeView, key: Seq<char>) -> bool {
    n.is_leaf && n.fqn == Some(key)
}

pub open spec fn has_leaf_named(t: Seq<NodeView>, key: Seq<char>) -> bool {
    exists|i: int| 0 <= i < t.len() && is_leaf_named(#[trigger] t[i], key)
}

/// A leaf whose key is `key` or ends in it, dot by dot.
pub open spec fn is_suffix_match(n: NodeView, key: Seq<char>) -> bool {
    n.is_leaf && match n.fqn {
        Some(f) => f == key || ("."@ + key).is_suffix_of(f),
        None => false,
    }
}

pub open spec fn is_label_match(n: NodeView, key: Seq<char>) -> bool {
    n.is_leaf && n.label == key
}

/// The first candidate that has no outcome yet.
pub open spec fn first_open(
    candidates: Seq<NodeView>,
    existing: Map<Seq<char>, LeafResultView>,
) -> Option<NodeView>
    decreases candidates.len(),
{
    if candidates.len() == 0 {
        None
    } else if candidates[0].fqn is Some && !existing.dom().contains(candidates[0].fqn->0) {
        Some(candidates[0])
    } else {
        first_open(candidates.drop_first(), existing)
    }
}

/// Among leaves that share a short name: the selected one; of several selected
/// ones the first without an outcome, or the first at all; else none.
pub open spec fn homonym_key(
    candidates: Seq<NodeView>,
    existing: Map<Seq<char>, LeafResultView>,
) -> Option<Seq<char>> {
    let selected = candidates.filter(|n: NodeView| n.is_selected);
    if selected.len() == 0 {
        None
    } else if selected.len() == 1 {
        selected[0].fqn
    } else {
        match first_open(selected, existing) {
            Some(n) => n.fqn,
            None => selected[0].fqn,
        }
    }
}

/// The only candidate; nothing if there is none; else as among homonyms.
pub open spec fn key_among(
    candidates: Seq<NodeView>,
    existing: Map<Seq<char>, LeafResultView>,
) -> Option<Seq<char>> {
    if candidates.len() == 0 {
        None
    } else if candidates.len() == 1 {
        candidates[0].fqn
    } else {
        homonym_key(candidates, existing)
    }
}

/// The leaf that a reported name belongs to: the one with exactly this key;
/// else among those whose key ends in it; else among those labelled so.
pub open spec fn resolved_key(
    t: Seq<NodeView>,
    reported_name: Seq<char>,
    existing: Map<Seq<char>, LeafResultView>,
) -> Option<Seq<char>> {
    let key = name_key(reported_name);
    let by_suffix = t.filter(|n: NodeView| is_suffix_match(n, key));
    let by_label = t.filter(|n: NodeView| is_label_match(n, key));
    if key.len() == 0 {
        None
    } else if has_leaf_named(t, key) {
        Some(key)
    } else if by_suffix.len() > 0 {
        key_among(by_suffix, existing)
    } else {
        key_among(by_label, existing)
    }
}

/// The rows at these indices.
pub open spec fn rows_at(t: Seq<NodeView>, at: Seq<usize>) -> Seq<NodeView> {
    at.map_values(|i: usize| t[i as int])
}

spec fn in_range(t: Seq<NodeView>, at: Seq<usize>) -> bool {
    forall|k: int| 0 <= k < at.len() ==> (#[trigger] at[k]) < t.len()
}

fn fqn_is(node: &TreeNode, key: &str) -> (r: bool)
    ensures
        r == (node@.fqn == Some(key@)),
{
    match &node.fqn {
        Some(f) => same_text(f.as_str(), key),
        None => false,
    }
}

pub fn leaf_named(tree: &[TreeNode], key: &str) -> (r: bool)
    ensures
        r == has_leaf_named(rows(tree@), key@),
{
    let ghost t = rows(tree@);
    let mut i: usize = 0;
    while i < tree.len()
        invariant
            t == rows(tree@),
            i <= tree@.len(),
            forall|j: int| 0 <= j < i ==> !is_leaf_named(#[trigger] t[j], key@),
        decreases tree@.len() - i,
    {
        assert(t[i as int] == tree@[i as int]@);
        if tree[i].is_leaf && fqn_is(&tree[i], key) {
            assert(is_leaf_named(t[i as int], key@));
            return true;
        }
        i += 1;
    }
    false
}

fn suffix_matches(tree: &[TreeNode], key: &str) -> (r: Vec<usize>)
    ensures
        in_range(rows(tree@), r@),
        rows_at(rows(tree@), r@) == rows(tree@).filter(|n: NodeView| is_suffix_match(n, key@)),
{
    let ghost t = rows(tree@);
    let ghost keep = |n: NodeView| is_suffix_match(n, key@);
    let dotted = concat(".", key);
    let mut out: Vec<usize> = Vec::new();
    let mut i: usize = 0;
    proof {
        lemma_filter_none(t, keep);
        assert(rows_at(t, out@) =~= Seq::<NodeView>::empty());
    }
    while i < tree.len()
        invariant
            t == rows(tree@),
            keep == (|n: NodeView| is_suffix_match(n, key@)),
            dotted@ == "."@ + key@,
            i <= tree@.len(),
            in_range(t, out@),
            rows_at(t, out@) == t.take(i as int).filter(keep),
        decreases tree@.len() - i,
    {
        assert(t[i as int] == tree@[i as int]@);
        let hit = tree[i].is_leaf && match &tree[i].fqn {
            Some(f) => same_text(f.as_str(), key) || ends_with(f.as_str(), dotted.as_str()),
            None => false,
        };
        assert(hit == keep(t[i as int]));
        proof {
            lemma_filter_next(t, keep, i as int);
        }
        if hit {
            let ghost o = rows_at(t, out@);
            out.push(i);
            assert(rows_at(t, out@) =~= o.push(t[i as int]));
        }
        i += 1;
    }
    proof {
        lemma_filter_none(t, keep);
    }
    out
}

fn label_matches(tree: &[TreeNode], key: &str) -> (r: Vec<usize>)
    ensures
        in_range(rows(tree@), r@),
        rows_at(rows(tree@), r@) == rows(tree@).filter(|n: NodeView| is_label_match(n, key@)),
{
    let ghost t = rows(tree@);
    let ghost keep = |n: NodeView| is_label_match(n, key@);
    let mut out: Vec<usize> = Vec::new();
    let mut i: usize = 0;
    proof {
        lemma_filter_none(t, keep);
        assert(rows_at(t, out@) =~= Seq::<NodeView>::empty());
    }
    while i < tree.len()
        invariant
            t == rows(tree@),
            keep == (|n: NodeView| is_label_match(n, key@)),
            i <= tree@.len(),
            in_range(t, out@),
            rows_at(t, out@) == t.take(i as int).filter(keep),
        decreases tree@.len() - i,
    {
        assert(t[i as int] == tree@[i as int]@);
        let hit = tree[i].is_leaf && same_text(tree[i].label.as_str(), key);
        assert(hit == keep(t[i as int]));
        proof {
            lemma_filter_next(t, keep, i as int);
        }
        if hit {
            let ghost o = rows_at(t, out@);
            out.push(i);
            assert(rows_at(t, out@) =~= o.push(t[i as int]));
        }
        i += 1;
    }
    proof {
        lemma_filter_none(t, keep);
    }
    out
}

fn fqn_clone(node: &TreeNode) -> (r: Option<String>)
    ensures
        opt_text(r) == node@.fqn,
{
    match &node.fqn {
        Some(f) => Some(f.clone()),
        None => None,
    }
}

/// Disambiguates leaves that share a short reported name.
fn pick_among_homonyms(
    tree: &[TreeNode],
    candidates: &Vec<usize>,
    existing: &LeafResults,
) -> (r: Option<String>)
    requires
        existing.wf(),
        in_range(rows(tree@), candidates@),
    ensures
        opt_text(r) == homonym_key(rows_at(rows(tree@), candidates@), existing@),
{
    let ghost t = rows(tree@);
    let ghost c = rows_at(t, candidates@);
    let ghost keep = |n: NodeView| n.is_selected;
    let mut selected: Vec<usize> = Vec::new();
    let mut i: usize = 0;
    proof {
        lemma_filter_none(c, keep);
        assert(rows_at(t, selected@) =~= Seq::<NodeView>::empty());
    }
    while i < candidates.len()
        invariant
            t == rows(tree@),
            c == rows_at(t, candidates@),
            keep == (|n: NodeView| n.is_selected),
            in_range(t, candidates@),
            in_range(t, selected@),
            i <= candidates@.len(),
            rows_at(t, selected@) == c.take(i as int).filter(keep),
        decreases candidates@.len() - i,
    {
        let at: usize = candidates[i];
        assert(c[i as int] == tree@[at as int]@);
        proof {
            lemma_filter_next(c, keep, i as int);
        }
        if tree[at].is_selected {
            let ghost o = rows_at(t, selected@);
            selected.push(at);
            assert(rows_at(t, selected@) =~= o.push(t[at as int]));
        }
        i += 1;
    }
    proof {
        lemma_filter_none(c, keep);
    }
    let ghost s = rows_at(t, selected@);
    assert(s == c.filter(keep));
    if selected.len() == 0 {
        return None;
    }
    assert(s[0] == tree@[selected@[0] as int]@);
    if selected.len() == 1 {
        return fqn_clone(&tree[selected[0]]);
    }
    let mut k: usize = 0;
    assert(s.skip(0) =~= s);
    while k < selected.len()
        invariant
            existing.wf(),
            t == rows(tree@),
            c == rows_at(t, candidates@),
            keep == (|n: NodeView| n.is_selected),
            s == c.filter(keep),
            s == rows_at(t, selected@),
            s.len() > 1,
            in_range(t, selected@),
            k <= selected@.len(),
            first_open(s, existing@) == first_open(s.skip(k as int), existing@),
        decreases selected@.len() - k,
    {
        let node = &tree[selected[k]];
        assert(s.skip(k as int)[0] == node@);
        assert(s.skip(k as int).drop_first() =~= s.skip(k + 1));
        match &node.fqn {
            Some(f) => {
                if !existing.contains_key(f.as_str()) {
                    return Some(f.clone());
                }
            },
            None => {},
        }
        k += 1;
    }
    fqn_clone(&tree[selected[0]])
}

fn pick(tree: &[TreeNode], candidates: &Vec<usize>, existing: &LeafResults) -> (r: Option<String>)
    requires
        existing.wf(),
        in_range(rows(tree@), candidates@),
    ensures
        opt_text(r) == key_among(rows_at(rows(tree@), candidates@), existing@),
{
    if candidates.len() == 0 {
        None
    } else if candidates.len() == 1 {
        assert(rows_at(rows(tree@), candidates@)[0] == tree@[candidates@[0] as int]@);
        fqn_clone(&tree[candidates[0]])
    } else {
        pick_among_homonyms(tree, candidates, existing)
    }
}

/// Maps a reported test name to the key of a leaf.
pub fn resolve_leaf_key(tree: &[TreeNode], reported_name: &str, existing: &LeafResults) -> (r:
    Option<String>)
    requires
        existing.wf(),
    ensures
        opt_text(r) == resolved_key(rows(tree@), reported_name@, existing@),
{
    let key = filter_key_for_vstest(reported_name);
    if key.as_str().is_empty() {
        return None;
    }
    if leaf_named(tree, key.as_str()) {
        return Some(key);
    }
    let by_suffix = suffix_matches(tree, key.as_str());
    if by_suffix.len() > 0 {
        return pick(tree, &by_suffix, existing);
    }
    let by_label = label_matches(tree, key.as_str());
    pick(tree, &by_label, existing)
}

pub proof fn lemma_key_among_is_member(
    candidates: Seq<NodeView>,
    existing: Map<Seq<char>, LeafResultView>,
) -> (i: int)
    requires
        key_among(candidates, existing) is Some,
    ensures
        0 <= i < candidates.len(),
        candidates[i].fqn == key_among(candidates, existing),
        candidates.len() > 1 ==> candidates[i].is_selected,
{
    if candidates.len() == 1 {
        0
    } else {
        let keep = |n: NodeView| n.is_selected;
        let selected = candidates.filter(keep);
        if selected.len() == 1 || first_open(selected, existing) is None {
            lemma_filter_member(candidates, keep, 0)
        } else {
            let k = lemma_first_open(selected, existing);
            lemma_filter_member(candidates, keep, k)
        }
    }
}

proof fn lemma_first_open(
    candidates: Seq<NodeView>,
    existing: Map<Seq<char>, LeafResultView>,
) -> (k: int)
    requires
        first_open(candidates, existing) is Some,
    ensures
        0 <= k < candidates.len(),
        first_open(candidates, existing) == Some(candidates[k]),
        candidates[k].fqn is Some,
        !existing.dom().contains(candidates[k].fqn->0),
    decreases candidates.len(),
{
    if candidates[0].fqn is Some && !existing.dom().contains(candidates[0].fqn->0) {
        0
    } else {
        lemma_first_open(candidates.drop_first(), existing) + 1
    }
}

/// A name is never attributed to a key that no leaf has.
pub proof fn law_resolved_key_is_a_leaf(
    t: Seq<NodeView>,
    reported_name: Seq<char>,
    existing: Map<Seq<char>, LeafResultView>,
)
    requires
        resolved_key(t, reported_name, existing) is Some,
    ensures
        has_leaf_named(t, resolved_key(t, reported_name, existing)->0),
{
    let key = name_key(reported_name);
    if !has_leaf_named(t, key) {
        let suffix = |n: NodeView| is_suffix_match(n, key);
        let label = |n: NodeView| is_label_match(n, key);
        let keep = if t.filter(suffix).len() > 0 {
            suffix
        } else {
            label
        };
        let k = lemma_key_among_is_member(t.filter(keep), existing);
        let i = lemma_filter_member(t, keep, k);
        assert(is_leaf_named(t[i], resolved_key(t, reported_name, existing)->0));
    }
}

/// A leaf with exactly the reported key gets the line, whatever else matches and
/// whatever is selected.
pub proof fn law_exact_key_wins(
    t: Seq<NodeView>,
    key: Seq<char>,
    existing: Map<Seq<char>, LeafResultView>,
)
    requires
        has_leaf_named(t, name_key(key)),
        name_key(key).len() > 0,
    ensures
        resolved_key(t, key, existing) == Some(name_key(key)),
{
}

/// Where several leaves share a name, only a selected one can get the line.
pub proof fn law_homonyms_need_selection(
    candidates: Seq<NodeView>,
    existing: Map<Seq<char>, LeafResultView>,
)
    requires
        candidates.len() > 1,
        key_among(candidates, existing) is Some,
    ensures
        exists|i: int|
            0 <= i < candidates.len() && (#[trigger] candidates[i]).is_selected
                && candidates[i].fqn == key_among(candidates, existing),
{
    let i = lemma_key_among_is_member(candidates, existing);
    assert(candidates[i].is_selected);
}

proof fn lemma_open_is_found(
    candidates: Seq<NodeView>,
    existing: Map<Seq<char>, LeafResultView>,
    i: int,
)
    requires
        0 <= i < candidates.len(),
        candidates[i].fqn is Some,
        !existing.dom().contains(candidates[i].fqn->0),
    ensures
        first_open(candidates, existing) is Some,
    decreases candidates.len(),
{
    if !(candidates[0].fqn is Some && !existing.dom().contains(candidates[0].fqn->0)) {
        assert(candidates.drop_first()[i - 1] == candidates[i]);
        lemma_open_is_found(candidates.drop_first(), existing, i - 1);
    }
}

/// As long as one of several selected leaves with the same name has no outcome,
/// the next line goes to a leaf that has none: running them together gives each
/// its own.
pub proof fn law_homonyms_fill_up(
    candidates: Seq<NodeView>,
    existing: Map<Seq<char>, LeafResultView>,
    i: int,
)
    requires
        0 <= i < candidates.len(),
        candidates[i].is_selected,
        candidates[i].fqn is Some,
        !existing.dom().contains(candidates[i].fqn->0),
    ensures
        homonym_key(candidates, existing) is Some,
        !existing.dom().contains(homonym_key(candidates, existing)->0),
{
    let keep = |n: NodeView| n.is_selected;
    let selected = candidates.filter(keep);
    let k = lemma_filter_keeps(candidates, keep, i);
    lemma_open_is_found(selected, existing, k);
    let f = lemma_first_open(selected, existing);
}

} // verus!
