//! From the selection in the tree to a test filter and a request to run it.

use vstd::prelude::*;
use vstd::utf8::encode_utf8;

use crate::domain::discovery::DiscoveredTestView;
use crate::domain::selection::{
    collect_selected_tests, is_selected_leaf, same_shape, selected_keys,
};
use crate::domain::tree::{
    flat_tree, law_flat_tree_is_in_pre_order, law_only_leaves_have_keys, row_in_order, rows,
    NodeView, TreeNode,
};
use crate::order::{ascending_list, sorted_unique};
use crate::text::{
    concat, ends_with_char, has_text, join, joined, occurs_at, opt_text, same_text, texts,
};
use crate::ui::failed_tests::{build_filter_for_display_names, names_filter};

verus! {

/// What is to be run for the current selection.
pub struct SelectedRunRequest {
    /// Filter for the whole solution; empty where everything is selected.
    pub filter: String,
    /// Filter by the names of the selected tests alone.
    pub sidecar_filter: String,
    /// The project of all selected tests, where they share one.
    pub target_path: Option<String>,
    /// Keys of the selected tests, in order and each once.
    pub test_names: Vec<String>,
}

pub open spec fn some_leaf_selected(t: Seq<NodeView>) -> bool {
    exists|i: int| 0 <= i < t.len() && is_selected_leaf(#[trigger] t[i])
}

pub open spec fn all_leaves_selected(t: Seq<NodeView>) -> bool {
    forall|i: int| 0 <= i < t.len() && (#[trigger] t[i]).is_leaf ==> t[i].is_selected
}

/// Every parent is a row of the tree.
pub open spec fn parents_exist(t: Seq<NodeView>) -> bool {
    forall|i: int|
        0 <= i < t.len() ==> match (#[trigger] t[i]).parent_idx {
            Some(p) => 0 <= p < t.len(),
            None => true,
        }
}

/// Row `i` has a key and is selected, and its parent does not stand for it: that
/// is not selected or has no key.
pub open spec fn is_named(t: Seq<NodeView>, i: int) -> bool {
    t[i].is_selected && t[i].fqn is Some && match t[i].parent_idx {
        Some(p) => !(t[p].is_selected && t[p].fqn is Some),
        None => true,
    }
}

/// What a filter looks for in the names of the tests that a row stands for: the
/// key of a leaf, the key of a folder that has one with a dot behind it.
pub open spec fn pattern(n: NodeView) -> Seq<char> {
    if n.is_leaf || (n.fqn->0.len() > 0 && n.fqn->0.last() == '.') {
        n.fqn->0
    } else {
        n.fqn->0 + "."@
    }
}

/// The patterns that name the selection, among the first `n` rows.
pub open spec fn include_patterns(t: Seq<NodeView>, n: int) -> Seq<Seq<char>>
    decreases n,
{
    if n <= 0 {
        Seq::empty()
    } else if is_named(t, n - 1) {
        include_patterns(t, n - 1).push(pattern(t[n - 1]))
    } else {
        include_patterns(t, n - 1)
    }
}

/// The keys of the leaves that are not selected, among the first `n` rows.
pub open spec fn exclude_patterns(t: Seq<NodeView>, n: int) -> Seq<Seq<char>>
    decreases n,
{
    if n <= 0 {
        Seq::empty()
    } else if t[n - 1].is_leaf && !t[n - 1].is_selected && t[n - 1].fqn is Some {
        exclude_patterns(t, n - 1).push(t[n - 1].fqn->0)
    } else {
        exclude_patterns(t, n - 1)
    }
}

/// Runs what contains one of the patterns.
pub open spec fn include_filter(patterns: Seq<Seq<char>>) -> Seq<char> {
    joined(patterns.map_values(|p: Seq<char>| "FullyQualifiedName~"@ + p), "|"@)
}

/// Runs what contains none of the patterns.
pub open spec fn exclude_filter(patterns: Seq<Seq<char>>) -> Seq<char> {
    joined(patterns.map_values(|p: Seq<char>| "FullyQualifiedName!~"@ + p), "&"@)
}

/// The length of a text in UTF-8.
pub open spec fn byte_len(s: Seq<char>) -> usize {
    encode_utf8(s).len() as usize
}

/// The exclusion is used where there is one and it is the shorter text.
pub open spec fn excludes(t: Seq<NodeView>) -> bool {
    let wanted = include_filter(include_patterns(t, t.len() as int));
    let unwanted = exclude_filter(exclude_patterns(t, t.len() as int));
    unwanted.len() > 0 && byte_len(unwanted) < byte_len(wanted)
}

/// The filter for a selection: none where no test is selected, the empty one
/// where all are.
pub open spec fn selection_filter(t: Seq<NodeView>) -> Option<Seq<char>> {
    if !some_leaf_selected(t) {
        None
    } else if all_leaves_selected(t) {
        Some(Seq::empty())
    } else if excludes(t) {
        Some(exclude_filter(exclude_patterns(t, t.len() as int)))
    } else {
        Some(include_filter(include_patterns(t, t.len() as int)))
    }
}

fn include_clauses(tree: &[TreeNode]) -> (r: Vec<String>)
    requires
        parents_exist(rows(tree@)),
    ensures
        texts(r@) == include_patterns(rows(tree@), tree@.len() as int).map_values(
            |p: Seq<char>| "FullyQualifiedName~"@ + p,
        ),
{
    let ghost t = rows(tree@);
    let ghost f = |p: Seq<char>| "FullyQualifiedName~"@ + p;
    let mut out: Vec<String> = Vec::new();
    let mut i: usize = 0;
    assert(texts(out@) =~= include_patterns(t, 0).map_values(f));
    while i < tree.len()
        invariant
            t == rows(tree@),
            f == (|p: Seq<char>| "FullyQualifiedName~"@ + p),
            parents_exist(t),
            i <= tree@.len(),
            texts(out@) == include_patterns(t, i as int).map_values(f),
        decreases tree@.len() - i,
    {
        let node = &tree[i];
        assert(t[i as int] == node@);
        let ghost before = include_patterns(t, i as int);
        let alone = node.is_selected && match node.parent_idx {
            Some(p) => {
                assert(t[p as int] == tree@[p as int]@);
                !(tree[p].is_selected && tree[p].fqn.is_some())
            },
            None => true,
        };
        if alone {
            match &node.fqn {
                Some(fqn) => {
                    let pat = if node.is_leaf || ends_with_char(fqn.as_str(), '.') {
                        fqn.clone()
                    } else {
                        concat(fqn.as_str(), ".")
                    };
                    assert(pat@ == pattern(t[i as int]));
                    let ghost o = texts(out@);
                    let clause = concat("FullyQualifiedName~", pat.as_str());
                    out.push(clause);
                    assert(texts(out@) =~= o.push(clause@));
                    assert(before.push(pat@).map_values(f) =~= before.map_values(f).push(clause@));
                },
                None => {},
            }
        }
        i += 1;
    }
    out
}

fn exclude_clauses(tree: &[TreeNode]) -> (r: Vec<String>)
    ensures
        texts(r@) == exclude_patterns(rows(tree@), tree@.len() as int).map_values(
            |p: Seq<char>| "FullyQualifiedName!~"@ + p,
        ),
{
    let ghost t = rows(tree@);
    let ghost f = |p: Seq<char>| "FullyQualifiedName!~"@ + p;
    let mut out: Vec<String> = Vec::new();
    let mut i: usize = 0;
    assert(texts(out@) =~= exclude_patterns(t, 0).map_values(f));
    while i < tree.len()
        invariant
            t == rows(tree@),
            f == (|p: Seq<char>| "FullyQualifiedName!~"@ + p),
            i <= tree@.len(),
            texts(out@) == exclude_patterns(t, i as int).map_values(f),
        decreases tree@.len() - i,
    {
        let node = &tree[i];
        assert(t[i as int] == node@);
        let ghost before = exclude_patterns(t, i as int);
        if node.is_leaf && !node.is_selected {
            match &node.fqn {
                Some(fqn) => {
                    let ghost o = texts(out@);
                    let clause = concat("FullyQualifiedName!~", fqn.as_str());
                    out.push(clause);
                    assert(texts(out@) =~= o.push(clause@));
                    assert(before.push(fqn@).map_values(f) =~= before.map_values(f).push(clause@));
                },
                None => {},
            }
        }
        i += 1;
    }
    out
}

/// Builds the filter for the current selection.
pub fn build_filter(tree: &[TreeNode]) -> (r: Option<String>)
    requires
        parents_exist(rows(tree@)),
    ensures
        opt_text(r) == selection_filter(rows(tree@)),
{
    let ghost t = rows(tree@);
    let mut any_selected = false;
    let mut all_selected = true;
    let mut i: usize = 0;
    while i < tree.len()
        invariant
            t == rows(tree@),
            i <= tree@.len(),
            any_selected == exists|j: int| 0 <= j < i && is_selected_leaf(#[trigger] t[j]),
            all_selected == forall|j: int|
                0 <= j < i && (#[trigger] t[j]).is_leaf ==> t[j].is_selected,
        decreases tree@.len() - i,
    {
        assert(t[i as int] == tree@[i as int]@);
        if tree[i].is_leaf {
            if tree[i].is_selected {
                any_selected = true;
                assert(is_selected_leaf(t[i as int]));
            } else {
                all_selected = false;
            }
        }
        i += 1;
    }
    if !any_selected {
        return None;
    }
    if all_selected {
        return Some(String::new());
    }
    let wanted = join(&include_clauses(tree), "|");
    let unwanted = join(&exclude_clauses(tree), "&");
    if !unwanted.as_str().is_empty() && unwanted.as_str().len() < wanted.as_str().len() {
        Some(unwanted)
    } else {
        Some(wanted)
    }
}

/// Every selected leaf belongs to the project `target`.
pub open spec fn all_selected_in(t: Seq<NodeView>, target: Seq<char>) -> bool {
    forall|i: int|
        0 <= i < t.len() && is_selected_leaf(#[trigger] t[i]) ==> t[i].target_path == Some(target)
}

/// The request as values.
#[verifier::ext_equal]
pub struct RequestView {
    pub filter: Seq<char>,
    pub sidecar_filter: Seq<char>,
    pub target_path: Option<Seq<char>>,
    pub test_names: Seq<Seq<char>>,
}

impl View for SelectedRunRequest {
    type V = RequestView;

    open spec fn view(&self) -> RequestView {
        RequestView {
            filter: self.filter@,
            sidecar_filter: self.sidecar_filter@,
            target_path: opt_text(self.target_path),
            test_names: texts(self.test_names@),
        }
    }
}

/// `target` is the project that all selected leaves share; it is `None` where
/// they share none.
pub open spec fn is_shared_target(t: Seq<NodeView>, target: Option<Seq<char>>) -> bool {
    match target {
        Some(p) => some_leaf_selected(t) && all_selected_in(t, p),
        None => some_leaf_selected(t) ==> forall|p: Seq<char>| !#[trigger] all_selected_in(t, p),
    }
}

fn shared_target(tree: &[TreeNode]) -> (r: Option<String>)
    ensures
        is_shared_target(rows(tree@), opt_text(r)),
{
    let ghost t = rows(tree@);
    let mut first: Option<String> = None;
    let mut i: usize = 0;
    while i < tree.len()
        invariant
            t == rows(tree@),
            i <= tree@.len(),
            first is None ==> forall|j: int| 0 <= j < i ==> !is_selected_leaf(#[trigger] t[j]),
            first matches Some(p) ==> {
                &&& exists|j: int| 0 <= j < i && is_selected_leaf(#[trigger] t[j])
                &&& forall|j: int|
                    0 <= j < i && is_selected_leaf(#[trigger] t[j]) ==> t[j].target_path == Some(p@)
            },
        decreases tree@.len() - i,
    {
        let node = &tree[i];
        assert(t[i as int] == node@);
        if node.is_leaf && node.is_selected {
            assert(is_selected_leaf(t[i as int]));
            match &node.target_path {
                None => {
                    assert forall|p: Seq<char>| !#[trigger] all_selected_in(t, p) by {
                        assert(t[i as int].target_path != Some(p));
                    }
                    return None;
                },
                Some(target) => {
                    let same = match &first {
                        Some(f) => same_text(f.as_str(), target.as_str()),
                        None => true,
                    };
                    if !same {
                        assert forall|p: Seq<char>| !#[trigger] all_selected_in(t, p) by {
                            let j = choose|j: int| 0 <= j < i && is_selected_leaf(#[trigger] t[j]);
                            assert(t[j].target_path != t[i as int].target_path);
                        }
                        return None;
                    }
                    if first.is_none() {
                        first = Some(target.clone());
                    }
                },
            }
        }
        i += 1;
    }
    first
}

/// The project of all selected leaves, where they share one.
pub open spec fn common_target(t: Seq<NodeView>) -> Option<Seq<char>> {
    if some_leaf_selected(t) && exists|p: Seq<char>| all_selected_in(t, p) {
        Some(choose|p: Seq<char>| all_selected_in(t, p))
    } else {
        None
    }
}

proof fn lemma_common_target(t: Seq<NodeView>, target: Option<Seq<char>>)
    requires
        is_shared_target(t, target),
    ensures
        target == common_target(t),
{
    if some_leaf_selected(t) {
        let i = choose|i: int| 0 <= i < t.len() && is_selected_leaf(#[trigger] t[i]);
        match target {
            Some(p) => {
                let q = choose|q: Seq<char>| all_selected_in(t, q);
                assert(all_selected_in(t, q));
                assert(t[i].target_path == Some(p) && t[i].target_path == Some(q));
            },
            None => {},
        }
    }
}

/// The request for a selection: none where no test with a key is selected.
pub open spec fn run_request(t: Seq<NodeView>) -> Option<RequestView> {
    let keys = selected_keys(t, t.len() as int);
    if selection_filter(t) is None || keys.len() == 0 {
        None
    } else {
        Some(
            RequestView {
                filter: selection_filter(t)->0,
                sidecar_filter: names_filter(ascending_list(keys)),
                target_path: common_target(t),
                test_names: ascending_list(keys),
            },
        )
    }
}

pub open spec fn opt_request(r: Option<SelectedRunRequest>) -> Option<RequestView> {
    match r {
        Some(request) => Some(request@),
        None => None,
    }
}

pub fn build_selected_run_request(tree: &[TreeNode]) -> (r: Option<SelectedRunRequest>)
    requires
        parents_exist(rows(tree@)),
    ensures
        opt_request(r) == run_request(rows(tree@)),
{
    let filter = match build_filter(tree) {
        Some(f) => f,
        None => {
            return None;
        },
    };
    let keys = collect_selected_tests(tree);
    if keys.len() == 0 {
        assert(texts(keys@).len() == 0);
        return None;
    }
    let test_names = sorted_unique(&keys);
    let sidecar_filter = build_filter_for_display_names(&test_names);
    let target_path = shared_target(tree);
    assert(texts(keys@).len() > 0);
    proof {
        lemma_common_target(rows(tree@), opt_text(target_path));
    }
    Some(SelectedRunRequest { filter, sidecar_filter, target_path, test_names })
}

// ---------------------------------------------------------------------------
// What the filters let through
// ---------------------------------------------------------------------------
/// What an inclusion lets through: names that contain one of the patterns.
pub open spec fn included(patterns: Seq<Seq<char>>, name: Seq<char>) -> bool {
    exists|i: int| 0 <= i < patterns.len() && has_text(name, #[trigger] patterns[i])
}

/// What an exclusion lets through: names that contain none of the patterns.
pub open spec fn not_excluded(patterns: Seq<Seq<char>>, name: Seq<char>) -> bool {
    forall|i: int| 0 <= i < patterns.len() ==> !has_text(name, #[trigger] patterns[i])
}

/// What the filter for a selection lets through.
pub open spec fn lets_through(t: Seq<NodeView>, name: Seq<char>) -> bool {
    if all_leaves_selected(t) {
        true
    } else if excludes(t) {
        not_excluded(exclude_patterns(t, t.len() as int), name)
    } else {
        included(include_patterns(t, t.len() as int), name)
    }
}

pub proof fn lemma_include_has(t: Seq<NodeView>, i: int, n: int)
    requires
        0 <= i < n,
        is_named(t, i),
    ensures
        include_patterns(t, n).contains(pattern(t[i])),
    decreases n,
{
    let p = include_patterns(t, n);
    if i == n - 1 {
        assert(p[p.len() - 1] == pattern(t[i]));
    } else {
        lemma_include_has(t, i, n - 1);
        let q = include_patterns(t, n - 1);
        let k = choose|k: int| 0 <= k < q.len() && q[k] == pattern(t[i]);
        assert(p[k] == pattern(t[i]));
    }
}

pub proof fn lemma_include_from(t: Seq<NodeView>, n: int, k: int) -> (i: int)
    requires
        0 <= k < include_patterns(t, n).len(),
    ensures
        0 <= i < n,
        is_named(t, i),
        include_patterns(t, n)[k] == pattern(t[i]),
    decreases n,
{
    if k < include_patterns(t, n - 1).len() {
        lemma_include_from(t, n - 1, k)
    } else {
        n - 1
    }
}

pub proof fn lemma_exclude_from(t: Seq<NodeView>, n: int, k: int) -> (i: int)
    requires
        0 <= k < exclude_patterns(t, n).len(),
    ensures
        0 <= i < n,
        t[i].is_leaf,
        !t[i].is_selected,
        t[i].fqn == Some(exclude_patterns(t, n)[k]),
    decreases n,
{
    if k < exclude_patterns(t, n - 1).len() {
        lemma_exclude_from(t, n - 1, k)
    } else {
        n - 1
    }
}

/// The key of no unselected test occurs in the key of the test.
pub open spec fn is_not_excluded(t: Seq<NodeView>, i: int) -> bool {
    forall|j: int|
        0 <= j < t.len() && (#[trigger] t[j]).is_leaf && !t[j].is_selected && t[j].fqn is Some
            ==> !has_text(t[i].fqn->0, t[j].fqn->0)
}

/// An inclusion lets every selected test run that no folder stands for.
pub proof fn law_named_tests_are_included(t: Seq<NodeView>, i: int)
    requires
        0 <= i < t.len(),
        t[i].is_leaf,
        is_named(t, i),
    ensures
        included(include_patterns(t, t.len() as int), t[i].fqn->0),
{
    let key = t[i].fqn->0;
    let n = t.len() as int;
    lemma_include_has(t, i, n);
    let inc = include_patterns(t, n);
    let k = choose|k: int| 0 <= k < inc.len() && inc[k] == pattern(t[i]);
    assert(key.subrange(0, key.len() as int) =~= key);
    assert(occurs_at(key, inc[k], 0));
    assert(has_text(key, inc[k]));
}

/// In a tree made from tests, whatever is selected and expanded in it, the
/// filter for the selection lets every selected test run; where it is an
/// exclusion, the key of no unselected test may occur in that of the test.
pub proof fn law_selected_tests_run(
    tests: Seq<DiscoveredTestView>,
    t: Seq<NodeView>,
    i: int,
)
    requires
        same_shape(flat_tree(tests), t),
        0 <= i < t.len(),
        is_selected_leaf(t[i]),
        !all_leaves_selected(t) && excludes(t) ==> is_not_excluded(t, i),
    ensures
        t[i].fqn is Some,
        selection_filter(t) is Some,
        lets_through(t, t[i].fqn->0),
{
    let f = flat_tree(tests);
    assert(f[i].fqn == t[i].fqn && f[i].is_leaf == t[i].is_leaf);
    law_only_leaves_have_keys(tests, i);
    let key = t[i].fqn->0;
    let n = t.len() as int;
    if !all_leaves_selected(t) {
        if excludes(t) {
            assert forall|k: int| 0 <= k < exclude_patterns(t, n).len() implies !has_text(
                key,
                #[trigger] exclude_patterns(t, n)[k],
            ) by {
                let j = lemma_exclude_from(t, n, k);
            }
        } else {
            law_flat_tree_is_in_pre_order(tests);
            assert(f[i].parent_idx == t[i].parent_idx);
            if let Some(p) = t[i].parent_idx {
                assert(row_in_order(f, i));
                law_only_leaves_have_keys(tests, p);
                assert(f[p].fqn == t[p].fqn);
            }
            law_named_tests_are_included(t, i);
        }
    }
}

/// The filter lets no unselected test run where it is an exclusion.
pub proof fn law_exclusion_stops_unselected_tests(t: Seq<NodeView>, i: int)
    requires
        0 <= i < t.len(),
        t[i].is_leaf,
        !t[i].is_selected,
        t[i].fqn is Some,
        excludes(t),
    ensures
        !lets_through(t, t[i].fqn->0),
{
    let n = t.len() as int;
    lemma_exclude_has(t, i, n);
    let ex = exclude_patterns(t, n);
    let k = choose|k: int| 0 <= k < ex.len() && ex[k] == t[i].fqn->0;
    let key = t[i].fqn->0;
    assert(key.subrange(0, key.len() as int) =~= key);
    assert(occurs_at(key, ex[k], 0));
    assert(has_text(key, ex[k]));
}

pub proof fn lemma_exclude_has(t: Seq<NodeView>, i: int, n: int)
    requires
        0 <= i < n,
        t[i].is_leaf,
        !t[i].is_selected,
        t[i].fqn is Some,
    ensures
        exclude_patterns(t, n).contains(t[i].fqn->0),
    decreases n,
{
    let p = exclude_patterns(t, n);
    if i == n - 1 {
        assert(p[p.len() - 1] == t[i].fqn->0);
    } else {
        lemma_exclude_has(t, i, n - 1);
        let q = exclude_patterns(t, n - 1);
        let k = choose|k: int| 0 <= k < q.len() && q[k] == t[i].fqn->0;
        assert(p[k] == t[i].fqn->0);
    }
}

} // verus!
