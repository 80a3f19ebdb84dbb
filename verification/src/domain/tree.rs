//! The tree of tests, laid out flat: every row stands before the rows below it.

use vstd::prelude::*;

use crate::domain::discovery::{entries, DiscoveredTest, DiscoveredTestView};
use crate::order::{
    ascending_list, before, law_ascending_unique, lemma_ascending_list, lemma_before_irreflexive,
    sorted_unique,
};
use crate::text::{concat, joined, opt_text, segments, split, texts};
use crate::text_laws::law_joining_undoes_splitting;

verus! {

/// One row of the tree.
#[derive(Clone, Debug)]
pub struct TreeNode {
    pub label: String,
    /// The key that filters select the test by; none for a folder or a class.
    pub fqn: Option<String>,
    pub is_selected: bool,
    /// Some but not all tests below are selected.
    pub is_partial: bool,
    pub is_expanded: bool,
    pub depth: usize,
    pub parent_idx: Option<usize>,
    pub is_leaf: bool,
    pub test_count: usize,
    pub target_path: Option<String>,
}

/// What a [`TreeNode`] says, as values.
#[verifier::ext_equal]
pub struct NodeView {
    pub label: Seq<char>,
    pub fqn: Option<Seq<char>>,
    pub is_selected: bool,
    pub is_partial: bool,
    pub is_expanded: bool,
    pub depth: nat,
    pub parent_idx: Option<int>,
    pub is_leaf: bool,
    pub test_count: nat,
    pub target_path: Option<Seq<char>>,
}

pub open spec fn opt_index(o: Option<usize>) -> Option<int> {
    match o {
        Some(n) => Some(n as int),
        None => None,
    }
}

impl View for TreeNode {
    type V = NodeView;

    open spec fn view(&self) -> NodeView {
        NodeView {
            label: self.label@,
            fqn: opt_text(self.fqn),
            is_selected: self.is_selected,
            is_partial: self.is_partial,
            is_expanded: self.is_expanded,
            depth: self.depth as nat,
            parent_idx: opt_index(self.parent_idx),
            is_leaf: self.is_leaf,
            test_count: self.test_count as nat,
            target_path: opt_text(self.target_path),
        }
    }
}

/// What a flat tree says, row by row.
pub open spec fn rows(tree: Seq<TreeNode>) -> Seq<NodeView> {
    tree.map_values(|n: TreeNode| n@)
}

// ---------------------------------------------------------------------------
// Building
// ---------------------------------------------------------------------------
/// A test on its way into the tree: the segments of its path that are still to
/// be placed, and the test itself.
pub struct Placing {
    pub segs: Seq<Seq<char>>,
    pub test: DiscoveredTestView,
}

/// The tests, with all segments of their paths still to be placed.
pub open spec fn placings(tests: Seq<DiscoveredTestView>) -> Seq<Placing> {
    tests.map_values(
        |t: DiscoveredTestView| Placing { segs: segments(t.tree_path, '.'), test: t },
    )
}

/// The first segments of those that lead into a folder.
pub open spec fn folder_names(ps: Seq<Placing>) -> Seq<Seq<char>>
    decreases ps.len(),
{
    if ps.len() == 0 {
        Seq::empty()
    } else if ps.last().segs.len() >= 2 {
        folder_names(ps.drop_last()).push(ps.last().segs[0])
    } else {
        folder_names(ps.drop_last())
    }
}

/// Those that lead into the folder `label`, seen from inside it.
pub open spec fn inside(ps: Seq<Placing>, label: Seq<char>) -> Seq<Placing>
    decreases ps.len(),
{
    if ps.len() == 0 {
        Seq::empty()
    } else if ps.last().segs.len() >= 2 && ps.last().segs[0] == label {
        inside(ps.drop_last(), label).push(
            Placing { segs: ps.last().segs.drop_first(), test: ps.last().test },
        )
    } else {
        inside(ps.drop_last(), label)
    }
}

/// Those that end here, the first of each filter key.
pub open spec fn leaves_here(ps: Seq<Placing>) -> Seq<Placing>
    decreases ps.len(),
{
    if ps.len() == 0 {
        Seq::empty()
    } else {
        let earlier = leaves_here(ps.drop_last());
        if ps.last().segs.len() == 1 && !has_key(earlier, ps.last().test.filter_key) {
            earlier.push(ps.last())
        } else {
            earlier
        }
    }
}

pub open spec fn has_key(ps: Seq<Placing>, key: Seq<char>) -> bool {
    exists|i: int| 0 <= i < ps.len() && (#[trigger] ps[i]).test.filter_key == key
}

/// The most segments that any of them still has.
pub open spec fn height(ps: Seq<Placing>) -> nat
    decreases ps.len(),
{
    if ps.len() == 0 {
        0
    } else if ps.last().segs.len() > height(ps.drop_last()) {
        ps.last().segs.len()
    } else {
        height(ps.drop_last())
    }
}

pub open spec fn folder_row(label: Seq<char>, depth: nat, parent: Option<int>) -> NodeView {
    NodeView {
        label,
        fqn: None,
        is_selected: false,
        is_partial: false,
        is_expanded: false,
        depth,
        parent_idx: parent,
        is_leaf: false,
        test_count: 0,
        target_path: None,
    }
}

pub open spec fn leaf_row(p: Placing, depth: nat, parent: Option<int>) -> NodeView {
    NodeView {
        label: p.segs[0],
        fqn: Some(p.test.filter_key),
        is_selected: false,
        is_partial: false,
        is_expanded: true,
        depth,
        parent_idx: parent,
        is_leaf: true,
        test_count: p.test.test_count,
        target_path: p.test.target_path,
    }
}

/// The labels of the folders on one level, in ascending order.
pub open spec fn folder_labels(ps: Seq<Placing>) -> Seq<Seq<char>> {
    ascending_list(folder_names(ps))
}

/// The rows of one level, the first of which stands at `base`: first the
/// folders in ascending order, each followed by what is inside it, then the
/// tests that end here.
pub open spec fn level_rows(
    ps: Seq<Placing>,
    depth: nat,
    parent: Option<int>,
    base: int,
) -> Seq<NodeView>
    decreases height(ps), folder_labels(ps).len() + 1,
{
    folder_rows(ps, folder_labels(ps).len() as int, depth, parent, base)
        + leaves_here(ps).map_values(|p: Placing| leaf_row(p, depth, parent))
}

/// The rows of the first `n` folders of one level.
pub open spec fn folder_rows(
    ps: Seq<Placing>,
    n: int,
    depth: nat,
    parent: Option<int>,
    base: int,
) -> Seq<NodeView>
    decreases height(ps), n,
{
    if n <= 0 || n > folder_labels(ps).len() {
        Seq::empty()
    } else {
        let earlier = folder_rows(ps, n - 1, depth, parent, base);
        let label = folder_labels(ps)[n - 1];
        let at = base + earlier.len();
        proof {
            lemma_labels_lead_inside(ps, n - 1);
        }
        earlier.push(folder_row(label, depth, parent)) + level_rows(
            inside(ps, label),
            depth + 1,
            Some(at),
            at + 1,
        )
    }
}

proof fn lemma_inside_is_lower(ps: Seq<Placing>, label: Seq<char>)
    ensures
        folder_names(ps).contains(label) <==> inside(ps, label).len() > 0,
        inside(ps, label).len() > 0 ==> height(inside(ps, label)) < height(ps),
    decreases ps.len(),
{
    if ps.len() > 0 {
        let init = ps.drop_last();
        lemma_inside_is_lower(init, label);
        let names = folder_names(init);
        if ps.last().segs.len() >= 2 {
            let pushed = names.push(ps.last().segs[0]);
            assert(folder_names(ps) == pushed);
            if names.contains(label) {
                let k = choose|k: int| 0 <= k < names.len() && names[k] == label;
                assert(pushed[k] == label);
            }
            if ps.last().segs[0] == label {
                assert(pushed[names.len() as int] == label);
                let all = inside(ps, label);
                assert(all.drop_last() =~= inside(init, label));
                assert(all.last().segs.len() == ps.last().segs.len() - 1);
                assert(inside(init, label).len() == 0 ==> height(inside(init, label)) == 0);
                assert(height(all) == if all.last().segs.len() > height(inside(init, label)) {
                    all.last().segs.len()
                } else {
                    height(inside(init, label))
                });
            } else if pushed.contains(label) {
                let k = choose|k: int| 0 <= k < pushed.len() && pushed[k] == label;
                assert(names[k] == label);
            }
        }
    }
}

pub proof fn lemma_labels_lead_inside(ps: Seq<Placing>, n: int)
    requires
        0 <= n < folder_labels(ps).len(),
    ensures
        inside(ps, folder_labels(ps)[n]).len() > 0,
        height(inside(ps, folder_labels(ps)[n])) < height(ps),
{
    let label = folder_labels(ps)[n];
    lemma_ascending_list(folder_names(ps));
    assert(folder_labels(ps).contains(label));
    lemma_inside_is_lower(ps, label);
}

/// The flat tree of a list of tests: every segment of a path but the last is a
/// folder or a class, the last one is the test.
pub open spec fn flat_tree(tests: Seq<DiscoveredTestView>) -> Seq<NodeView> {
    level_rows(placings(tests), 0, None, 0)
}

/// The members, seen from `depth` on.
spec fn placing_of(
    paths: Seq<Vec<String>>,
    tests: Seq<DiscoveredTest>,
    members: Seq<usize>,
    depth: int,
) -> Seq<Placing> {
    members.map_values(
        |m: usize|
            Placing { segs: texts(paths[m as int]@).skip(depth), test: tests[m as int]@ },
    )
}

spec fn members_ok(
    paths: Seq<Vec<String>>,
    tests: Seq<DiscoveredTest>,
    members: Seq<usize>,
    depth: int,
) -> bool {
    &&& paths.len() == tests.len()
    &&& forall|k: int|
        0 <= k < members.len() ==> (#[trigger] members[k]) < tests.len()
            && paths[members[k] as int]@.len() > depth
}

fn collect_folder_names(
    paths: &Vec<Vec<String>>,
    tests: &[DiscoveredTest],
    members: &Vec<usize>,
    depth: usize,
) -> (r: Vec<String>)
    requires
        members_ok(paths@, tests@, members@, depth as int),
    ensures
        texts(r@) == folder_names(placing_of(paths@, tests@, members@, depth as int)),
{
    let ghost ps = placing_of(paths@, tests@, members@, depth as int);
    let mut out: Vec<String> = Vec::new();
    let mut i: usize = 0;
    assert(ps.take(0) =~= Seq::<Placing>::empty());
    assert(texts(out@) =~= Seq::<Seq<char>>::empty());
    while i < members.len()
        invariant
            members_ok(paths@, tests@, members@, depth as int),
            ps == placing_of(paths@, tests@, members@, depth as int),
            i <= members@.len(),
            texts(out@) == folder_names(ps.take(i as int)),
        decreases members@.len() - i,
    {
        let m: usize = members[i];
        let ghost next = ps.take(i + 1);
        assert(next.drop_last() =~= ps.take(i as int));
        assert(next.last().segs == texts(paths@[m as int]@).skip(depth as int));
        let path = &paths[m];
        if path.len() - depth >= 2 {
            let ghost o = texts(out@);
            out.push(path[depth].clone());
            assert(texts(out@) =~= o.push(path@[depth as int]@));
        }
        i += 1;
    }
    assert(ps.take(i as int) =~= ps);
    out
}

fn members_inside(
    paths: &Vec<Vec<String>>,
    tests: &[DiscoveredTest],
    members: &Vec<usize>,
    depth: usize,
    label: &String,
) -> (r: Vec<usize>)
    requires
        members_ok(paths@, tests@, members@, depth as int),
    ensures
        members_ok(paths@, tests@, r@, depth + 1),
        placing_of(paths@, tests@, r@, depth + 1) == inside(
            placing_of(paths@, tests@, members@, depth as int),
            label@,
        ),
{
    let ghost ps = placing_of(paths@, tests@, members@, depth as int);
    let mut out: Vec<usize> = Vec::new();
    let mut i: usize = 0;
    assert(ps.take(0) =~= Seq::<Placing>::empty());
    assert(placing_of(paths@, tests@, out@, depth + 1) =~= Seq::<Placing>::empty());
    while i < members.len()
        invariant
            members_ok(paths@, tests@, members@, depth as int),
            members_ok(paths@, tests@, out@, depth + 1),
            ps == placing_of(paths@, tests@, members@, depth as int),
            i <= members@.len(),
            placing_of(paths@, tests@, out@, depth + 1) == inside(ps.take(i as int), label@),
        decreases members@.len() - i,
    {
        let m: usize = members[i];
        let ghost next = ps.take(i + 1);
        assert(next.drop_last() =~= ps.take(i as int));
        let ghost segs = texts(paths@[m as int]@).skip(depth as int);
        assert(next.last() == (Placing { segs, test: tests@[m as int]@ }));
        let path = &paths[m];
        if path.len() - depth >= 2 && path[depth] == *label {
            let ghost o = placing_of(paths@, tests@, out@, depth + 1);
            out.push(m);
            assert(segs.drop_first() =~= texts(paths@[m as int]@).skip(depth + 1));
            assert(placing_of(paths@, tests@, out@, depth + 1) =~= o.push(
                Placing { segs: segs.drop_first(), test: tests@[m as int]@ },
            ));
        }
        i += 1;
    }
    assert(ps.take(i as int) =~= ps);
    out
}

fn members_ending(
    paths: &Vec<Vec<String>>,
    tests: &[DiscoveredTest],
    members: &Vec<usize>,
    depth: usize,
) -> (r: Vec<usize>)
    requires
        members_ok(paths@, tests@, members@, depth as int),
    ensures
        members_ok(paths@, tests@, r@, depth as int),
        placing_of(paths@, tests@, r@, depth as int) == leaves_here(
            placing_of(paths@, tests@, members@, depth as int),
        ),
{
    let ghost ps = placing_of(paths@, tests@, members@, depth as int);
    let mut out: Vec<usize> = Vec::new();
    let mut i: usize = 0;
    assert(ps.take(0) =~= Seq::<Placing>::empty());
    assert(placing_of(paths@, tests@, out@, depth as int) =~= Seq::<Placing>::empty());
    while i < members.len()
        invariant
            members_ok(paths@, tests@, members@, depth as int),
            members_ok(paths@, tests@, out@, depth as int),
            ps == placing_of(paths@, tests@, members@, depth as int),
            i <= members@.len(),
            placing_of(paths@, tests@, out@, depth as int) == leaves_here(ps.take(i as int)),
        decreases members@.len() - i,
    {
        let m: usize = members[i];
        let ghost next = ps.take(i + 1);
        let ghost earlier = placing_of(paths@, tests@, out@, depth as int);
        assert(next.drop_last() =~= ps.take(i as int));
        assert(next.last() == (Placing {
            segs: texts(paths@[m as int]@).skip(depth as int),
            test: tests@[m as int]@,
        }));
        if paths[m].len() - depth == 1 {
            let mut known = false;
            let mut k: usize = 0;
            while k < out.len()
                invariant
                    m < tests@.len(),
                    members_ok(paths@, tests@, out@, depth as int),
                    earlier == placing_of(paths@, tests@, out@, depth as int),
                    k <= out@.len(),
                    known == exists|j: int|
                        0 <= j < k && (#[trigger] earlier[j]).test.filter_key
                            == tests@[m as int]@.filter_key,
                decreases out@.len() - k,
            {
                assert(earlier[k as int].test == tests@[out@[k as int] as int]@);
                if tests[out[k]].filter_key == tests[m].filter_key {
                    known = true;
                }
                k += 1;
            }
            assert(known == has_key(earlier, tests@[m as int]@.filter_key));
            if !known {
                out.push(m);
                assert(placing_of(paths@, tests@, out@, depth as int) =~= earlier.push(
                    next.last(),
                ));
            }
        }
        i += 1;
    }
    assert(ps.take(i as int) =~= ps);
    out
}

fn opt_clone(o: &Option<String>) -> (r: Option<String>)
    ensures
        opt_text(r) == opt_text(*o),
{
    match o {
        Some(s) => Some(s.clone()),
        None => None,
    }
}

fn push_level(
    paths: &Vec<Vec<String>>,
    tests: &[DiscoveredTest],
    members: &Vec<usize>,
    depth: usize,
    parent: Option<usize>,
    out: &mut Vec<TreeNode>,
)
    requires
        members_ok(paths@, tests@, members@, depth as int),
    ensures
        rows(final(out)@) == rows(old(out)@) + level_rows(
            placing_of(paths@, tests@, members@, depth as int),
            depth as nat,
            opt_index(parent),
            old(out)@.len() as int,
        ),
    decreases height(placing_of(paths@, tests@, members@, depth as int)),
{
    let ghost ps = placing_of(paths@, tests@, members@, depth as int);
    let ghost start = rows(out@);
    let ghost base = out@.len() as int;
    let names = collect_folder_names(paths, tests, members, depth);
    let labels = sorted_unique(&names);
    assert(texts(labels@) == folder_labels(ps));
    let mut i: usize = 0;
    assert(start + folder_rows(ps, 0, depth as nat, opt_index(parent), base) =~= start);
    while i < labels.len()
        invariant
            members_ok(paths@, tests@, members@, depth as int),
            ps == placing_of(paths@, tests@, members@, depth as int),
            height(ps) == height(placing_of(paths@, tests@, members@, depth as int)),
            texts(labels@) == folder_labels(ps),
            start.len() == base,
            i <= labels@.len(),
            rows(out@) == start + folder_rows(
                ps,
                i as int,
                depth as nat,
                opt_index(parent),
                base,
            ),
        decreases labels@.len() - i,
    {
        let ghost earlier = folder_rows(
            ps,
            i as int,
            depth as nat,
            opt_index(parent),
            base,
        );
        proof {
            lemma_labels_lead_inside(ps, i as int);
        }
        let label = &labels[i];
        assert(label@ == folder_labels(ps)[i as int]);
        let at: usize = out.len();
        assert(rows(out@).len() == at);
        let inner = members_inside(paths, tests, members, depth, label);
        proof {
            assert(inner@.len() > 0) by {
                assert(placing_of(paths@, tests@, inner@, depth + 1).len() == inner@.len());
            }
            assert(members_ok(paths@, tests@, inner@, depth + 1));
            assert(inner@[0] < tests@.len() && paths@[inner@[0] as int]@.len() > depth + 1);
        }
        let room: usize = paths[inner[0]].len();
        out.push(
            TreeNode {
                label: label.clone(),
                fqn: None,
                is_selected: false,
                is_partial: false,
                is_expanded: false,
                depth,
                parent_idx: parent,
                is_leaf: false,
                test_count: 0,
                target_path: None,
            },
        );
        let ghost row = folder_row(label@, depth as nat, opt_index(parent));
        assert(out@.last()@ == row);
        assert(rows(out@) =~= (start + earlier).push(row));
        assert(depth + 1 <= room);
        push_level(paths, tests, &inner, depth + 1, Some(at), out);
        proof {
            let below = level_rows(
                inside(ps, label@),
                (depth + 1) as nat,
                Some(at as int),
                at + 1,
            );
            assert(rows(out@) == (start + earlier).push(row) + below);
            assert((start + earlier).push(row) + below =~= start + (earlier.push(row) + below));
        }
        i += 1;
    }
    let ghost folders = folder_rows(
        ps,
        labels@.len() as int,
        depth as nat,
        opt_index(parent),
        base,
    );
    let ending = members_ending(paths, tests, members, depth);
    let ghost ended = leaves_here(ps).map_values(
        |p: Placing| leaf_row(p, depth as nat, opt_index(parent)),
    );
    let mut j: usize = 0;
    assert(ended.take(0) =~= Seq::<NodeView>::empty());
    while j < ending.len()
        invariant
            members_ok(paths@, tests@, ending@, depth as int),
            placing_of(paths@, tests@, ending@, depth as int) == leaves_here(ps),
            ended == leaves_here(ps).map_values(
                |p: Placing| leaf_row(p, depth as nat, opt_index(parent)),
            ),
            j <= ending@.len(),
            rows(out@) == start + folders + ended.take(j as int),
        decreases ending@.len() - j,
    {
        let m: usize = ending[j];
        let ghost p = leaves_here(ps)[j as int];
        assert(p == placing_of(paths@, tests@, ending@, depth as int)[j as int]);
        assert(p.segs == texts(paths@[m as int]@).skip(depth as int));
        assert(p.segs[0] == paths@[m as int]@[depth as int]@);
        let ghost o = rows(out@);
        out.push(
            TreeNode {
                label: paths[m][depth].clone(),
                fqn: Some(tests[m].filter_key.clone()),
                is_selected: false,
                is_partial: false,
                is_expanded: true,
                depth,
                parent_idx: parent,
                is_leaf: true,
                test_count: tests[m].test_count,
                target_path: opt_clone(&tests[m].target_path),
            },
        );
        assert(out@.last()@ == ended[j as int]);
        assert(ended.take(j + 1) =~= ended.take(j as int).push(ended[j as int]));
        assert(rows(out@) =~= o.push(ended[j as int]));
        assert(rows(out@) =~= start + folders + ended.take(j + 1));
        j += 1;
    }
    assert(ended.take(j as int) =~= ended) by {
        assert(ended.len() == ending@.len());
    }
    assert(start + folders + ended =~= start + (folders + ended));
}

/// Builds the flat tree of discovered tests.
pub fn build_discovered_tree(tests: &[DiscoveredTest]) -> (r: Vec<TreeNode>)
    ensures
        rows(r@) == flat_tree(entries(tests@)),
{
    let mut paths: Vec<Vec<String>> = Vec::new();
    let mut members: Vec<usize> = Vec::new();
    let mut i: usize = 0;
    while i < tests.len()
        invariant
            i <= tests@.len(),
            paths@.len() == i,
            members@.len() == i,
            forall|k: int| 0 <= k < i ==> (#[trigger] members@[k]) == k,
            forall|k: int|
                0 <= k < i ==> texts((#[trigger] paths@[k])@) == segments(
                    tests@[k].tree_path@,
                    '.',
                ) && paths@[k]@.len() >= 1,
        decreases tests@.len() - i,
    {
        paths.push(split(tests[i].tree_path.as_str(), '.'));
        members.push(i);
        i += 1;
    }
    let mut out: Vec<TreeNode> = Vec::new();
    push_level(&paths, tests, &members, 0, None, &mut out);
    proof {
        let ps = placing_of(paths@, tests@, members@, 0);
        assert forall|k: int| 0 <= k < ps.len() implies ps[k] == placings(entries(tests@))[k] by {
            assert(members@[k] == k);
            assert(texts(paths@[k]@).skip(0) =~= texts(paths@[k]@));
        }
        assert(ps =~= placings(entries(tests@)));
        assert(rows(Seq::<TreeNode>::empty()) + level_rows(ps, 0, None, 0) =~= level_rows(
            ps,
            0,
            None,
            0,
        ));
        assert(rows(Seq::<TreeNode>::empty()) =~= Seq::<NodeView>::empty());
    }
    out
}

/// Each pair of a tree path and a filter key, as one test of no known project.
pub open spec fn pair_entries(pairs: Seq<(String, String)>) -> Seq<DiscoveredTestView> {
    pairs.map_values(
        |p: (String, String)|
            DiscoveredTestView {
                tree_path: p.0@,
                filter_key: p.1@,
                test_count: 1,
                target_path: None,
            },
    )
}

/// Builds the flat tree of `(tree path, filter key)` pairs.
pub fn build_flat_tree(tests: &[(String, String)]) -> (r: Vec<TreeNode>)
    ensures
        rows(r@) == flat_tree(pair_entries(tests@)),
{
    let mut list: Vec<DiscoveredTest> = Vec::new();
    let mut i: usize = 0;
    while i < tests.len()
        invariant
            i <= tests@.len(),
            entries(list@) == pair_entries(tests@).take(i as int),
        decreases tests@.len() - i,
    {
        let t = DiscoveredTest::new(tests[i].0.as_str(), tests[i].1.as_str(), 1);
        let ghost o = entries(list@);
        list.push(t);
        assert(entries(list@) =~= o.push(t@));
        assert(pair_entries(tests@).take(i + 1) =~= pair_entries(tests@).take(i as int).push(t@));
        i += 1;
    }
    assert(pair_entries(tests@).take(i as int) =~= pair_entries(tests@));
    build_discovered_tree(list.as_slice())
}

// ---------------------------------------------------------------------------
// Shape
// ---------------------------------------------------------------------------
/// The parent of every row stands before it.
pub open spec fn parents_precede(t: Seq<NodeView>) -> bool {
    forall|i: int|
        0 <= i < t.len() ==> match (#[trigger] t[i]).parent_idx {
            Some(p) => 0 <= p < i,
            None => true,
        }
}

/// A row without a parent is at depth 0; any other row is one deeper than its
/// parent, which is no leaf and stands before it with nothing but rows at least
/// as deep in between.
pub open spec fn row_in_order(t: Seq<NodeView>, i: int) -> bool {
    match t[i].parent_idx {
        None => t[i].depth == 0,
        Some(p) => {
            &&& 0 <= p < i
            &&& !t[p].is_leaf
            &&& t[p].depth + 1 == t[i].depth
            &&& forall|j: int| p < j < i ==> (#[trigger] t[j]).depth >= t[i].depth
        },
    }
}

/// The rows are in pre-order.
pub open spec fn pre_order(t: Seq<NodeView>) -> bool {
    forall|i: int| 0 <= i < t.len() ==> #[trigger] row_in_order(t, i)
}

spec fn row_ok(r: Seq<NodeView>, k: int, depth: nat, parent: Option<int>, base: int) -> bool {
    &&& !r[k].is_selected
    &&& !r[k].is_partial
    &&& r[k].is_expanded == r[k].is_leaf
    &&& r[k].fqn is None <==> !r[k].is_leaf
    &&& r[k].depth >= depth
    &&& r[k].depth == depth ==> r[k].parent_idx == parent
    &&& r[k].depth > depth ==> match r[k].parent_idx {
        None => false,
        Some(q) => {
            &&& base <= q < base + k
            &&& !r[q - base].is_leaf
            &&& r[q - base].depth + 1 == r[k].depth
            &&& forall|j: int| q - base < j < k ==> (#[trigger] r[j]).depth >= r[k].depth
        },
    }
}

spec fn block_ok(r: Seq<NodeView>, depth: nat, parent: Option<int>, base: int) -> bool {
    forall|k: int| 0 <= k < r.len() ==> #[trigger] row_ok(r, k, depth, parent, base)
}

proof fn lemma_level_ok(
    ps: Seq<Placing>,
    depth: nat,
    parent: Option<int>,
    base: int,
)
    ensures
        block_ok(level_rows(ps, depth, parent, base), depth, parent, base),
    decreases height(ps), folder_labels(ps).len() + 1,
{
    let n = folder_labels(ps).len() as int;
    let f = folder_rows(ps, n, depth, parent, base);
    lemma_folders_ok(ps, n, depth, parent, base);
    let r = level_rows(ps, depth, parent, base);
    assert forall|k: int| 0 <= k < r.len() implies #[trigger] row_ok(
        r,
        k,
        depth,
        parent,
        base,
    ) by {
        if k < f.len() {
            assert(row_ok(f, k, depth, parent, base));
            assert(r[k] == f[k]);
        }
    }
}

proof fn lemma_folders_ok(
    ps: Seq<Placing>,
    n: int,
    depth: nat,
    parent: Option<int>,
    base: int,
)
    ensures
        block_ok(folder_rows(ps, n, depth, parent, base), depth, parent, base),
    decreases height(ps), n,
{
    if 0 < n <= folder_labels(ps).len() {
        let earlier = folder_rows(ps, n - 1, depth, parent, base);
        let label = folder_labels(ps)[n - 1];
        let at = base + earlier.len();
        lemma_labels_lead_inside(ps, n - 1);
        lemma_folders_ok(ps, n - 1, depth, parent, base);
        lemma_level_ok(inside(ps, label), depth + 1, Some(at), at + 1);
        let below = level_rows(inside(ps, label), depth + 1, Some(at), at + 1);
        let r = folder_rows(ps, n, depth, parent, base);
        let m = earlier.len() as int;
        assert forall|k: int| 0 <= k < r.len() implies #[trigger] row_ok(
            r,
            k,
            depth,
            parent,
            base,
        ) by {
            if k < m {
                assert(row_ok(earlier, k, depth, parent, base));
                assert(r[k] == earlier[k]);
            } else if k > m {
                let b = k - m - 1;
                assert(r[k] == below[b]);
                assert(row_ok(below, b, depth + 1, Some(at), at + 1));
                assert(r[m] == folder_row(label, depth, parent));
                let q = r[k].parent_idx->0;
                assert forall|j: int| q - base < j < k implies (#[trigger] r[j]).depth
                    >= r[k].depth by {
                    assert(r[j] == below[j - m - 1]);
                    assert(row_ok(below, j - m - 1, depth + 1, Some(at), at + 1));
                }
            }
        }
    }
}

/// A freshly built tree is in pre-order; nothing in it is selected; its folders
/// are collapsed.
pub proof fn law_flat_tree_is_in_pre_order(tests: Seq<DiscoveredTestView>)
    ensures
        pre_order(flat_tree(tests)),
        parents_precede(flat_tree(tests)),
        forall|i: int|
            0 <= i < flat_tree(tests).len() ==> {
                &&& !(#[trigger] flat_tree(tests)[i]).is_selected
                &&& !flat_tree(tests)[i].is_partial
                &&& flat_tree(tests)[i].is_expanded == flat_tree(tests)[i].is_leaf
            },
{
    let t = flat_tree(tests);
    lemma_level_ok(placings(tests), 0, None, 0);
    assert forall|i: int| 0 <= i < t.len() implies row_ok(t, i, 0, None, 0) by {}
    assert forall|i: int| 0 <= i < t.len() implies #[trigger] row_in_order(t, i) by {
        assert(row_ok(t, i, 0, None, 0));
    }
    assert forall|i: int| 0 <= i < t.len() implies match (#[trigger] t[i]).parent_idx {
        Some(p) => 0 <= p < i,
        None => true,
    } by {
        assert(row_in_order(t, i));
    }
    assert forall|i: int| 0 <= i < t.len() implies {
        &&& !(#[trigger] t[i]).is_selected
        &&& !t[i].is_partial
        &&& t[i].is_expanded == t[i].is_leaf
    } by {
        assert(row_ok(t, i, 0, None, 0));
    }
}

/// Only tests have a filter key: folders and classes have none.
pub proof fn law_only_leaves_have_keys(tests: Seq<DiscoveredTestView>, i: int)
    requires
        0 <= i < flat_tree(tests).len(),
    ensures
        flat_tree(tests)[i].fqn is None <==> !flat_tree(tests)[i].is_leaf,
{
    lemma_level_ok(placings(tests), 0, None, 0);
    assert(row_ok(flat_tree(tests), i, 0, None, 0));
}

/// The labels of a row and of those that it lies below, from the top.
pub open spec fn row_labels(t: Seq<NodeView>, i: int) -> Seq<Seq<char>>
    decreases i,
{
    match t[i].parent_idx {
        Some(p) => if 0 <= p < i {
            row_labels(t, p).push(t[i].label)
        } else {
            seq![t[i].label]
        },
        None => seq![t[i].label],
    }
}

/// The labels of the rows that a row lies below, from the top.
pub open spec fn labels_above(t: Seq<NodeView>, i: int) -> Seq<Seq<char>> {
    row_labels(t, i).drop_last()
}

/// The dotted path of a row, by which a folder is found again in another tree.
pub open spec fn row_path(t: Seq<NodeView>, i: int) -> Seq<char> {
    joined(row_labels(t, i), "."@)
}

/// The dotted path of every row.
pub fn row_paths(tree: &[TreeNode]) -> (r: Vec<String>)
    ensures
        r@.len() == tree@.len(),
        forall|i: int| 0 <= i < tree@.len() ==> (#[trigger] r@[i])@ == row_path(rows(tree@), i),
{
    let ghost t = rows(tree@);
    let mut out: Vec<String> = Vec::new();
    let mut i: usize = 0;
    while i < tree.len()
        invariant
            t == rows(tree@),
            i <= tree@.len(),
            out@.len() == i,
            forall|j: int| 0 <= j < i ==> (#[trigger] out@[j])@ == row_path(t, j),
        decreases tree@.len() - i,
    {
        let node = &tree[i];
        assert(t[i as int] == node@);
        let path = match node.parent_idx {
            Some(p) => if p < i {
                assert(out@[p as int]@ == row_path(t, p as int));
                proof {
                    let all = row_labels(t, i as int);
                    assert(all.drop_last() =~= row_labels(t, p as int));
                    assert(row_labels(t, p as int).len() > 0);
                }
                concat(concat(out[p].as_str(), ".").as_str(), node.label.as_str())
            } else {
                node.label.clone()
            },
            None => node.label.clone(),
        };
        assert(path@ =~= row_path(t, i as int));
        out.push(path);
        i += 1;
    }
    out
}

/// The rows `r` stand in `t` from `base` on, below the row `parent` whose labels
/// are `above`.
spec fn stands_at(
    t: Seq<NodeView>,
    r: Seq<NodeView>,
    base: int,
    parent: Option<int>,
    above: Seq<Seq<char>>,
) -> bool {
    &&& 0 <= base
    &&& base + r.len() <= t.len()
    &&& forall|k: int| 0 <= k < r.len() ==> t[base + k] == #[trigger] r[k]
    &&& match parent {
        None => above.len() == 0,
        Some(q) => 0 <= q < base && row_labels(t, q) == above,
    }
}

/// Row `k` is the leaf of a test with this key, below rows with these labels.
spec fn placed_at(t: Seq<NodeView>, k: int, p: Placing, above: Seq<Seq<char>>) -> bool {
    &&& 0 <= k < t.len()
    &&& t[k].is_leaf
    &&& t[k].fqn == Some(p.test.filter_key)
    &&& labels_above(t, k) == above + p.segs.drop_last()
}

proof fn lemma_leaf_kept(ps: Seq<Placing>, i: int) -> (k: int)
    requires
        0 <= i < ps.len(),
        ps[i].segs.len() == 1,
    ensures
        0 <= k < leaves_here(ps).len(),
        leaves_here(ps)[k].test.filter_key == ps[i].test.filter_key,
    decreases ps.len(),
{
    let earlier = leaves_here(ps.drop_last());
    if i < ps.len() - 1 {
        lemma_leaf_kept(ps.drop_last(), i)
    } else if has_key(earlier, ps[i].test.filter_key) {
        choose|k: int|
            0 <= k < earlier.len() && (#[trigger] earlier[k]).test.filter_key
                == ps[i].test.filter_key
    } else {
        earlier.len() as int
    }
}

proof fn lemma_inside_has(ps: Seq<Placing>, i: int) -> (k: int)
    requires
        0 <= i < ps.len(),
        ps[i].segs.len() >= 2,
    ensures
        folder_names(ps).contains(ps[i].segs[0]),
        0 <= k < inside(ps, ps[i].segs[0]).len(),
        inside(ps, ps[i].segs[0])[k] == (Placing {
            segs: ps[i].segs.drop_first(),
            test: ps[i].test,
        }),
    decreases ps.len(),
{
    let label = ps[i].segs[0];
    let k = if i < ps.len() - 1 {
        lemma_inside_has(ps.drop_last(), i)
    } else {
        inside(ps.drop_last(), label).len() as int
    };
    lemma_inside_is_lower(ps, label);
    k
}

proof fn lemma_folder_block(
    ps: Seq<Placing>,
    f: int,
    n: int,
    depth: nat,
    parent: Option<int>,
    base: int,
) -> (at: int)
    requires
        0 <= f < n <= folder_labels(ps).len(),
    ensures
        ({
            let label = folder_labels(ps)[f];
            let below = level_rows(inside(ps, label), depth + 1, Some(at), at + 1);
            let r = folder_rows(ps, n, depth, parent, base);
            &&& base <= at
            &&& at - base + 1 + below.len() <= r.len()
            &&& r[at - base] == folder_row(label, depth, parent)
            &&& forall|k: int| 0 <= k < below.len() ==> r[at - base + 1 + k] == #[trigger] below[k]
        }),
    decreases n,
{
    let earlier = folder_rows(ps, n - 1, depth, parent, base);
    let r = folder_rows(ps, n, depth, parent, base);
    if f == n - 1 {
        base + earlier.len()
    } else {
        let at = lemma_folder_block(ps, f, n - 1, depth, parent, base);
        assert forall|k: int| 0 <= k < earlier.len() implies r[k] == earlier[k] by {}
        at
    }
}

proof fn lemma_labels_below(t: Seq<NodeView>, k: int, parent: Option<int>, above: Seq<Seq<char>>)
    requires
        t[k].parent_idx == parent,
        match parent {
            None => above.len() == 0,
            Some(q) => 0 <= q < k && row_labels(t, q) == above,
        },
    ensures
        row_labels(t, k) == above.push(t[k].label),
        labels_above(t, k) == above,
{
    assert(row_labels(t, k) =~= above.push(t[k].label));
    assert(labels_above(t, k) =~= above);
}

proof fn lemma_placed(
    t: Seq<NodeView>,
    ps: Seq<Placing>,
    i: int,
    depth: nat,
    parent: Option<int>,
    above: Seq<Seq<char>>,
    base: int,
) -> (k: int)
    requires
        0 <= i < ps.len(),
        ps[i].segs.len() >= 1,
        stands_at(t, level_rows(ps, depth, parent, base), base, parent, above),
    ensures
        placed_at(t, k, ps[i], above),
    decreases ps[i].segs.len(),
{
    let r = level_rows(ps, depth, parent, base);
    let n = folder_labels(ps).len() as int;
    let fr = folder_rows(ps, n, depth, parent, base);
    if ps[i].segs.len() == 1 {
        let l = lemma_leaf_kept(ps, i);
        let k = base + fr.len() + l;
        assert(t[k] == r[fr.len() + l]);
        lemma_labels_below(t, k, parent, above);
        assert(above + ps[i].segs.drop_last() =~= above);
        k
    } else {
        let label = ps[i].segs[0];
        let m = lemma_inside_has(ps, i);
        lemma_ascending_list(folder_names(ps));
        assert(folder_labels(ps).contains(label));
        let f = choose|f: int| 0 <= f < n && folder_labels(ps)[f] == label;
        let at = lemma_folder_block(ps, f, n, depth, parent, base);
        let inner = inside(ps, label);
        let below = level_rows(inner, depth + 1, Some(at), at + 1);
        assert(t[at] == r[at - base]);
        assert(r[at - base] == folder_row(label, depth, parent));
        lemma_labels_below(t, at, parent, above);
        assert forall|b: int| 0 <= b < below.len() implies t[at + 1 + b] == #[trigger] below[b] by {
            assert(fr[at - base + 1 + b] == below[b]);
            assert(t[base + (at - base + 1 + b)] == r[at - base + 1 + b]);
        }
        let k = lemma_placed(t, inner, m, depth + 1, Some(at), above.push(label), at + 1);
        let up = ps[i].segs.drop_last();
        assert(above.push(label) + inner[m].segs.drop_last() =~= above + up);
        k
    }
}

/// Row `k` is a leaf with the filter key of `test`, in the folder that the path
/// of the test names, or at the top where it names none.
pub open spec fn is_leaf_for(t: Seq<NodeView>, k: int, test: DiscoveredTestView) -> bool {
    &&& 0 <= k < t.len()
    &&& t[k].is_leaf
    &&& t[k].fqn == Some(test.filter_key)
    &&& labels_above(t, k) == segments(test.tree_path, '.').drop_last()
}

/// Every test has a leaf with its filter key, in the folder that its path names.
pub proof fn law_every_test_has_a_leaf(tests: Seq<DiscoveredTestView>, i: int)
    requires
        0 <= i < tests.len(),
    ensures
        exists|k: int| is_leaf_for(flat_tree(tests), k, tests[i]),
{
    let ps = placings(tests);
    lemma_segments_nonempty(tests[i].tree_path, '.');
    let t = flat_tree(tests);
    let k = lemma_placed(t, ps, i, 0, None, Seq::empty(), 0);
    let segs = segments(tests[i].tree_path, '.');
    assert(Seq::<Seq<char>>::empty() + segs.drop_last() =~= segs.drop_last());
    assert(is_leaf_for(t, k, tests[i]));
}

proof fn lemma_segments_nonempty(s: Seq<char>, c: char)
    ensures
        segments(s, c).len() >= 1,
{
}

spec fn from_some(ps: Seq<Placing>, row: NodeView) -> bool {
    row.is_leaf ==> exists|i: int|
        {
            &&& 0 <= i < ps.len()
            &&& row.fqn == Some((#[trigger] ps[i]).test.filter_key)
            &&& row.test_count == ps[i].test.test_count
            &&& row.target_path == ps[i].test.target_path
            &&& ps[i].segs.len() >= 1
            &&& row.label == ps[i].segs.last()
        }
}

proof fn lemma_leaf_from(ps: Seq<Placing>, k: int) -> (i: int)
    requires
        0 <= k < leaves_here(ps).len(),
    ensures
        0 <= i < ps.len(),
        ps[i] == leaves_here(ps)[k],
        ps[i].segs.len() == 1,
    decreases ps.len(),
{
    let earlier = leaves_here(ps.drop_last());
    if k < earlier.len() {
        lemma_leaf_from(ps.drop_last(), k)
    } else {
        ps.len() - 1
    }
}

proof fn lemma_inside_from(ps: Seq<Placing>, label: Seq<char>, k: int) -> (i: int)
    requires
        0 <= k < inside(ps, label).len(),
    ensures
        0 <= i < ps.len(),
        ps[i].segs.len() >= 2,
        ps[i].segs[0] == label,
        inside(ps, label)[k] == (Placing { segs: ps[i].segs.drop_first(), test: ps[i].test }),
    decreases ps.len(),
{
    let earlier = inside(ps.drop_last(), label);
    if k < earlier.len() {
        lemma_inside_from(ps.drop_last(), label, k)
    } else {
        ps.len() - 1
    }
}

proof fn lemma_level_from(
    ps: Seq<Placing>,
    depth: nat,
    parent: Option<int>,
    base: int,
)
    ensures
        forall|k: int|
            0 <= k < level_rows(ps, depth, parent, base).len() ==> from_some(
                ps,
                #[trigger] level_rows(ps, depth, parent, base)[k],
            ),
    decreases height(ps), folder_labels(ps).len() + 1,
{
    let n = folder_labels(ps).len() as int;
    let r = level_rows(ps, depth, parent, base);
    let f = folder_rows(ps, n, depth, parent, base);
    lemma_folders_from(ps, n, depth, parent, base);
    assert forall|k: int| 0 <= k < r.len() implies from_some(ps, #[trigger] r[k]) by {
        if k < f.len() {
            assert(r[k] == f[k]);
        } else {
            let i = lemma_leaf_from(ps, k - f.len());
            assert(ps[i].segs.last() == ps[i].segs[0]);
        }
    }
}

proof fn lemma_folders_from(
    ps: Seq<Placing>,
    n: int,
    depth: nat,
    parent: Option<int>,
    base: int,
)
    ensures
        forall|k: int|
            0 <= k < folder_rows(ps, n, depth, parent, base).len() ==> from_some(
                ps,
                #[trigger] folder_rows(ps, n, depth, parent, base)[k],
            ),
    decreases height(ps), n,
{
    if 0 < n <= folder_labels(ps).len() {
        let earlier = folder_rows(ps, n - 1, depth, parent, base);
        let label = folder_labels(ps)[n - 1];
        let at = base + earlier.len();
        lemma_labels_lead_inside(ps, n - 1);
        lemma_folders_from(ps, n - 1, depth, parent, base);
        let inner = inside(ps, label);
        lemma_level_from(inner, depth + 1, Some(at), at + 1);
        let below = level_rows(inner, depth + 1, Some(at), at + 1);
        let r = folder_rows(ps, n, depth, parent, base);
        let m = earlier.len() as int;
        assert forall|k: int| 0 <= k < r.len() implies from_some(ps, #[trigger] r[k]) by {
            if k < m {
                assert(r[k] == earlier[k]);
            } else if k > m && r[k].is_leaf {
                assert(r[k] == below[k - m - 1]);
                assert(from_some(inner, below[k - m - 1]));
                let j = choose|j: int|
                    {
                        &&& 0 <= j < inner.len()
                        &&& r[k].fqn == Some((#[trigger] inner[j]).test.filter_key)
                        &&& r[k].test_count == inner[j].test.test_count
                        &&& r[k].target_path == inner[j].test.target_path
                        &&& inner[j].segs.len() >= 1
                        &&& r[k].label == inner[j].segs.last()
                    };
                let i = lemma_inside_from(ps, label, j);
                assert(ps[i].segs.drop_first().last() == ps[i].segs.last());
            }
        }
    }
}

/// Every leaf is one of the tests: it has its filter key, its count, its
/// project, and the last segment of its path as label.
pub proof fn law_every_leaf_is_a_test(tests: Seq<DiscoveredTestView>, k: int)
    requires
        0 <= k < flat_tree(tests).len(),
        flat_tree(tests)[k].is_leaf,
    ensures
        exists|i: int|
            {
                &&& 0 <= i < tests.len()
                &&& flat_tree(tests)[k].fqn == Some((#[trigger] tests[i]).filter_key)
                &&& flat_tree(tests)[k].test_count == tests[i].test_count
                &&& flat_tree(tests)[k].target_path == tests[i].target_path
                &&& flat_tree(tests)[k].label == segments(tests[i].tree_path, '.').last()
            },
{
    let ps = placings(tests);
    lemma_level_from(ps, 0, None, 0);
    let row = flat_tree(tests)[k];
    assert(from_some(ps, row));
    let i = choose|i: int|
        {
            &&& 0 <= i < ps.len()
            &&& row.fqn == Some((#[trigger] ps[i]).test.filter_key)
            &&& row.test_count == ps[i].test.test_count
            &&& row.target_path == ps[i].test.target_path
            &&& ps[i].segs.len() >= 1
            &&& row.label == ps[i].segs.last()
        };
    assert(ps[i].test == tests[i]);
}

// ---------------------------------------------------------------------------
// Tests that occur already
// ---------------------------------------------------------------------------
/// One of the tests has this path and this filter key.
pub open spec fn has_test(tests: Seq<DiscoveredTestView>, test: DiscoveredTestView) -> bool {
    exists|i: int|
        0 <= i < tests.len() && (#[trigger] tests[i]).tree_path == test.tree_path
            && tests[i].filter_key == test.filter_key
}

spec fn has_place(ps: Seq<Placing>, p: Placing) -> bool {
    exists|i: int|
        0 <= i < ps.len() && (#[trigger] ps[i]).segs == p.segs && ps[i].test.filter_key
            == p.test.filter_key
}

/// All of `more` are to be placed where one of `ps` is.
spec fn all_have_places(ps: Seq<Placing>, more: Seq<Placing>) -> bool {
    forall|j: int| 0 <= j < more.len() ==> has_place(ps, #[trigger] more[j])
}

proof fn lemma_names_added(ps: Seq<Placing>, more: Seq<Placing>)
    requires
        all_have_places(ps, more),
    ensures
        folder_labels(ps + more) == folder_labels(ps),
{
    let all = ps + more;
    assert forall|label: Seq<char>| folder_names(all).contains(label) <==> folder_names(
        ps,
    ).contains(label) by {
        lemma_inside_is_lower(all, label);
        lemma_inside_is_lower(ps, label);
        lemma_inside_added(ps, more, label);
        if inside(more, label).len() > 0 {
            assert(has_place(inside(ps, label), inside(more, label)[0]));
        }
    }
    lemma_ascending_list(folder_names(all));
    lemma_ascending_list(folder_names(ps));
    law_ascending_unique(folder_labels(all), folder_labels(ps));
}

proof fn lemma_inside_split(ps: Seq<Placing>, more: Seq<Placing>, label: Seq<char>)
    ensures
        inside(ps + more, label) == inside(ps, label) + inside(more, label),
    decreases more.len(),
{
    if more.len() == 0 {
        assert(ps + more =~= ps);
        assert(inside(ps, label) + inside(more, label) =~= inside(ps, label));
    } else {
        lemma_inside_split(ps, more.drop_last(), label);
        assert((ps + more).drop_last() =~= ps + more.drop_last());
        assert(inside(ps + more, label) =~= inside(ps, label) + inside(more, label));
    }
}

proof fn lemma_inside_added(ps: Seq<Placing>, more: Seq<Placing>, label: Seq<char>)
    requires
        all_have_places(ps, more),
    ensures
        inside(ps + more, label) == inside(ps, label) + inside(more, label),
        all_have_places(inside(ps, label), inside(more, label)),
{
    lemma_inside_split(ps, more, label);
    let below = inside(ps, label);
    let added = inside(more, label);
    assert forall|k: int| 0 <= k < added.len() implies has_place(below, #[trigger] added[k]) by {
        let j = lemma_inside_from(more, label, k);
        assert(has_place(ps, more[j]));
        let i = choose|i: int|
            0 <= i < ps.len() && (#[trigger] ps[i]).segs == more[j].segs && ps[i].test.filter_key
                == more[j].test.filter_key;
        let b = lemma_inside_has(ps, i);
        assert(below[b].segs == added[k].segs);
    }
}

proof fn lemma_leaves_added(ps: Seq<Placing>, more: Seq<Placing>)
    requires
        all_have_places(ps, more),
    ensures
        leaves_here(ps + more) == leaves_here(ps),
    decreases more.len(),
{
    if more.len() == 0 {
        assert(ps + more =~= ps);
    } else {
        let fewer = more.drop_last();
        assert forall|j: int| 0 <= j < fewer.len() implies has_place(ps, #[trigger] fewer[j]) by {
            assert(has_place(ps, more[j]));
        }
        lemma_leaves_added(ps, fewer);
        assert((ps + more).drop_last() =~= ps + fewer);
        let p = more.last();
        assert(has_place(ps, more[more.len() - 1]));
        let i = choose|i: int|
            0 <= i < ps.len() && (#[trigger] ps[i]).segs == p.segs && ps[i].test.filter_key
                == p.test.filter_key;
        if p.segs.len() == 1 {
            let k = lemma_leaf_kept(ps, i);
            assert(leaves_here(ps)[k].test.filter_key == p.test.filter_key);
            assert(has_key(leaves_here(ps), p.test.filter_key));
        }
    }
}

proof fn lemma_level_added(
    ps: Seq<Placing>,
    more: Seq<Placing>,
    depth: nat,
    parent: Option<int>,
    base: int,
)
    requires
        all_have_places(ps, more),
    ensures
        level_rows(ps + more, depth, parent, base) == level_rows(ps, depth, parent, base),
    decreases height(ps), folder_labels(ps).len() + 1,
{
    lemma_names_added(ps, more);
    lemma_leaves_added(ps, more);
    lemma_folders_added(ps, more, folder_labels(ps).len() as int, depth, parent, base);
}

proof fn lemma_folders_added(
    ps: Seq<Placing>,
    more: Seq<Placing>,
    n: int,
    depth: nat,
    parent: Option<int>,
    base: int,
)
    requires
        all_have_places(ps, more),
    ensures
        folder_rows(ps + more, n, depth, parent, base) == folder_rows(ps, n, depth, parent, base),
    decreases height(ps), n,
{
    lemma_names_added(ps, more);
    if 0 < n <= folder_labels(ps).len() {
        let label = folder_labels(ps)[n - 1];
        lemma_labels_lead_inside(ps, n - 1);
        lemma_folders_added(ps, more, n - 1, depth, parent, base);
        lemma_inside_added(ps, more, label);
        let at = base + folder_rows(ps, n - 1, depth, parent, base).len();
        lemma_level_added(inside(ps, label), inside(more, label), depth + 1, Some(at), at + 1);
    }
}

/// Tests that occur already, such as the cases of one method, leave the tree as
/// it is.
pub proof fn law_repeated_tests_change_nothing(
    tests: Seq<DiscoveredTestView>,
    extra: Seq<DiscoveredTestView>,
)
    requires
        forall|j: int| 0 <= j < extra.len() ==> has_test(tests, #[trigger] extra[j]),
    ensures
        flat_tree(tests + extra) == flat_tree(tests),
{
    let ps = placings(tests);
    let more = placings(extra);
    assert(placings(tests + extra) =~= ps + more);
    assert forall|j: int| 0 <= j < more.len() implies has_place(ps, #[trigger] more[j]) by {
        assert(has_test(tests, extra[j]));
        let i = choose|i: int|
            0 <= i < tests.len() && (#[trigger] tests[i]).tree_path == extra[j].tree_path
                && tests[i].filter_key == extra[j].filter_key;
        assert(ps[i].segs == more[j].segs);
    }
    lemma_level_added(ps, more, 0, None, 0);
}

// ---------------------------------------------------------------------------
// Siblings
// ---------------------------------------------------------------------------
/// The order of two rows below the same row: folders before tests, folders by
/// their labels, and no two tests with the same key.
pub open spec fn in_sibling_order(first: NodeView, second: NodeView) -> bool {
    if first.is_leaf {
        second.is_leaf && first.fqn != second.fqn
    } else {
        second.is_leaf || before(first.label, second.label)
    }
}

spec fn siblings_ok(r: Seq<NodeView>) -> bool {
    forall|a: int, b: int|
        0 <= a < b < r.len() && (#[trigger] r[a]).parent_idx == (#[trigger] r[b]).parent_idx
            ==> in_sibling_order(r[a], r[b])
}

spec fn is_before_base(parent: Option<int>, base: int) -> bool {
    parent matches Some(q) ==> q < base
}

proof fn lemma_leaves_have_own_keys(ps: Seq<Placing>)
    ensures
        forall|a: int, b: int|
            0 <= a < b < leaves_here(ps).len() ==> (#[trigger] leaves_here(
                ps,
            )[a]).test.filter_key != (#[trigger] leaves_here(ps)[b]).test.filter_key,
    decreases ps.len(),
{
    if ps.len() > 0 {
        lemma_leaves_have_own_keys(ps.drop_last());
    }
}

proof fn lemma_level_siblings(ps: Seq<Placing>, depth: nat, parent: Option<int>, base: int)
    requires
        is_before_base(parent, base),
    ensures
        siblings_ok(level_rows(ps, depth, parent, base)),
    decreases height(ps), folder_labels(ps).len() + 1,
{
    let n = folder_labels(ps).len() as int;
    let f = folder_rows(ps, n, depth, parent, base);
    let leaves = leaves_here(ps);
    let r = level_rows(ps, depth, parent, base);
    lemma_folder_siblings(ps, n, depth, parent, base);
    lemma_folders_ok(ps, n, depth, parent, base);
    lemma_leaves_have_own_keys(ps);
    assert forall|a: int, b: int|
        0 <= a < b < r.len() && (#[trigger] r[a]).parent_idx == (
        #[trigger] r[b]).parent_idx implies in_sibling_order(r[a], r[b]) by {
        if b < f.len() {
            assert(r[a] == f[a] && r[b] == f[b]);
        } else if a < f.len() {
            assert(r[a] == f[a]);
            assert(row_ok(f, a, depth, parent, base));
            assert(r[b].parent_idx == parent);
            assert(f[a].depth == depth);
        } else {
            let x = leaves[a - f.len()];
            let y = leaves[b - f.len()];
            assert(r[a] == leaf_row(x, depth, parent));
            assert(r[b] == leaf_row(y, depth, parent));
            assert(x.test.filter_key != y.test.filter_key);
        }
    }
}

proof fn lemma_folder_siblings(
    ps: Seq<Placing>,
    n: int,
    depth: nat,
    parent: Option<int>,
    base: int,
)
    requires
        is_before_base(parent, base),
    ensures
        siblings_ok(folder_rows(ps, n, depth, parent, base)),
        forall|k: int|
            0 <= k < folder_rows(ps, n, depth, parent, base).len() && (#[trigger] folder_rows(
                ps,
                n,
                depth,
                parent,
                base,
            )[k]).depth == depth ==> {
                let row = folder_rows(ps, n, depth, parent, base)[k];
                &&& !row.is_leaf
                &&& exists|l: int| 0 <= l < n && #[trigger] folder_labels(ps)[l] == row.label
            },
    decreases height(ps), n,
{
    if 0 < n <= folder_labels(ps).len() {
        let earlier = folder_rows(ps, n - 1, depth, parent, base);
        let label = folder_labels(ps)[n - 1];
        let at = base + earlier.len();
        let m = earlier.len() as int;
        lemma_labels_lead_inside(ps, n - 1);
        lemma_folder_siblings(ps, n - 1, depth, parent, base);
        lemma_folders_ok(ps, n - 1, depth, parent, base);
        lemma_level_siblings(inside(ps, label), depth + 1, Some(at), at + 1);
        lemma_level_ok(inside(ps, label), depth + 1, Some(at), at + 1);
        lemma_ascending_list(folder_names(ps));
        let below = level_rows(inside(ps, label), depth + 1, Some(at), at + 1);
        let r = folder_rows(ps, n, depth, parent, base);
        assert forall|k: int| 0 <= k < r.len() && (#[trigger] r[k]).depth == depth implies
            !r[k].is_leaf && exists|l: int|
            0 <= l < n && #[trigger] folder_labels(ps)[l] == r[k].label by {
            if k < m {
                assert(r[k] == earlier[k]);
                let l = choose|l: int|
                    0 <= l < n - 1 && #[trigger] folder_labels(ps)[l] == earlier[k].label;
                assert(folder_labels(ps)[l] == r[k].label);
            } else if k > m {
                assert(r[k] == below[k - m - 1]);
                assert(row_ok(below, k - m - 1, depth + 1, Some(at), at + 1));
            } else {
                assert(folder_labels(ps)[n - 1] == r[k].label);
            }
        }
        assert forall|a: int, b: int|
            0 <= a < b < r.len() && (#[trigger] r[a]).parent_idx == (
            #[trigger] r[b]).parent_idx implies in_sibling_order(r[a], r[b]) by {
            if b < m {
                assert(r[a] == earlier[a] && r[b] == earlier[b]);
            } else if a > m {
                assert(r[a] == below[a - m - 1] && r[b] == below[b - m - 1]);
            } else if b == m {
                assert(r[a] == earlier[a]);
                assert(row_ok(earlier, a, depth, parent, base));
                assert(earlier[a].depth == depth);
                let l = choose|l: int|
                    0 <= l < n - 1 && #[trigger] folder_labels(ps)[l] == earlier[a].label;
                assert(before(folder_labels(ps)[l], folder_labels(ps)[n - 1]));
            } else {
                assert(r[b] == below[b - m - 1]);
                assert(row_ok(below, b - m - 1, depth + 1, Some(at), at + 1));
                assert(r[b].parent_idx->0 >= at);
                if a < m {
                    assert(r[a] == earlier[a]);
                    assert(row_ok(earlier, a, depth, parent, base));
                }
                assert(false);
            }
        }
    }
}

/// Below each row, and at the top, folders come before tests, folders are in the
/// order of their labels and each label is there once, and no key is there
/// twice.
pub proof fn law_siblings_are_in_order(tests: Seq<DiscoveredTestView>, a: int, b: int)
    requires
        0 <= a < b < flat_tree(tests).len(),
        flat_tree(tests)[a].parent_idx == flat_tree(tests)[b].parent_idx,
    ensures
        in_sibling_order(flat_tree(tests)[a], flat_tree(tests)[b]),
        !flat_tree(tests)[a].is_leaf && !flat_tree(tests)[b].is_leaf ==> flat_tree(tests)[a].label
            != flat_tree(tests)[b].label,
{
    lemma_level_siblings(placings(tests), 0, None, 0);
    lemma_before_irreflexive(flat_tree(tests)[a].label);
}

proof fn lemma_leaf_home(
    t: Seq<NodeView>,
    ps: Seq<Placing>,
    depth: nat,
    parent: Option<int>,
    above: Seq<Seq<char>>,
    base: int,
    k: int,
) -> (i: int)
    requires
        stands_at(t, level_rows(ps, depth, parent, base), base, parent, above),
        0 <= k < level_rows(ps, depth, parent, base).len(),
        level_rows(ps, depth, parent, base)[k].is_leaf,
    ensures
        0 <= i < ps.len(),
        is_home(t, base + k, ps[i], above),
    decreases height(ps), folder_labels(ps).len() + 1,
{
    let n = folder_labels(ps).len() as int;
    let f = folder_rows(ps, n, depth, parent, base);
    let r = level_rows(ps, depth, parent, base);
    if k < f.len() {
        assert(r[k] == f[k]);
        assert forall|j: int| 0 <= j < f.len() implies t[base + j] == #[trigger] f[j] by {
            assert(r[j] == f[j]);
            assert(t[base + j] == r[j]);
        }
        lemma_leaf_home_in_folders(t, ps, n, depth, parent, above, base, k)
    } else {
        let i = lemma_leaf_from(ps, k - f.len());
        assert(t[base + k] == r[k]);
        lemma_labels_below(t, base + k, parent, above);
        assert(above + ps[i].segs.drop_last() =~= above);
        assert(ps[i].segs.last() == ps[i].segs[0]);
        i
    }
}

/// Row `k` is the leaf of this test, below rows with these labels.
spec fn is_home(t: Seq<NodeView>, k: int, p: Placing, above: Seq<Seq<char>>) -> bool {
    &&& placed_at(t, k, p, above)
    &&& p.segs.len() >= 1
    &&& t[k].label == p.segs.last()
    &&& t[k].test_count == p.test.test_count
    &&& t[k].target_path == p.test.target_path
}

proof fn lemma_leaf_home_in_folders(
    t: Seq<NodeView>,
    ps: Seq<Placing>,
    n: int,
    depth: nat,
    parent: Option<int>,
    above: Seq<Seq<char>>,
    base: int,
    k: int,
) -> (i: int)
    requires
        n <= folder_labels(ps).len(),
        stands_at(t, folder_rows(ps, n, depth, parent, base), base, parent, above),
        0 <= k < folder_rows(ps, n, depth, parent, base).len(),
        folder_rows(ps, n, depth, parent, base)[k].is_leaf,
    ensures
        0 <= i < ps.len(),
        is_home(t, base + k, ps[i], above),
    decreases height(ps), n,
{
    let earlier = folder_rows(ps, n - 1, depth, parent, base);
    let label = folder_labels(ps)[n - 1];
    let at = base + earlier.len();
    let m = earlier.len() as int;
    let inner = inside(ps, label);
    let below = level_rows(inner, depth + 1, Some(at), at + 1);
    let r = folder_rows(ps, n, depth, parent, base);
    lemma_labels_lead_inside(ps, n - 1);
    if k < m {
        assert(r[k] == earlier[k]);
        assert forall|j: int| 0 <= j < m implies t[base + j] == #[trigger] earlier[j] by {
            assert(r[j] == earlier[j]);
            assert(t[base + j] == r[j]);
        }
        lemma_leaf_home_in_folders(t, ps, n - 1, depth, parent, above, base, k)
    } else {
        assert(r[m] == folder_row(label, depth, parent));
        assert(t[base + m] == r[m]);
        lemma_labels_below(t, at, parent, above);
        assert(r[k] == below[k - m - 1]);
        assert forall|j: int| 0 <= j < below.len() implies t[at + 1 + j] == #[trigger] below[j] by {
            assert(r[m + 1 + j] == below[j]);
            assert(t[base + (m + 1 + j)] == r[m + 1 + j]);
        }
        let j = lemma_leaf_home(
            t,
            inner,
            depth + 1,
            Some(at),
            above.push(label),
            at + 1,
            k - m - 1,
        );
        let i = lemma_inside_from(ps, label, j);
        let segs = ps[i].segs;
        assert(above.push(label) + inner[j].segs.drop_last() =~= above + segs.drop_last());
        assert(segs.drop_first().last() == segs.last());
        i
    }
}

/// Every leaf stands where the path of its test says: its label is the last
/// part of the path, and the labels above it are the other parts, from the top.
pub proof fn law_every_leaf_stands_on_its_path(tests: Seq<DiscoveredTestView>, k: int) -> (i: int)
    requires
        0 <= k < flat_tree(tests).len(),
        flat_tree(tests)[k].is_leaf,
    ensures
        0 <= i < tests.len(),
        is_leaf_for(flat_tree(tests), k, tests[i]),
        row_path(flat_tree(tests), k) == tests[i].tree_path,
        flat_tree(tests)[k].test_count == tests[i].test_count,
        flat_tree(tests)[k].target_path == tests[i].target_path,
{
    let ps = placings(tests);
    let t = flat_tree(tests);
    let i = lemma_leaf_home(t, ps, 0, None, Seq::empty(), 0, k);
    let segs = segments(tests[i].tree_path, '.');
    assert(Seq::<Seq<char>>::empty() + segs.drop_last() =~= segs.drop_last());
    assert(row_labels(t, k) =~= segs) by {
        law_flat_tree_is_in_pre_order(tests);
        assert(row_in_order(t, k));
        assert(labels_above(t, k) == segs.drop_last());
        assert(segs.drop_last().push(segs.last()) =~= segs);
    }
    reveal_strlit(".");
    assert("."@ =~= seq!['.']);
    law_joining_undoes_splitting(tests[i].tree_path, '.');
    i
}

proof fn lemma_level_is_filled(ps: Seq<Placing>, depth: nat, parent: Option<int>, base: int)
    requires
        ps.len() > 0,
        forall|i: int| 0 <= i < ps.len() ==> (#[trigger] ps[i]).segs.len() >= 1,
    ensures
        level_rows(ps, depth, parent, base).len() > 0,
        level_rows(ps, depth, parent, base)[0].parent_idx == parent,
{
    let n = folder_labels(ps).len() as int;
    let r = level_rows(ps, depth, parent, base);
    let f = folder_rows(ps, n, depth, parent, base);
    assert(ps[0].segs.len() >= 1);
    lemma_ascending_list(folder_names(ps));
    if n > 0 {
        let at = lemma_folder_block(ps, 0, n, depth, parent, base);
        assert(f.len() > 0);
        lemma_first_folder_row(ps, n, depth, parent, base);
        assert(r[0] == f[0]);
    } else {
        if ps[0].segs.len() >= 2 {
            let k = lemma_inside_has(ps, 0);
            assert(folder_labels(ps).contains(ps[0].segs[0]));
        }
        let k = lemma_leaf_kept(ps, 0);
        assert(f.len() == 0);
        assert(r[0] == leaf_row(leaves_here(ps)[0], depth, parent));
    }
}

proof fn lemma_first_folder_row(
    ps: Seq<Placing>,
    n: int,
    depth: nat,
    parent: Option<int>,
    base: int,
)
    requires
        0 < n <= folder_labels(ps).len(),
    ensures
        folder_rows(ps, n, depth, parent, base).len() > 0,
        folder_rows(ps, n, depth, parent, base)[0].parent_idx == parent,
    decreases n,
{
    if n > 1 {
        lemma_first_folder_row(ps, n - 1, depth, parent, base);
    } else {
        assert(folder_rows(ps, 0, depth, parent, base).len() == 0);
    }
}

spec fn is_filled(r: Seq<NodeView>, k: int, base: int) -> bool {
    !r[k].is_leaf ==> k + 1 < r.len() && r[k + 1].parent_idx == Some(base + k)
}

spec fn folders_are_filled(r: Seq<NodeView>, base: int) -> bool {
    forall|k: int| 0 <= k < r.len() ==> #[trigger] is_filled(r, k, base)
}

proof fn lemma_level_folders_filled(ps: Seq<Placing>, depth: nat, parent: Option<int>, base: int)
    requires
        forall|i: int| 0 <= i < ps.len() ==> (#[trigger] ps[i]).segs.len() >= 1,
    ensures
        folders_are_filled(level_rows(ps, depth, parent, base), base),
    decreases height(ps), folder_labels(ps).len() + 1,
{
    let n = folder_labels(ps).len() as int;
    let f = folder_rows(ps, n, depth, parent, base);
    let r = level_rows(ps, depth, parent, base);
    lemma_folders_filled(ps, n, depth, parent, base);
    assert forall|k: int| 0 <= k < r.len() implies #[trigger] is_filled(r, k, base) by {
        if k < f.len() {
            assert(is_filled(f, k, base));
            assert(r[k] == f[k]);
            if !f[k].is_leaf {
                assert(r[k + 1] == f[k + 1]);
            }
        }
    }
}

proof fn lemma_folders_filled(
    ps: Seq<Placing>,
    n: int,
    depth: nat,
    parent: Option<int>,
    base: int,
)
    requires
        forall|i: int| 0 <= i < ps.len() ==> (#[trigger] ps[i]).segs.len() >= 1,
    ensures
        folders_are_filled(folder_rows(ps, n, depth, parent, base), base),
    decreases height(ps), n,
{
    if 0 < n <= folder_labels(ps).len() {
        let earlier = folder_rows(ps, n - 1, depth, parent, base);
        let label = folder_labels(ps)[n - 1];
        let at = base + earlier.len();
        let m = earlier.len() as int;
        let inner = inside(ps, label);
        lemma_labels_lead_inside(ps, n - 1);
        assert forall|j: int| 0 <= j < inner.len() implies (#[trigger] inner[j]).segs.len() >= 1 by {
            let i = lemma_inside_from(ps, label, j);
        }
        lemma_folders_filled(ps, n - 1, depth, parent, base);
        lemma_level_folders_filled(inner, depth + 1, Some(at), at + 1);
        lemma_level_is_filled(inner, depth + 1, Some(at), at + 1);
        let below = level_rows(inner, depth + 1, Some(at), at + 1);
        let r = folder_rows(ps, n, depth, parent, base);
        assert forall|k: int| 0 <= k < r.len() implies #[trigger] is_filled(r, k, base) by {
            if k < m {
                assert(is_filled(earlier, k, base));
                assert(r[k] == earlier[k]);
                if !earlier[k].is_leaf {
                    assert(r[k + 1] == earlier[k + 1]);
                }
            } else if k == m {
                assert(r[k + 1] == below[0]);
            } else {
                let b = k - m - 1;
                assert(is_filled(below, b, at + 1));
                assert(r[k] == below[b]);
                if !below[b].is_leaf {
                    assert(r[k + 1] == below[b + 1]);
                }
            }
        }
    }
}

/// No folder is empty: the row behind a folder lies right below it.
pub proof fn law_folders_are_filled(tests: Seq<DiscoveredTestView>, k: int)
    requires
        0 <= k < flat_tree(tests).len(),
        !flat_tree(tests)[k].is_leaf,
    ensures
        k + 1 < flat_tree(tests).len(),
        flat_tree(tests)[k + 1].parent_idx == Some(k),
{
    let ps = placings(tests);
    assert forall|i: int| 0 <= i < ps.len() implies (#[trigger] ps[i]).segs.len() >= 1 by {
        lemma_segments_nonempty(tests[i].tree_path, '.');
    }
    lemma_level_folders_filled(ps, 0, None, 0);
    assert(is_filled(flat_tree(tests), k, 0));
}

} // verus!
