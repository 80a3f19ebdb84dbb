//! Outcomes of the last run: attribution of console lines to leaves, sums for
//! the folders above them, and what is kept between sessions.

use std::collections::HashMap;

use vstd::prelude::*;

use crate::domain::ancestry::{
    is_ancestor, lemma_ancestor_smaller, lemma_ancestor_transitive, on_the_way,
};
use crate::domain::tree::{opt_index, parents_precede, rows, NodeView, TreeNode};
use crate::numerals::{count_text, decimal};
use crate::text::{
    concat, first_index, first_segment, join, joined, lemma_dark_start_stays, lemma_first_index,
    lemma_trimmed_starts_dark, same_text, texts, trim, trimmed,
};
use crate::ui::attribution::{
    has_leaf_named, is_leaf_named, law_exact_key_wins, law_resolved_key_is_a_leaf,
    resolve_leaf_key, resolved_key,
};
use crate::ui::console::{
    is_plain_name, is_summary_line, law_result_lines_are_read_back, parse_status_result_line,
    result_line, status_line, summary_line,
};
use crate::ui::failed_tests::name_key;
use crate::ui::leaf_results::{
    clone_texts, distinct_keys, entry_views, lemma_map_of, map_of, EntryView, LeafResult,
    LeafResultView, LeafResults, LeafStatus,
};
use crate::unicode::{lowercase, to_lowercase};

verus! {

broadcast use vstd::std_specs::hash::group_hash_axioms;

pub const LAST_RUN_PATH: &'static str = "bin/dotest/last_run.json";

pub const LAST_RUN_VERSION: u32 = 1;

/// How many leaves below a folder passed, failed and were skipped.
#[derive(Clone, Copy, Debug, PartialEq, Eq, Structural)]
pub struct ParentCounts {
    pub passed: usize,
    pub failed: usize,
    pub skipped: usize,
}

// ---------------------------------------------------------------------------
// Sums for folders
// ---------------------------------------------------------------------------
/// The last leaf that has this key.
pub open spec fn last_leaf(t: Seq<NodeView>, key: Seq<char>) -> Option<int>
    decreases t.len(),
{
    if t.len() == 0 {
        None
    } else if is_leaf_named(t.last(), key) {
        Some(t.len() - 1)
    } else {
        last_leaf(t.drop_last(), key)
    }
}

/// The leaf that the key belongs to lies below row `p`.
pub open spec fn lies_below(t: Seq<NodeView>, p: int, key: Seq<char>) -> bool {
    match last_leaf(t, key) {
        Some(i) => is_ancestor(t, p, i),
        None => false,
    }
}

/// How many outcomes of one kind there are below row `p`.
pub open spec fn outcomes_below(
    t: Seq<NodeView>,
    results: Map<Seq<char>, LeafResultView>,
    p: int,
    status: LeafStatus,
) -> nat {
    results.dom().filter(
        |k: Seq<char>| results[k].status == status && lies_below(t, p, k),
    ).len()
}

/// `counts` holds the sums of exactly those rows that have an outcome below
/// them.
pub open spec fn are_rollups(
    counts: Map<usize, ParentCounts>,
    t: Seq<NodeView>,
    results: Map<Seq<char>, LeafResultView>,
) -> bool {
    &&& forall|p: usize| #[trigger]
        counts.dom().contains(p) <==> exists|k: Seq<char>|
            results.dom().contains(k) && lies_below(t, p as int, k)
    &&& forall|p: usize| #[trigger]
        counts.dom().contains(p) ==> {
            &&& counts[p].passed == outcomes_below(t, results, p as int, LeafStatus::Passed)
            &&& counts[p].failed == outcomes_below(t, results, p as int, LeafStatus::Failed)
            &&& counts[p].skipped == outcomes_below(t, results, p as int, LeafStatus::Skipped)
        }
}

/// The sums of the rows that have an outcome below them.
pub open spec fn rollups(
    t: Seq<NodeView>,
    results: Map<Seq<char>, LeafResultView>,
) -> Map<usize, ParentCounts> {
    choose|counts: Map<usize, ParentCounts>| are_rollups(counts, t, results)
}

/// There is but one way to sum up.
pub proof fn lemma_rollups(
    counts: Map<usize, ParentCounts>,
    t: Seq<NodeView>,
    results: Map<Seq<char>, LeafResultView>,
)
    requires
        are_rollups(counts, t, results),
    ensures
        counts == rollups(t, results),
{
    let other = rollups(t, results);
    assert(are_rollups(other, t, results));
    assert forall|p: usize| counts.dom().contains(p) == other.dom().contains(p) && (
    counts.dom().contains(p) ==> #[trigger] counts[p] == other[p]) by {
        assert(counts.dom().contains(p) <==> other.dom().contains(p));
    }
    assert(counts =~= other);
}

spec fn tally(es: Seq<EntryView>, t: Seq<NodeView>, p: int, status: LeafStatus) -> nat
    decreases es.len(),
{
    if es.len() == 0 {
        0
    } else {
        tally(es.drop_last(), t, p, status) + if es.last().1.status == status && lies_below(
            t,
            p,
            es.last().0,
        ) {
            1nat
        } else {
            0nat
        }
    }
}

spec fn any_below(es: Seq<EntryView>, t: Seq<NodeView>, p: int) -> bool {
    exists|i: int| 0 <= i < es.len() && lies_below(t, p, (#[trigger] es[i]).0)
}

proof fn lemma_tally(es: Seq<EntryView>, t: Seq<NodeView>, p: int, status: LeafStatus)
    requires
        distinct_keys(es),
    ensures
        tally(es, t, p, status) == outcomes_below(t, map_of(es), p, status),
        tally(es, t, p, status) <= es.len(),
    decreases es.len(),
{
    let m = map_of(es);
    let f = |k: Seq<char>| m[k].status == status && lies_below(t, p, k);
    if es.len() == 0 {
        assert(m.dom().filter(f) =~= Set::<Seq<char>>::empty());
    } else {
        let init = es.drop_last();
        let m0 = map_of(init);
        let f0 = |k: Seq<char>| m0[k].status == status && lies_below(t, p, k);
        lemma_tally(init, t, p, status);
        lemma_map_of(init);
        lemma_map_of(es);
        let key = es.last().0;
        assert(!m0.dom().contains(key)) by {
            if m0.dom().contains(key) {
                let i = choose|i: int| 0 <= i < init.len() && (#[trigger] init[i]).0 == key;
                assert(es[i].0 == es[es.len() - 1].0);
            }
        }
        if f(key) {
            assert(m.dom().filter(f) =~= m0.dom().filter(f0).insert(key));
        } else {
            assert(m.dom().filter(f) =~= m0.dom().filter(f0));
        }
    }
}

spec fn counts_match(
    counts: Map<usize, ParentCounts>,
    es: Seq<EntryView>,
    t: Seq<NodeView>,
) -> bool {
    &&& forall|p: usize| #[trigger] counts.dom().contains(p) <==> any_below(es, t, p as int)
    &&& forall|p: usize| #[trigger]
        counts.dom().contains(p) ==> {
            &&& counts[p].passed == tally(es, t, p as int, LeafStatus::Passed)
            &&& counts[p].failed == tally(es, t, p as int, LeafStatus::Failed)
            &&& counts[p].skipped == tally(es, t, p as int, LeafStatus::Skipped)
        }
}

spec fn plus(c: ParentCounts, status: LeafStatus) -> ParentCounts {
    match status {
        LeafStatus::Passed => ParentCounts { passed: (c.passed + 1) as usize, ..c },
        LeafStatus::Failed => ParentCounts { failed: (c.failed + 1) as usize, ..c },
        LeafStatus::Skipped => ParentCounts { skipped: (c.skipped + 1) as usize, ..c },
    }
}

spec fn count_or_zero(counts: Map<usize, ParentCounts>, p: usize) -> ParentCounts {
    if counts.dom().contains(p) {
        counts[p]
    } else {
        ParentCounts { passed: 0, failed: 0, skipped: 0 }
    }
}

/// Counts one outcome at every row above a leaf.
fn count_upwards(
    counts: &mut HashMap<usize, ParentCounts>,
    tree: &[TreeNode],
    leaf: usize,
    status: LeafStatus,
)
    requires
        parents_precede(rows(tree@)),
        leaf < tree@.len(),
        forall|p: usize| #[trigger]
            old(counts)@.dom().contains(p) ==> old(counts)@[p].passed < usize::MAX
                && old(counts)@[p].failed < usize::MAX && old(counts)@[p].skipped < usize::MAX,
    ensures
        forall|p: usize| #[trigger]
            final(counts)@.dom().contains(p) <==> old(counts)@.dom().contains(p)
                || is_ancestor(rows(tree@), p as int, leaf as int),
        forall|p: usize| #[trigger]
            final(counts)@.dom().contains(p) ==> final(counts)@[p] == if is_ancestor(
                rows(tree@),
                p as int,
                leaf as int,
            ) {
                plus(count_or_zero(old(counts)@, p), status)
            } else {
                old(counts)@[p]
            },
{
    let ghost t = rows(tree@);
    let ghost start = counts@;
    let ghost way = t[leaf as int].parent_idx;
    let mut parent: Option<usize> = tree[leaf].parent_idx;
    assert(tree@[leaf as int]@ == t[leaf as int]);
    assert forall|q: int| is_ancestor(t, q, leaf as int) == on_the_way(t, way, q) by {}
    loop
        invariant_except_break
            t == rows(tree@),
            parents_precede(t),
            way == t[leaf as int].parent_idx,
            match parent {
                Some(c) => c < tree@.len(),
                None => true,
            },
            forall|q: int| on_the_way(t, opt_index(parent), q) ==> on_the_way(t, way, q),
            forall|p: usize| #[trigger]
                start.dom().contains(p) ==> start[p].passed < usize::MAX && start[p].failed
                    < usize::MAX && start[p].skipped < usize::MAX,
            forall|p: usize| #[trigger]
                counts@.dom().contains(p) <==> start.dom().contains(p) || (on_the_way(
                    t,
                    way,
                    p as int,
                ) && !on_the_way(t, opt_index(parent), p as int)),
            forall|p: usize| #[trigger]
                counts@.dom().contains(p) ==> counts@[p] == if on_the_way(t, way, p as int)
                    && !on_the_way(t, opt_index(parent), p as int) {
                    plus(count_or_zero(start, p), status)
                } else {
                    start[p]
                },
        ensures
            forall|p: usize| #[trigger]
                counts@.dom().contains(p) <==> start.dom().contains(p) || on_the_way(
                    t,
                    way,
                    p as int,
                ),
            forall|p: usize| #[trigger]
                counts@.dom().contains(p) ==> counts@[p] == if on_the_way(t, way, p as int) {
                    plus(count_or_zero(start, p), status)
                } else {
                    start[p]
                },
        decreases
                match parent {
                    Some(c) => c + 1,
                    None => 0,
                },
    {
        match parent {
            None => {
                break;
            },
            Some(c) => {
                let mut n: ParentCounts = match counts.get(&c) {
                    Some(found) => *found,
                    None => ParentCounts { passed: 0, failed: 0, skipped: 0 },
                };
                assert(on_the_way(t, opt_index(parent), c as int));
                assert(n == count_or_zero(start, c));
                match status {
                    LeafStatus::Passed => {
                        n.passed = n.passed + 1;
                    },
                    LeafStatus::Failed => {
                        n.failed = n.failed + 1;
                    },
                    LeafStatus::Skipped => {
                        n.skipped = n.skipped + 1;
                    },
                }
                let ghost before = counts@;
                counts.insert(c, n);
                let next: Option<usize> = tree[c].parent_idx;
                proof {
                    assert(tree@[c as int]@ == t[c as int]);
                    assert forall|q: int|
                        on_the_way(t, Some(c as int), q) <==> q == c || on_the_way(
                            t,
                            opt_index(next),
                            q,
                        ) by {}
                    assert(!on_the_way(t, opt_index(next), c as int)) by {
                        if on_the_way(t, opt_index(next), c as int) {
                            let q = next->0 as int;
                            if q != c {
                                lemma_ancestor_smaller(t, c as int, q);
                            }
                        }
                    }
                    assert forall|p: usize| #[trigger]
                        counts@.dom().contains(p) <==> start.dom().contains(p) || (on_the_way(
                            t,
                            way,
                            p as int,
                        ) && !on_the_way(t, opt_index(next), p as int)) by {
                        assert(counts@.dom().contains(p) <==> before.dom().contains(p) || p == c);
                    }
                    assert forall|p: usize| #[trigger]
                        counts@.dom().contains(p) implies counts@[p] == if on_the_way(
                        t,
                        way,
                        p as int,
                    ) && !on_the_way(t, opt_index(next), p as int) {
                        plus(count_or_zero(start, p), status)
                    } else {
                        start[p]
                    } by {
                        if p != c {
                            assert(before.dom().contains(p));
                            assert(counts@[p] == before[p]);
                        }
                    }
                }
                parent = next;
            },
        }
    }
}

/// The index of the last leaf that has this key.
pub fn find_last_leaf(tree: &[TreeNode], key: &str) -> (r: Option<usize>)
    ensures
        opt_index(r) == last_leaf(rows(tree@), key@),
        r matches Some(i) ==> i < tree@.len(),
{
    let ghost t = rows(tree@);
    let mut n: usize = tree.len();
    assert(t.take(n as int) =~= t);
    while n > 0
        invariant
            t == rows(tree@),
            n <= tree@.len(),
            last_leaf(t, key@) == last_leaf(t.take(n as int), key@),
        decreases n,
    {
        let node = &tree[n - 1];
        assert(t.take(n as int).last() == node@);
        assert(t.take(n as int).drop_last() =~= t.take(n - 1));
        if node.is_leaf {
            match &node.fqn {
                Some(f) => {
                    if same_text(f.as_str(), key) {
                        return Some(n - 1);
                    }
                },
                None => {},
            }
        }
        n -= 1;
    }
    None
}

/// The sums for all folders that have an outcome below them.
pub fn rollups_of(results: &LeafResults, tree: &[TreeNode]) -> (r: HashMap<usize, ParentCounts>)
    requires
        results.wf(),
        parents_precede(rows(tree@)),
    ensures
        are_rollups(r@, rows(tree@), results@),
{
    let ghost t = rows(tree@);
    let ghost es = results.listed();
    proof {
        results.lemma_listed();
    }
    let mut counts: HashMap<usize, ParentCounts> = HashMap::new();
    let mut i: usize = 0;
    while i < results.len()
        invariant
            results.wf(),
            t == rows(tree@),
            parents_precede(t),
            es == results.listed(),
            distinct_keys(es),
            i <= es.len(),
            counts_match(counts@, es.take(i as int), t),
        decreases es.len() - i,
    {
        let (key, result) = results.entry(i);
        let ghost done = es.take(i as int);
        let ghost next = es.take(i + 1);
        assert(next.drop_last() =~= done);
        assert(next.last() == es[i as int]);
        assert(distinct_keys(done)) by {
            assert forall|a: int, b: int| 0 <= a < b < done.len() implies (#[trigger] done[a]).0
                != (#[trigger] done[b]).0 by {
                assert(es[a].0 != es[b].0);
            }
        }
        let ghost before = counts@;
        proof {
            assert forall|p: int, s: LeafStatus| #[trigger] tally(done, t, p, s) <= i by {
                lemma_tally(done, t, p, s);
            }
            assert forall|p: int| #[trigger]
                any_below(next, t, p) <==> any_below(done, t, p) || lies_below(t, p, key@) by {
                if any_below(done, t, p) {
                    let j = choose|j: int|
                        0 <= j < done.len() && lies_below(t, p, (#[trigger] done[j]).0);
                    assert(next[j] == done[j]);
                }
                if lies_below(t, p, key@) {
                    assert(next[i as int].0 == key@);
                }
                if any_below(next, t, p) {
                    let j = choose|j: int|
                        0 <= j < next.len() && lies_below(t, p, (#[trigger] next[j]).0);
                    if j < i {
                        assert(done[j] == next[j]);
                    }
                }
            }
            assert forall|p: int| !any_below(done, t, p) implies forall|s: LeafStatus| #[trigger]
                tally(done, t, p, s) == 0 by {
                assert forall|s: LeafStatus| #[trigger] tally(done, t, p, s) == 0 by {
                    lemma_tally_zero(done, t, p, s);
                }
            }
        }
        match find_last_leaf(tree, key.as_str()) {
            Some(leaf) => {
                count_upwards(&mut counts, tree, leaf, result.status);
            },
            None => {},
        }
        proof {
            assert forall|p: usize| #[trigger]
                counts@.dom().contains(p) <==> any_below(next, t, p as int) by {
                assert(before.dom().contains(p) <==> any_below(done, t, p as int));
            }
            assert forall|p: usize| #[trigger] counts@.dom().contains(p) implies {
                &&& counts@[p].passed == tally(next, t, p as int, LeafStatus::Passed)
                &&& counts@[p].failed == tally(next, t, p as int, LeafStatus::Failed)
                &&& counts@[p].skipped == tally(next, t, p as int, LeafStatus::Skipped)
            } by {
                if !before.dom().contains(p) {
                    assert(!any_below(done, t, p as int));
                }
                assert(tally(done, t, p as int, LeafStatus::Passed) <= i);
                assert(tally(done, t, p as int, LeafStatus::Failed) <= i);
                assert(tally(done, t, p as int, LeafStatus::Skipped) <= i);
            }
        }
        i += 1;
    }
    proof {
        assert(es.take(i as int) =~= es);
        lemma_map_of(es);
        assert forall|p: usize| #[trigger] counts@.dom().contains(p) <==> exists|k: Seq<char>|
            results@.dom().contains(k) && lies_below(t, p as int, k) by {
            if any_below(es, t, p as int) {
                let j = choose|j: int|
                    0 <= j < es.len() && lies_below(t, p as int, (#[trigger] es[j]).0);
                assert(results@.dom().contains(es[j].0));
            }
            if exists|k: Seq<char>| results@.dom().contains(k) && lies_below(t, p as int, k) {
                let k = choose|k: Seq<char>|
                    results@.dom().contains(k) && lies_below(t, p as int, k);
                let j = choose|j: int| 0 <= j < es.len() && (#[trigger] es[j]).0 == k;
                assert(any_below(es, t, p as int));
            }
        }
        assert forall|p: usize| #[trigger] counts@.dom().contains(p) implies {
            &&& counts@[p].passed == outcomes_below(t, results@, p as int, LeafStatus::Passed)
            &&& counts@[p].failed == outcomes_below(t, results@, p as int, LeafStatus::Failed)
            &&& counts@[p].skipped == outcomes_below(t, results@, p as int, LeafStatus::Skipped)
        } by {
            lemma_tally(es, t, p as int, LeafStatus::Passed);
            lemma_tally(es, t, p as int, LeafStatus::Failed);
            lemma_tally(es, t, p as int, LeafStatus::Skipped);
        }
    }
    counts
}

proof fn lemma_tally_zero(es: Seq<EntryView>, t: Seq<NodeView>, p: int, status: LeafStatus)
    requires
        !any_below(es, t, p),
    ensures
        tally(es, t, p, status) == 0,
    decreases es.len(),
{
    if es.len() > 0 {
        let init = es.drop_last();
        assert(!any_below(init, t, p)) by {
            if any_below(init, t, p) {
                let j = choose|j: int|
                    0 <= j < init.len() && lies_below(t, p, (#[trigger] init[j]).0);
                assert(es[j] == init[j]);
            }
        }
        lemma_tally_zero(init, t, p, status);
        assert(es[es.len() - 1] == es.last());
    }
}

/// A folder has at least the outcomes of each kind that a folder below it has.
pub proof fn law_rollups_nest(
    t: Seq<NodeView>,
    results: Map<Seq<char>, LeafResultView>,
    outer: int,
    inner: int,
    status: LeafStatus,
)
    requires
        results.dom().finite(),
        is_ancestor(t, outer, inner),
    ensures
        outcomes_below(t, results, inner, status) <= outcomes_below(t, results, outer, status),
{
    let a = results.dom().filter(
        |k: Seq<char>| results[k].status == status && lies_below(t, inner, k),
    );
    let b = results.dom().filter(
        |k: Seq<char>| results[k].status == status && lies_below(t, outer, k),
    );
    assert forall|k: Seq<char>| a.contains(k) implies b.contains(k) by {
        let i = last_leaf(t, k)->0;
        lemma_ancestor_transitive(t, outer, inner, i);
    }
    assert(a.subset_of(b));
    vstd::set_lib::lemma_len_subset(a, b);
}

/// The parts of a folder's suffix: the counts that are not zero, each with its
/// mark.
pub open spec fn suffix_parts(c: ParentCounts) -> Seq<Seq<char>> {
    let passed = if c.passed > 0 {
        seq![decimal(c.passed as nat) + "✓"@]
    } else {
        seq![]
    };
    let failed = if c.failed > 0 {
        seq![decimal(c.failed as nat) + "✗"@]
    } else {
        seq![]
    };
    let skipped = if c.skipped > 0 {
        seq![decimal(c.skipped as nat) + "⚠"@]
    } else {
        seq![]
    };
    passed + failed + skipped
}

impl ParentCounts {
    pub fn format_suffix(self) -> (r: String)
        ensures
            r@ == if suffix_parts(self).len() == 0 {
                Seq::<char>::empty()
            } else {
                "  "@ + joined(suffix_parts(self), " "@)
            },
    {
        let mut parts: Vec<String> = Vec::new();
        if self.passed > 0 {
            parts.push(concat(count_text(self.passed).as_str(), "✓"));
        }
        if self.failed > 0 {
            parts.push(concat(count_text(self.failed).as_str(), "✗"));
        }
        if self.skipped > 0 {
            parts.push(concat(count_text(self.skipped).as_str(), "⚠"));
        }
        assert(texts(parts@) =~= suffix_parts(self));
        if parts.len() == 0 {
            String::new()
        } else {
            concat("  ", join(&parts, " ").as_str())
        }
    }
}

// ---------------------------------------------------------------------------
// State
// ---------------------------------------------------------------------------
/// A failure whose details are still being collected.
pub struct PendingFailure {
    pub key: String,
    pub details: Vec<String>,
}

/// Outcomes of the last run, by the key of the leaf.
pub struct RunResultsState {
    pub results: LeafResults,
    /// Sums for the rows that have an outcome below them.
    pub parent_counts: HashMap<usize, ParentCounts>,
    pub pending_failure: Option<PendingFailure>,
}

/// What a [`RunResultsState`] records, apart from the sums.
#[verifier::ext_equal]
pub struct Recorded {
    pub results: Map<Seq<char>, LeafResultView>,
    pub pending: Option<(Seq<char>, Seq<Seq<char>>)>,
}

impl View for RunResultsState {
    type V = Recorded;

    open spec fn view(&self) -> Recorded {
        Recorded {
            results: self.results@,
            pending: match self.pending_failure {
                Some(p) => Some((p.key@, texts(p.details@))),
                None => None,
            },
        }
    }
}

/// The failure whose details were being collected is recorded with them.
pub open spec fn closed_pending(s: Recorded) -> Recorded {
    match s.pending {
        Some((key, details)) => Recorded {
            results: s.results.insert(key, LeafResultView { status: LeafStatus::Failed, details }),
            pending: None,
        },
        None => s,
    }
}

/// A line more in the details that are being collected, if any are.
pub open spec fn with_detail(s: Recorded, line: Seq<char>) -> Recorded {
    Recorded {
        pending: match s.pending {
            Some((key, details)) => Some((key, details.push(line))),
            None => None,
        },
        ..s
    }
}

/// An outcome without details yet; a failure starts to collect them.
pub open spec fn with_outcome(s: Recorded, key: Seq<char>, status: LeafStatus) -> Recorded {
    Recorded {
        results: s.results.insert(key, LeafResultView { status, details: Seq::empty() }),
        pending: if status == LeafStatus::Failed {
            Some((key, Seq::empty()))
        } else {
            None
        },
    }
}

/// What is recorded after one line of output more. `lower` is the trimmed line
/// in lowercase.
pub open spec fn ingested(
    s: Recorded,
    line: Seq<char>,
    lower: Seq<char>,
    t: Seq<NodeView>,
) -> Recorded {
    let trimmed_line = trimmed(line);
    if trimmed_line.len() == 0 {
        with_detail(s, line)
    } else {
        match status_line(trimmed_line) {
            Some((status, name)) => {
                let closed = closed_pending(s);
                match resolved_key(t, name, closed.results) {
                    Some(key) => with_outcome(closed, key, status),
                    None => closed,
                }
            },
            None => if is_summary_line(trimmed_line, lower) {
                closed_pending(s)
            } else {
                with_detail(s, line)
            },
        }
    }
}

/// Whether a line makes the sums be computed anew: it reports the outcome of a
/// leaf, or it is a summary line that ends a failure.
pub open spec fn recounts(
    s: Recorded,
    line: Seq<char>,
    lower: Seq<char>,
    t: Seq<NodeView>,
) -> bool {
    let trimmed_line = trimmed(line);
    trimmed_line.len() > 0 && match status_line(trimmed_line) {
        Some((status, name)) => resolved_key(t, name, closed_pending(s).results) is Some,
        None => is_summary_line(trimmed_line, lower) && s.pending is Some,
    }
}

/// What a saved file records: nothing if it is of another version.
pub open spec fn loaded(version: u32, saved: Seq<EntryView>) -> Recorded {
    Recorded {
        results: if version == LAST_RUN_VERSION {
            map_of(saved)
        } else {
            Map::empty()
        },
        pending: None,
    }
}

/// The lines that are shown for a leaf.
pub open spec fn panel_lines(
    results: Map<Seq<char>, LeafResultView>,
    fqn: Seq<char>,
) -> Seq<Seq<char>> {
    if !results.dom().contains(fqn) {
        Seq::empty()
    } else {
        let word = match results[fqn].status {
            LeafStatus::Passed => "Passed "@,
            LeafStatus::Failed => "Failed "@,
            LeafStatus::Skipped => "Skipped "@,
        };
        if results[fqn].details.len() == 0 {
            seq![word + fqn]
        } else {
            seq![word + fqn, Seq::empty()] + results[fqn].details
        }
    }
}

impl RunResultsState {
    pub open spec fn wf(&self) -> bool {
        self.results.wf()
    }

    pub fn new() -> (r: Self)
        ensures
            r.wf(),
            r@ == (Recorded { results: Map::empty(), pending: None }),
            r.parent_counts@ == Map::<usize, ParentCounts>::empty(),
    {
        RunResultsState {
            results: LeafResults::new(),
            parent_counts: HashMap::new(),
            pending_failure: None,
        }
    }

    pub fn clear(&mut self)
        ensures
            final(self).wf(),
            final(self)@ == (Recorded { results: Map::empty(), pending: None }),
            final(self).parent_counts@ == Map::<usize, ParentCounts>::empty(),
    {
        self.results = LeafResults::new();
        self.parent_counts = HashMap::new();
        self.pending_failure = None;
    }

    pub fn is_empty(&self) -> (r: bool)
        requires
            self.wf(),
        ensures
            r == (self@.results == Map::<Seq<char>, LeafResultView>::empty()),
    {
        self.results.is_empty()
    }

    /// The state that a saved file holds; an empty one if the file is of another
    /// version.
    pub fn from_saved(version: u32, saved: &Vec<(String, LeafResult)>) -> (r: Self)
        ensures
            r.wf(),
            r@ == loaded(version, entry_views(saved@)),
            r.parent_counts@ == Map::<usize, ParentCounts>::empty(),
    {
        if version != LAST_RUN_VERSION {
            return RunResultsState::new();
        }
        RunResultsState {
            results: LeafResults::from_pairs(saved),
            parent_counts: HashMap::new(),
            pending_failure: None,
        }
    }

    /// What is saved: the version and every outcome.
    pub fn to_saved(&self) -> (r: (u32, Vec<(String, LeafResult)>))
        requires
            self.wf(),
        ensures
            r.0 == LAST_RUN_VERSION,
            distinct_keys(entry_views(r.1@)),
            map_of(entry_views(r.1@)) == self@.results,
    {
        (LAST_RUN_VERSION, self.results.to_pairs())
    }

    /// Drops outcomes of leaves that are no longer there.
    pub fn prune_to_tree(&mut self, tree: &[TreeNode])
        requires
            old(self).wf(),
            parents_precede(rows(tree@)),
        ensures
            final(self).wf(),
            final(self)@ == (Recorded {
                results: old(self)@.results.restrict(
                    Set::new(|k: Seq<char>| has_leaf_named(rows(tree@), k)),
                ),
                ..old(self)@
            }),
            are_rollups(final(self).parent_counts@, rows(tree@), final(self)@.results),
    {
        let keys = leaf_keys(tree);
        let ghost kept = Set::new(|k: Seq<char>| has_leaf_named(rows(tree@), k));
        assert(Set::new(|k: Seq<char>| texts(keys@).contains(k)) =~= kept);
        self.results.keep_keys(&keys);
        self.recompute_rollups(tree);
    }

    pub fn recompute_rollups(&mut self, tree: &[TreeNode])
        requires
            old(self).wf(),
            parents_precede(rows(tree@)),
        ensures
            final(self).wf(),
            final(self)@ == old(self)@,
            are_rollups(final(self).parent_counts@, rows(tree@), final(self)@.results),
    {
        self.parent_counts = rollups_of(&self.results, tree);
    }

    fn close_pending(&mut self)
        requires
            old(self).wf(),
        ensures
            final(self).wf(),
            final(self)@ == closed_pending(old(self)@),
            final(self).parent_counts == old(self).parent_counts,
    {
        let taken = self.pending_failure.take();
        match taken {
            Some(p) => {
                self.set_result(p.key, LeafResult { status: LeafStatus::Failed, details: p.details });
            },
            None => {},
        }
    }

    /// Ends any failure whose details are being collected, and computes the sums
    /// anew.
    pub fn finalize_pending(&mut self, tree: &[TreeNode])
        requires
            old(self).wf(),
            parents_precede(rows(tree@)),
        ensures
            final(self).wf(),
            final(self)@ == closed_pending(old(self)@),
            are_rollups(final(self).parent_counts@, rows(tree@), final(self)@.results),
    {
        self.close_pending();
        self.recompute_rollups(tree);
    }

    fn set_result(&mut self, key: String, result: LeafResult)
        requires
            old(self).wf(),
        ensures
            final(self).wf(),
            final(self)@ == (Recorded {
                results: old(self)@.results.insert(key@, result@),
                ..old(self)@
            }),
            final(self).parent_counts == old(self).parent_counts,
    {
        self.results.insert(key, result);
    }

    fn add_detail(&mut self, line: &str)
        requires
            old(self).wf(),
        ensures
            final(self).wf(),
            final(self)@ == with_detail(old(self)@, line@),
            final(self).parent_counts == old(self).parent_counts,
    {
        let taken = self.pending_failure.take();
        match taken {
            Some(p) => {
                let mut details = p.details;
                let ghost o = texts(details@);
                let text = line.to_owned();
                details.push(text);
                assert(texts(details@) =~= o.push(line@));
                self.pending_failure = Some(PendingFailure { key: p.key, details });
            },
            None => {},
        }
    }

    /// Takes in one line of output; `lower` is the trimmed line in lowercase.
    pub fn ingest_with_lowercase(&mut self, line: &str, lower: &str, tree: &[TreeNode])
        requires
            old(self).wf(),
            parents_precede(rows(tree@)),
        ensures
            final(self).wf(),
            final(self)@ == ingested(old(self)@, line@, lower@, rows(tree@)),
            if recounts(old(self)@, line@, lower@, rows(tree@)) {
                are_rollups(final(self).parent_counts@, rows(tree@), final(self)@.results)
            } else {
                final(self).parent_counts == old(self).parent_counts
            },
    {
        let trimmed_line = trim(line);
        if trimmed_line.is_empty() {
            self.add_detail(line);
            return ;
        }
        match parse_status_result_line(trimmed_line) {
            Some((status, name)) => {
                self.close_pending();
                let key = match resolve_leaf_key(tree, name.as_str(), &self.results) {
                    Some(key) => key,
                    None => {
                        return ;
                    },
                };
                let none: Vec<String> = Vec::new();
                assert(texts(none@) =~= Seq::<Seq<char>>::empty());
                if status == LeafStatus::Failed {
                    let details: Vec<String> = Vec::new();
                    assert(texts(details@) =~= Seq::<Seq<char>>::empty());
                    self.pending_failure = Some(PendingFailure { key: key.clone(), details });
                }
                self.set_result(key, LeafResult { status, details: none });
                self.recompute_rollups(tree);
            },
            None => {
                if summary_line(trimmed_line, lower) {
                    let open = self.pending_failure.is_some();
                    self.close_pending();
                    if open {
                        self.recompute_rollups(tree);
                    }
                } else {
                    self.add_detail(line);
                }
            },
        }
    }

    /// Takes in one line of output.
    pub fn ingest_line(&mut self, line: &str, tree: &[TreeNode])
        requires
            old(self).wf(),
            parents_precede(rows(tree@)),
        ensures
            final(self).wf(),
            final(self)@ == ingested(
                old(self)@,
                line@,
                lowercase(trimmed(line@)),
                rows(tree@),
            ),
            if recounts(old(self)@, line@, lowercase(trimmed(line@)), rows(tree@)) {
                are_rollups(final(self).parent_counts@, rows(tree@), final(self)@.results)
            } else {
                final(self).parent_counts == old(self).parent_counts
            },
    {
        let lower = to_lowercase(trim(line));
        self.ingest_with_lowercase(line, lower.as_str(), tree);
    }

    pub fn get(&self, fqn: &str) -> (r: Option<&LeafResult>)
        requires
            self.wf(),
        ensures
            match r {
                Some(v) => self@.results.dom().contains(fqn@) && v@ == self@.results[fqn@],
                None => !self@.results.dom().contains(fqn@),
            },
    {
        self.results.get(fqn)
    }

    /// The lines to show for a leaf: its status and name, then its details.
    pub fn leaf_panel_lines(&self, fqn: &str) -> (r: Vec<String>)
        requires
            self.wf(),
        ensures
            texts(r@) == panel_lines(self@.results, fqn@),
    {
        let mut lines: Vec<String> = Vec::new();
        match self.results.get(fqn) {
            None => {
                assert(texts(lines@) =~= Seq::<Seq<char>>::empty());
            },
            Some(result) => {
                let word: &str = match result.status {
                    LeafStatus::Passed => "Passed ",
                    LeafStatus::Failed => "Failed ",
                    LeafStatus::Skipped => "Skipped ",
                };
                lines.push(concat(word, fqn));
                if result.details.len() > 0 {
                    lines.push(String::new());
                    let mut details = clone_texts(&result.details);
                    let ghost o = texts(lines@);
                    let ghost d = texts(details@);
                    lines.append(&mut details);
                    assert(texts(lines@) =~= o + d);
                    assert(o =~= seq![word@ + fqn@, Seq::<char>::empty()]);
                } else {
                    assert(texts(lines@) =~= seq![word@ + fqn@]);
                }
            },
        }
        lines
    }
}

fn leaf_keys(tree: &[TreeNode]) -> (r: Vec<String>)
    ensures
        forall|k: Seq<char>| texts(r@).contains(k) <==> has_leaf_named(rows(tree@), k),
{
    let ghost t = rows(tree@);
    let mut out: Vec<String> = Vec::new();
    let mut i: usize = 0;
    while i < tree.len()
        invariant
            t == rows(tree@),
            i <= tree@.len(),
            forall|k: Seq<char>| texts(out@).contains(k) <==> has_leaf_named(t.take(i as int), k),
        decreases tree@.len() - i,
    {
        let ghost o = texts(out@);
        let ghost before = t.take(i as int);
        let ghost next = t.take(i + 1);
        assert(next =~= before.push(tree@[i as int]@));
        assert forall|k: Seq<char>| #[trigger]
            has_leaf_named(next, k) <==> has_leaf_named(before, k) || is_leaf_named(
                tree@[i as int]@,
                k,
            ) by {
            if has_leaf_named(before, k) {
                let j = choose|j: int| 0 <= j < before.len() && is_leaf_named(#[trigger] before[j], k);
                assert(is_leaf_named(next[j], k));
            }
            if is_leaf_named(tree@[i as int]@, k) {
                assert(is_leaf_named(next[i as int], k));
            }
            if has_leaf_named(next, k) {
                let j = choose|j: int| 0 <= j < next.len() && is_leaf_named(#[trigger] next[j], k);
                if j < i {
                    assert(is_leaf_named(before[j], k));
                }
            }
        }
        if tree[i].is_leaf {
            match &tree[i].fqn {
                Some(f) => {
                    out.push(f.clone());
                    assert(texts(out@) =~= o.push(f@));
                    assert forall|k: Seq<char>|
                        texts(out@).contains(k) <==> o.contains(k) || k == f@ by {
                        if o.contains(k) {
                            let j = choose|j: int| 0 <= j < o.len() && o[j] == k;
                            assert(texts(out@)[j] == k);
                        }
                        if k == f@ {
                            assert(texts(out@)[o.len() as int] == k);
                        }
                    }
                },
                None => {},
            }
        }
        assert forall|k: Seq<char>| texts(out@).contains(k) <==> has_leaf_named(next, k) by {
            assert(o.contains(k) <==> has_leaf_named(before, k));
        }
        i += 1;
    }
    assert(t.take(i as int) =~= t);
    out
}

impl Default for RunResultsState {
    fn default() -> (r: Self)
        ensures
            r.wf(),
            r@ == (Recorded { results: Map::empty(), pending: None }),
            r.parent_counts@ == Map::<usize, ParentCounts>::empty(),
    {
        RunResultsState::new()
    }
}


/// Every key that is recorded belongs to a leaf.
pub open spec fn only_leaves(s: Recorded, t: Seq<NodeView>) -> bool {
    &&& forall|k: Seq<char>| #[trigger] s.results.dom().contains(k) ==> has_leaf_named(t, k)
    &&& s.pending matches Some((key, details)) ==> has_leaf_named(t, key)
}

/// No line of output makes up a key: if only leaves of the tree were recorded,
/// only leaves of the tree are recorded after it.
pub proof fn law_lines_record_only_leaves(
    s: Recorded,
    line: Seq<char>,
    lower: Seq<char>,
    t: Seq<NodeView>,
)
    requires
        only_leaves(s, t),
    ensures
        only_leaves(ingested(s, line, lower, t), t),
{
    let closed = closed_pending(s);
    if let Some((status, name)) = status_line(trimmed(line)) {
        if resolved_key(t, name, closed.results) is Some {
            law_resolved_key_is_a_leaf(t, name, closed.results);
        }
    }
}

/// A line changes the outcome of no leaf but the one that it is attributed to
/// and the one whose details end with it.
pub proof fn law_lines_leave_other_leaves_alone(
    s: Recorded,
    line: Seq<char>,
    lower: Seq<char>,
    t: Seq<NodeView>,
    key: Seq<char>,
)
    requires
        s.results.dom().contains(key),
        s.pending matches Some((pending_key, details)) ==> pending_key != key,
        status_line(trimmed(line)) matches Some((status, name)) ==> resolved_key(
            t,
            name,
            closed_pending(s).results,
        ) != Some(key),
    ensures
        ingested(s, line, lower, t).results.dom().contains(key),
        ingested(s, line, lower, t).results[key] == s.results[key],
{
}

/// What is saved and loaded again is what was recorded; a file of any other
/// version counts as empty.
pub proof fn law_saved_results_come_back(saved: Seq<EntryView>, s: Recorded, other: u32)
    requires
        map_of(saved) == s.results,
        other != LAST_RUN_VERSION,
    ensures
        loaded(LAST_RUN_VERSION, saved).results == s.results,
        loaded(other, saved).results == Map::<Seq<char>, LeafResultView>::empty(),
{
}

/// What is recorded after these lines.
pub open spec fn all_ingested(s: Recorded, lines: Seq<Seq<char>>, t: Seq<NodeView>) -> Recorded
    decreases lines.len(),
{
    if lines.len() == 0 {
        s
    } else {
        let line = lines.last();
        ingested(all_ingested(s, lines.drop_last(), t), line, lowercase(trimmed(line)), t)
    }
}

/// A line that reports no test and belongs to no summary: while a failure is
/// open, it is one of its details.
pub open spec fn is_detail_line(line: Seq<char>) -> bool {
    trimmed(line).len() > 0 ==> {
        &&& status_line(trimmed(line)) is None
        &&& !is_summary_line(trimmed(line), lowercase(trimmed(line)))
    }
}

/// A line of the summary, which ends the details of a failure.
pub open spec fn ends_details(line: Seq<char>) -> bool {
    &&& trimmed(line).len() > 0
    &&& status_line(trimmed(line)) is None
    &&& is_summary_line(trimmed(line), lowercase(trimmed(line)))
}

proof fn lemma_details_pile_up(
    s: Recorded,
    details: Seq<Seq<char>>,
    t: Seq<NodeView>,
    key: Seq<char>,
)
    requires
        s.pending == Some((key, Seq::<Seq<char>>::empty())),
        forall|i: int| 0 <= i < details.len() ==> is_detail_line(#[trigger] details[i]),
    ensures
        all_ingested(s, details, t) == (Recorded { pending: Some((key, details)), ..s }),
    decreases details.len(),
{
    if details.len() == 0 {
        assert(details =~= Seq::<Seq<char>>::empty());
    } else {
        assert(is_detail_line(details.last()));
        assert forall|i: int| 0 <= i < details.drop_last().len() implies is_detail_line(
            #[trigger] details.drop_last()[i],
        ) by {
            assert(is_detail_line(details[i]));
        }
        lemma_details_pile_up(s, details.drop_last(), t, key);
        assert(details.drop_last().push(details.last()) =~= details);
    }
}

proof fn lemma_ingested_in_turn(
    s: Recorded,
    first: Seq<char>,
    lines: Seq<Seq<char>>,
    t: Seq<NodeView>,
)
    ensures
        all_ingested(s, seq![first] + lines, t) == all_ingested(
            ingested(s, first, lowercase(trimmed(first)), t),
            lines,
            t,
        ),
    decreases lines.len(),
{
    let all = seq![first] + lines;
    if lines.len() == 0 {
        assert(all.drop_last() =~= Seq::<Seq<char>>::empty());
        reveal_with_fuel(all_ingested, 2);
    } else {
        assert(all.drop_last() =~= seq![first] + lines.drop_last());
        lemma_ingested_in_turn(s, first, lines.drop_last(), t);
    }
}

pub proof fn lemma_plain_name_has_a_key(name: Seq<char>)
    requires
        is_plain_name(name),
    ensures
        name_key(name).len() > 0,
{
    lemma_trimmed_starts_dark(name);
    lemma_first_index(name, '(');
    let before = first_segment(name, '(');
    assert(first_index(name, '(') > 0);
    assert(before[0] == name[0]);
    lemma_dark_start_stays(before);
}

/// The details of a failure are exactly the lines between the line that reports
/// it and the summary, whatever was recorded before; nothing else is recorded
/// by them. The reported name is the key of the leaf, with or without parameters
/// behind it.
pub proof fn law_details_lie_between(
    s: Recorded,
    report: Seq<char>,
    details: Seq<Seq<char>>,
    summary: Seq<char>,
    t: Seq<NodeView>,
    name: Seq<char>,
    key: Seq<char>,
    time: Seq<char>,
)
    requires
        is_plain_name(name),
        name_key(name) == key,
        has_leaf_named(t, key),
        trimmed(report) == result_line(LeafStatus::Failed, name, time),
        forall|i: int| 0 <= i < details.len() ==> is_detail_line(#[trigger] details[i]),
        ends_details(summary),
    ensures
        all_ingested(s, seq![report] + details + seq![summary], t) == (Recorded {
            results: closed_pending(s).results.insert(
                key,
                LeafResultView { status: LeafStatus::Failed, details },
            ),
            pending: None,
        }),
{
    law_result_lines_are_read_back(LeafStatus::Failed, name, time);
    lemma_plain_name_has_a_key(name);
    law_exact_key_wins(t, name, closed_pending(s).results);
    let opened = ingested(s, report, lowercase(trimmed(report)), t);
    assert(trimmed(report).len() > 0);
    assert(opened == with_outcome(closed_pending(s), key, LeafStatus::Failed));
    lemma_details_pile_up(opened, details, t, key);
    let lines = details.push(summary);
    assert(lines.drop_last() =~= details);
    lemma_ingested_in_turn(s, report, lines, t);
    assert(seq![report] + details + seq![summary] =~= seq![report] + lines);
    let outcome = LeafResultView { status: LeafStatus::Failed, details };
    let before = closed_pending(s).results;
    assert(opened.results.insert(key, outcome) =~= before.insert(key, outcome));
}

} // verus!
