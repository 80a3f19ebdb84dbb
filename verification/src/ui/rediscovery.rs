//! Looking for the tests again while a session goes on.

use vstd::prelude::*;

use crate::domain::discovery::{case_total, entries, DiscoveredTest, DiscoveredTestView};
use crate::domain::selection::{
    all_tests, checked_test_count, expanded_paths, lemma_same_shape, lemma_shape_total,
    lemma_synced_shape, restored, restored_row, restored_rows, same_shape, selected_keys,
    TreeState,
};
use crate::domain::tree::{
    build_discovered_tree, flat_tree, law_flat_tree_is_in_pre_order, parents_precede, rows,
    NodeView,
};
use crate::numerals::{count_text, decimal};
use crate::text::{concat, texts};
use crate::ui::actions::{Action, ActionView};
use crate::ui::attribution::has_leaf_named;
use crate::ui::run_events::{numbered, RULE};
use crate::ui::run_results::{lemma_rollups, rollups, Recorded};
use crate::ui::session::{
    fills_screen, saying, Popups, Rediscovery, Session, SessionView, TreeStateView,
};

verus! {

proof fn lemma_case_total_grows(tests: Seq<DiscoveredTestView>, n: int)
    requires
        0 <= n <= tests.len(),
    ensures
        case_total(tests.take(n)) <= case_total(tests),
    decreases tests.len(),
{
    if n < tests.len() {
        lemma_case_total_grows(tests.drop_last(), n);
        assert(tests.drop_last().take(n) =~= tests.take(n));
    } else {
        assert(tests.take(n) =~= tests);
    }
}

/// Adds up the test cases, if a machine word holds the sum.
pub fn count_cases(tests: &[DiscoveredTest]) -> (r: Option<usize>)
    ensures
        r == if case_total(entries(tests@)) <= usize::MAX {
            Some(case_total(entries(tests@)) as usize)
        } else {
            None
        },
{
    let ghost all = entries(tests@);
    let mut sum: usize = 0;
    let mut i: usize = 0;
    assert(all.take(0) =~= Seq::<DiscoveredTestView>::empty());
    while i < tests.len()
        invariant
            all == entries(tests@),
            i <= tests@.len(),
            sum == case_total(all.take(i as int)),
        decreases tests@.len() - i,
    {
        proof {
            assert(all.take(i + 1).drop_last() =~= all.take(i as int));
            assert(all.take(i + 1).last() == tests@[i as int]@);
            lemma_case_total_grows(all, i + 1);
        }
        match sum.checked_add(tests[i].test_count) {
            Some(n) => {
                sum = n;
            },
            None => {
                return None;
            },
        }
        i += 1;
    }
    assert(all.take(i as int) =~= all);
    Some(sum)
}

/// The test cases, and the tests in the tree that they make, can be counted.
pub open spec fn countable(tests: Seq<DiscoveredTestView>) -> bool {
    case_total(tests) <= usize::MAX && all_tests(flat_tree(tests)) <= usize::MAX
}

pub fn can_be_counted(tests: &[DiscoveredTest]) -> (r: bool)
    ensures
        r == countable(entries(tests@)),
{
    count_cases(tests).is_some() && {
        let tree = build_discovered_tree(tests);
        checked_test_count(tree.as_slice()).is_some()
    }
}

// ---------------------------------------------------------------------------
// Asking
// ---------------------------------------------------------------------------
pub open spec fn captured(t: Seq<NodeView>) -> TreeStateView {
    TreeStateView {
        selected: selected_keys(t, t.len() as int),
        expanded: expanded_paths(t, t.len() as int),
    }
}

/// The tests are to be looked for again, unless that is going on.
pub open spec fn rediscovery_asked(s: SessionView, now: u128) -> (SessionView, ActionView) {
    if s.rediscovery.active {
        (saying(s, "Rediscovery is already running."@), ActionView::Nothing)
    } else {
        (
            SessionView {
                scroll: 0,
                follow: true,
                popups: Popups { fullscreen: fills_screen(s.config), ..s.popups },
                rediscovery: Rediscovery { active: true, since: Some(now) },
                saved: Some(captured(s.tree)),
                ..saying(
                    saying(s, RULE@),
                    "🔄 Rediscovering tests (building if needed)... please wait."@,
                )
            },
            ActionView::Rediscover { no_restore: s.config.no_restore },
        )
    }
}

impl Session {
    pub fn ask_rediscovery(&mut self, now: u128) -> (r: Action)
        requires
            old(self).wf(),
        ensures
            final(self).wf(),
            (final(self)@, r@) == rediscovery_asked(old(self)@, now),
    {
        if self.rediscovery.active {
            self.say_text("Rediscovery is already running.");
            return Action::Nothing;
        }
        self.say_text(RULE);
        self.say_text("🔄 Rediscovering tests (building if needed)... please wait.");
        self.scroll = 0;
        self.follow = true;
        self.popups.fullscreen = self.config.fills_screen();
        self.rediscovery = Rediscovery { active: true, since: Some(now) };
        self.saved = Some(TreeState::capture(self.tree.as_slice()));
        assert(self@ =~= rediscovery_asked(old(self)@, now).0);
        Action::Rediscover { no_restore: self.config.no_restore }
    }
}

// ---------------------------------------------------------------------------
// Answers
// ---------------------------------------------------------------------------
/// The tree of the tests, with what was selected and expanded before.
pub open spec fn new_tree(
    tests: Seq<DiscoveredTestView>,
    saved: Option<TreeStateView>,
) -> Seq<NodeView> {
    match saved {
        Some(s) => restored(flat_tree(tests), s.selected, s.expanded),
        None => flat_tree(tests),
    }
}

/// Outcomes of leaves that are still there.
pub open spec fn pruned(recorded: Recorded, t: Seq<NodeView>) -> Recorded {
    Recorded {
        results: recorded.results.restrict(Set::new(|k: Seq<char>| has_leaf_named(t, k))),
        ..recorded
    }
}

pub open spec fn found_text(tests: Seq<DiscoveredTestView>) -> Seq<char> {
    "✓ Found "@ + decimal(case_total(tests)) + " tests ("@ + decimal(tests.len()) + " methods)."@
}

/// The tests were found.
pub open spec fn rediscovered(s: SessionView, tests: Seq<DiscoveredTestView>) -> SessionView {
    let t = new_tree(tests, s.saved);
    let recorded = pruned(s.recorded, t);
    saying(
        SessionView {
            tree: t,
            cursor: Some(0),
            query: Seq::empty(),
            recorded,
            counts: rollups(t, recorded.results),
            rediscovery: Rediscovery { active: false, since: None },
            saved: None,
            ..s
        },
        found_text(tests),
    )
}

/// The tests could not be found.
pub open spec fn rediscovery_failed(s: SessionView, reason: Seq<char>) -> SessionView {
    saying(
        SessionView {
            rediscovery: Rediscovery { active: false, since: None },
            saved: None,
            ..s
        },
        "✗ Failed to discover tests: "@ + reason,
    )
}

proof fn lemma_restored_shape(
    t: Seq<NodeView>,
    selected: Seq<Seq<char>>,
    expanded: Seq<Seq<char>>,
)
    requires
        parents_precede(t),
    ensures
        parents_precede(restored(t, selected, expanded)),
        all_tests(restored(t, selected, expanded)) == all_tests(t),
{
    let u = restored_rows(t, selected, expanded);
    let v = restored(t, selected, expanded);
    assert(same_shape(t, u));
    lemma_same_shape(t, u);
    lemma_synced_shape(u);
    lemma_same_shape(u, v);
    lemma_shape_total(t, u, t.len() as int);
    lemma_shape_total(u, v, u.len() as int);
}

impl Session {
    /// The tests were found.
    pub fn on_rediscovered(&mut self, tests: &[DiscoveredTest])
        requires
            old(self).wf(),
            countable(entries(tests@)),
        ensures
            final(self).wf(),
            final(self)@ == rediscovered(old(self)@, entries(tests@)),
    {
        let ghost o = self@;
        let ghost ts = entries(tests@);
        let total: usize = match count_cases(tests) {
            Some(n) => n,
            None => 0,
        };
        let mut tree = build_discovered_tree(tests);
        proof {
            law_flat_tree_is_in_pre_order(ts);
        }
        let taken = self.saved.take();
        match taken {
            Some(saved) => {
                proof {
                    lemma_restored_shape(
                        rows(tree@),
                        texts(saved.selected@),
                        texts(saved.expanded@),
                    );
                }
                saved.restore(&mut tree);
            },
            None => {},
        }
        assert(rows(tree@) =~= new_tree(ts, o.saved));
        self.tree = tree;
        self.cursor = Some(0);
        self.query = String::new();
        self.results.prune_to_tree(self.tree.as_slice());
        proof {
            lemma_rollups(
                self.results.parent_counts@,
                rows(self.tree@),
                self.results@.results,
            );
            assert(self.results@ =~= pruned(o.recorded, new_tree(ts, o.saved)));
        }
        self.rediscovery = Rediscovery { active: false, since: None };
        let mut line = numbered("✓ Found ", total, " tests (");
        let methods = count_text(tests.len());
        line.append(methods.as_str());
        line.append(" methods).");
        assert(line@ =~= found_text(ts));
        self.say(line);
        assert(self@ =~= rediscovered(o, ts));
    }

    /// The tests could not be found.
    pub fn on_rediscovery_failed(&mut self, reason: &str)
        requires
            old(self).wf(),
        ensures
            final(self).wf(),
            final(self)@ == rediscovery_failed(old(self)@, reason@),
    {
        self.rediscovery = Rediscovery { active: false, since: None };
        self.saved = None;
        self.say(concat("✗ Failed to discover tests: ", reason));
        assert(self@ =~= rediscovery_failed(old(self)@, reason@));
    }
}

/// Looking for the tests again keeps the checks: every leaf that was checked,
/// and is still there, is checked again, and no other.
pub proof fn law_rediscovery_keeps_the_checks(
    s: SessionView,
    now: u128,
    tests: Seq<DiscoveredTestView>,
    k: int,
)
    requires
        !s.rediscovery.active,
        0 <= k < flat_tree(tests).len(),
        flat_tree(tests)[k].is_leaf,
        flat_tree(tests)[k].fqn is Some,
    ensures
        ({
            let after = rediscovered(rediscovery_asked(s, now).0, tests);
            &&& after.tree.len() == flat_tree(tests).len()
            &&& after.tree[k].fqn == flat_tree(tests)[k].fqn
            &&& after.tree[k].is_selected <==> selected_keys(s.tree, s.tree.len() as int).contains(
                flat_tree(tests)[k].fqn->0,
            )
        }),
{
    let c = captured(s.tree);
    let t = flat_tree(tests);
    let u = restored_rows(t, c.selected, c.expanded);
    let asked = rediscovery_asked(s, now).0;
    assert(asked.saved == Some(c));
    lemma_synced_shape(u);
    assert(u[k] == restored_row(t, k, c.selected, c.expanded));
}

} // verus!
