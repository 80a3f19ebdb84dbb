//! Starting runs of the checked tests, of presets and of failed tests, and
//! churning.

use vstd::prelude::*;

use crate::domain::selection::{count_tests, selected_tests};
use crate::domain::tree::{parents_precede, NodeView};
use crate::numerals::decimal;
use crate::text::concat;
use crate::ui::actions::{Action, ActionView, SidecarPlan, SidecarPlanView};
use crate::ui::churn::{banner_text, iteration_banner, total, QUICK_CHURN_LIMIT};
use crate::ui::config::{ConfigView, Verbosity};
use crate::ui::filter::{
    build_filter, build_selected_run_request, parents_exist, run_request, selection_filter,
    RequestView, SelectedRunRequest,
};
use crate::ui::output::{RunRequest, RunRequestView};
use crate::ui::run_events::{after_finish, after_line, numbered, saying_all};
use crate::ui::run_results::Recorded;
use crate::ui::session::{saying, ChurnState, FailurePane, Session, SessionView};

verus! {

// ---------------------------------------------------------------------------
// Runs
// ---------------------------------------------------------------------------
/// The output, the failures and the outcomes of the run before are forgotten.
pub open spec fn cleared(s: SessionView) -> SessionView {
    SessionView {
        lines: Seq::empty(),
        scroll: 0,
        follow: true,
        failed: Seq::empty(),
        failure: FailurePane { shown: false, selection: 0, scroll: 0, ..s.failure },
        recorded: Recorded { results: Map::empty(), pending: None },
        counts: Map::empty(),
        results_hidden: false,
        ..s
    }
}

/// A run by a filter, as the settings say.
pub open spec fn settings_request(c: ConfigView, filter: Seq<char>) -> RunRequestView {
    RunRequestView {
        filter: Some(filter),
        target_path: None,
        no_build: c.no_build,
        no_restore: c.no_restore,
        verbosity: c.verbosity,
    }
}

/// A run is asked for, under a heading.
pub open spec fn launched(s: SessionView, filter: Seq<char>, heading: Seq<char>) -> (
    SessionView,
    ActionView,
) {
    (
        saying_all(cleared(s), seq![heading, Seq::empty()]),
        ActionView::StartRun(settings_request(s.config, filter)),
    )
}

pub open spec fn heading_text(before: Seq<char>, n: nat, after: Seq<char>) -> Seq<char> {
    "━━━ "@ + before + decimal(n) + after + " ━━━"@
}

pub fn heading(before: &str, n: usize, after: &str) -> (r: String)
    ensures
        r@ == heading_text(before@, n as nat, after@),
{
    let mut s = concat("━━━ ", numbered(before, n, after).as_str());
    s.append(" ━━━");
    assert(s@ =~= heading_text(before@, n as nat, after@));
    s
}

impl Session {
    fn clear_run(&mut self)
        requires
            old(self).wf(),
        ensures
            final(self).wf(),
            final(self)@ == cleared(old(self)@),
    {
        self.lines = Vec::new();
        self.scroll = 0;
        self.follow = true;
        self.failed = Vec::new();
        self.failure.shown = false;
        self.failure.selection = 0;
        self.failure.scroll = 0;
        self.results.clear();
        self.results_hidden = false;
        assert(self@ =~= cleared(old(self)@));
    }

    pub fn launch(&mut self, filter: String, heading: String) -> (r: Action)
        requires
            old(self).wf(),
        ensures
            final(self).wf(),
            (final(self)@, r@) == launched(old(self)@, filter@, heading@),
    {
        self.clear_run();
        self.say(heading);
        self.say(String::new());
        let request = RunRequest {
            filter: Some(filter),
            target_path: None,
            no_build: self.config.no_build,
            no_restore: self.config.no_restore,
            verbosity: self.config.verbosity,
        };
        assert(request@ =~= settings_request(old(self)@.config, filter@));
        assert(self@ =~= saying_all(cleared(old(self)@), seq![heading@, Seq::empty()]));
        Action::StartRun(request)
    }
}

/// A run of the checked tests.
pub open spec fn checked_run(s: SessionView) -> (SessionView, ActionView) {
    match selection_filter(s.tree) {
        Some(filter) => launched(
            SessionView { failure: FailurePane { hover: None, ..s.failure }, ..s },
            filter,
            heading_text("Running "@, selected_tests(s.tree), " selected test(s)…"@),
        ),
        None => (s, ActionView::Nothing),
    }
}

/// A source file has changed: the checked tests run again, unless something
/// else is going on.
pub open spec fn watch_fired(s: SessionView) -> (SessionView, ActionView) {
    if !s.config.manual_watch_enabled || s.run.running || s.popups.settings || s.popups.help
        || s.popups.saving || s.popups.presets {
        (s, ActionView::Nothing)
    } else {
        let q = if s.failure.shown {
            SessionView {
                failure: FailurePane { shown: false, help: false, hover: None, ..s.failure },
                ..s
            }
        } else {
            s
        };
        match selection_filter(q.tree) {
            None => (saying(q, NOTHING_CHECKED@), ActionView::Nothing),
            Some(filter) => launched(
                SessionView { failure: FailurePane { hover: None, ..q.failure }, ..q },
                filter,
                heading_text(
                    "Manual watch: re-running "@,
                    selected_tests(q.tree),
                    " checked test(s)…"@,
                ),
            ),
        }
    }
}

pub const NOTHING_CHECKED: &'static str = "👀 Manual watch: a `.cs` file changed, but no tests are checked. Use Space to check tests, or turn off Manual watch in Settings (Ctrl+P).";

impl Session {
    /// Runs the checked tests, if there are any.
    pub fn run_checked(&mut self) -> (r: Action)
        requires
            old(self).wf(),
        ensures
            final(self).wf(),
            (final(self)@, r@) == checked_run(old(self)@),
    {
        proof {
            lemma_parents_exist(self@.tree);
        }
        match build_filter(self.tree.as_slice()) {
            Some(filter) => {
                let n: usize = count_tests(self.tree.as_slice(), true);
                self.failure.hover = None;
                assert(self@ =~= SessionView {
                    failure: FailurePane { hover: None, ..old(self)@.failure },
                    ..old(self)@
                });
                self.launch(filter, heading("Running ", n, " selected test(s)…"))
            },
            None => Action::Nothing,
        }
    }

    /// A source file has changed.
    pub fn on_watch_fired(&mut self) -> (r: Action)
        requires
            old(self).wf(),
        ensures
            final(self).wf(),
            (final(self)@, r@) == watch_fired(old(self)@),
    {
        if !self.config.manual_watch_enabled || self.run.running || self.popups.settings
            || self.popups.help || self.popups.saving || self.popups.presets {
            return Action::Nothing;
        }
        if self.failure.shown {
            self.failure.shown = false;
            self.failure.help = false;
            self.failure.hover = None;
        }
        let ghost q = if old(self)@.failure.shown {
            SessionView {
                failure: FailurePane {
                    shown: false,
                    help: false,
                    hover: None,
                    ..old(self)@.failure
                },
                ..old(self)@
            }
        } else {
            old(self)@
        };
        proof {
            assert(self@ =~= q);
            lemma_parents_exist(self@.tree);
        }
        match build_filter(self.tree.as_slice()) {
            Some(filter) => {
                let n: usize = count_tests(self.tree.as_slice(), true);
                self.failure.hover = None;
                assert(self@ =~= SessionView {
                    failure: FailurePane { hover: None, ..q.failure },
                    ..q
                });
                self.launch(filter, heading("Manual watch: re-running ", n, " checked test(s)…"))
            },
            None => {
                self.say_text(NOTHING_CHECKED);
                Action::Nothing
            },
        }
    }
}

pub proof fn lemma_parents_exist(t: Seq<NodeView>)
    requires
        parents_precede(t),
    ensures
        parents_exist(t),
{
}

// ---------------------------------------------------------------------------
// Churning
// ---------------------------------------------------------------------------
/// A churn begins: everything is forgotten, and the output says what is run and
/// how often.
pub open spec fn churn_begun(s: SessionView, quick: bool, request: RequestView) -> SessionView {
    let c = cleared(s);
    let limit = if quick {
        Some(QUICK_CHURN_LIMIT)
    } else {
        None
    };
    SessionView {
        lines: seq![
            heading_text("Churning "@, selected_tests(s.tree), " selected test(s) until failure…"@),
        ] + (if quick {
            seq![
                "  Iteration limit: "@ + decimal(QUICK_CHURN_LIMIT as nat) + " (quick churn mode)"@,
            ]
        } else {
            seq![]
        }) + seq![banner_text(1, "↻ Starting"@), Seq::empty()],
        failure: FailurePane { hover: None, ..c.failure },
        churn: ChurnState {
            active: true,
            iteration: 1,
            limit,
            sidecar: request.target_path is Some,
            successes: 0,
        },
        churn_filter: if request.target_path is Some {
            None
        } else {
            Some(request.filter)
        },
        churn_target: request.target_path,
        durations: Seq::empty(),
        ..c
    }
}

/// What is asked for: the sidecar, where all tests are of one project; else a
/// first iteration with little output.
pub open spec fn churn_action(s: SessionView, quick: bool, request: RequestView) -> ActionView {
    match request.target_path {
        Some(target_path) => ActionView::StartSidecar(
            SidecarPlanView {
                target_path,
                filter: request.sidecar_filter,
                test_names: request.test_names,
                iteration_limit: if quick {
                    Some(QUICK_CHURN_LIMIT)
                } else {
                    None
                },
                no_build: s.config.no_build,
                no_restore: s.config.no_restore,
            },
        ),
        None => ActionView::StartChurn(
            RunRequestView {
                verbosity: Verbosity::Minimal,
                ..settings_request(s.config, request.filter)
            },
        ),
    }
}

pub open spec fn churn_asked(s: SessionView, quick: bool) -> (SessionView, ActionView) {
    match run_request(s.tree) {
        Some(request) => (churn_begun(s, quick, request), churn_action(s, quick, request)),
        None => (
            saying(s, "⚠ Select at least one test before starting churn (Ctrl+U)."@),
            ActionView::Nothing,
        ),
    }
}

impl Session {
    fn begin_churn(&mut self, quick: bool, request: &SelectedRunRequest)
        requires
            old(self).wf(),
        ensures
            final(self).wf(),
            final(self)@ == churn_begun(old(self)@, quick, request@),
    {
        let n: usize = count_tests(self.tree.as_slice(), true);
        self.clear_run();
        self.failure.hover = None;
        self.churn = ChurnState {
            active: true,
            iteration: 1,
            limit: if quick {
                Some(QUICK_CHURN_LIMIT)
            } else {
                None
            },
            sidecar: request.target_path.is_some(),
            successes: 0,
        };
        self.churn_filter = if request.target_path.is_some() {
            None
        } else {
            Some(request.filter.clone())
        };
        self.churn_target = match &request.target_path {
            Some(t) => Some(t.clone()),
            None => None,
        };
        self.durations = Vec::new();
        assert(total(self.durations@) == 0);
        self.say(heading("Churning ", n, " selected test(s) until failure…"));
        if quick {
            self.say(numbered("  Iteration limit: ", QUICK_CHURN_LIMIT, " (quick churn mode)"));
        }
        self.say(iteration_banner(1, "↻ Starting"));
        self.say(String::new());
        assert(self@.lines =~= churn_begun(old(self)@, quick, request@).lines);
        assert(self@ =~= churn_begun(old(self)@, quick, request@));
    }

    /// Begins to churn the checked tests; quickly, with a limit.
    pub fn start_churn(&mut self, quick: bool) -> (r: Action)
        requires
            old(self).wf(),
        ensures
            final(self).wf(),
            (final(self)@, r@) == churn_asked(old(self)@, quick),
    {
        proof {
            lemma_parents_exist(self@.tree);
        }
        match build_selected_run_request(self.tree.as_slice()) {
            None => {
                self.say_text("⚠ Select at least one test before starting churn (Ctrl+U).");
                Action::Nothing
            },
            Some(request) => {
                self.begin_churn(quick, &request);
                let SelectedRunRequest { filter, sidecar_filter, target_path, test_names } =
                    request;
                match target_path {
                    Some(target_path) => Action::StartSidecar(
                        SidecarPlan {
                            target_path,
                            filter: sidecar_filter,
                            test_names,
                            iteration_limit: if quick {
                                Some(QUICK_CHURN_LIMIT)
                            } else {
                                None
                            },
                            no_build: self.config.no_build,
                            no_restore: self.config.no_restore,
                        },
                    ),
                    None => Action::StartChurn(
                        RunRequest {
                            filter: Some(filter),
                            target_path: None,
                            no_build: self.config.no_build,
                            no_restore: self.config.no_restore,
                            verbosity: Verbosity::Minimal,
                        },
                    ),
                }
            },
        }
    }
}

/// The iterations of a churn are counted right: each but the running one has
/// passed, and there are no more than the limit allows.
pub open spec fn churn_in_step(c: ChurnState) -> bool {
    c.active && !c.sidecar ==> {
        &&& c.iteration == c.successes + 1
        &&& c.limit matches Some(limit) ==> c.iteration <= limit
    }
}

/// A churn runs no more iterations than its limit, and a quick one no more than
/// the quick limit: what starts it, every line and every end of an iteration
/// keep the count right.
pub proof fn law_churn_keeps_to_its_limit(
    s: SessionView,
    quick: bool,
    line: Seq<char>,
    lower: Seq<char>,
    code: Option<i32>,
    now: u128,
)
    requires
        churn_in_step(s.churn),
        s.churn.successes < usize::MAX,
        s.churn.iteration < usize::MAX,
    ensures
        churn_in_step(churn_asked(s, quick).0.churn),
        churn_asked(s, quick).0.churn.active && quick && run_request(s.tree) is Some
            ==> churn_asked(s, quick).0.churn.limit == Some(QUICK_CHURN_LIMIT),
        churn_in_step(after_line(s, line, lower, now).churn),
        churn_in_step(after_finish(s, code, now).0.churn),
        after_finish(s, code, now).1 is NextIteration ==> after_finish(s, code, now).0.churn.limit
            == s.churn.limit,
{
}

} // verus!
