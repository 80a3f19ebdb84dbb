//! The state of an interactive session, and how it answers to what a run
//! reports.

use vstd::prelude::*;

use crate::domain::selection::{all_tests, TreeState};
use crate::domain::tree::{parents_precede, rows, NodeView, TreeNode};
use crate::text::{opt_text, texts};
use crate::ui::churn::{elapsed_text, format_elapsed, total};
use crate::ui::config::{ConfigView, OutputMode, RunConfig, ViewMode};
use crate::ui::failed_tests::{failed_views, FailedTestInfo, FailedView};
use crate::ui::run_results::{lemma_rollups, rollups, ParentCounts, Recorded, RunResultsState};
use crate::ui::tally::{no_outcomes, Tally};

verus! {

// ---------------------------------------------------------------------------
// State
// ---------------------------------------------------------------------------
/// The process that runs the tests. Times are in nanoseconds of one clock.
#[derive(Clone, Copy, Debug, PartialEq, Eq, Structural)]
pub struct RunState {
    pub running: bool,
    /// What the process prints is still taken in.
    pub listening: bool,
    pub pid: Option<u32>,
    pub started: Option<u128>,
    pub tally: Tally,
}

#[derive(Clone, Copy, Debug, PartialEq, Eq, Structural)]
pub struct ChurnState {
    pub active: bool,
    pub iteration: usize,
    pub limit: Option<usize>,
    /// The iterations are run by the sidecar.
    pub sidecar: bool,
    pub successes: usize,
}

/// The overlay that lists the failed tests.
#[derive(Clone, Copy, Debug, PartialEq, Eq, Structural)]
pub struct FailurePane {
    pub shown: bool,
    pub help: bool,
    pub selection: usize,
    pub scroll: u16,
    pub cols: Option<u16>,
    /// The detail that the pointer is over, if it names a place in a file.
    pub hover: Option<usize>,
    /// The row of the screen that the details are held at while they are dragged.
    pub drag: Option<u16>,
}

#[derive(Clone, Copy, Debug, PartialEq, Eq, Structural)]
pub struct Popups {
    pub settings: bool,
    pub settings_cursor: usize,
    pub exit: bool,
    pub help: bool,
    /// The output fills the screen.
    pub fullscreen: bool,
    pub saving: bool,
    /// The field of the save dialog that is edited.
    pub save_field: usize,
    pub presets: bool,
    pub preset_cursor: usize,
}

#[derive(Clone, Copy, Debug, PartialEq, Eq, Structural)]
pub struct Rediscovery {
    pub active: bool,
    pub since: Option<u128>,
}

pub struct Session {
    pub tree: Vec<TreeNode>,
    pub config: RunConfig,
    /// The row of the list that is focused.
    pub cursor: Option<usize>,
    pub query: String,
    pub lines: Vec<String>,
    pub scroll: u16,
    /// The output is scrolled to its end as it grows.
    pub follow: bool,
    pub run: RunState,
    pub rediscovery: Rediscovery,
    /// What was selected and expanded when the tests were looked for again.
    pub saved: Option<TreeState>,
    pub churn: ChurnState,
    pub churn_filter: Option<String>,
    pub churn_target: Option<String>,
    pub durations: Vec<u128>,
    pub failed: Vec<FailedTestInfo>,
    pub failure: FailurePane,
    pub popups: Popups,
    pub preset_name: String,
    pub preset_tag: String,
    pub results: RunResultsState,
    /// The pane for the focused leaf is hidden until another is focused.
    pub results_hidden: bool,
    pub last_focus: Option<String>,
    pub tests_pane_rows: Option<u16>,
}

/// What is selected and expanded in a tree.
#[verifier::ext_equal]
pub struct TreeStateView {
    pub selected: Seq<Seq<char>>,
    pub expanded: Seq<Seq<char>>,
}

/// What a [`Session`] holds, as values.
#[verifier::ext_equal]
pub struct SessionView {
    pub tree: Seq<NodeView>,
    pub config: ConfigView,
    pub cursor: Option<usize>,
    pub query: Seq<char>,
    pub lines: Seq<Seq<char>>,
    pub scroll: u16,
    pub follow: bool,
    pub run: RunState,
    pub rediscovery: Rediscovery,
    pub saved: Option<TreeStateView>,
    pub churn: ChurnState,
    pub churn_filter: Option<Seq<char>>,
    pub churn_target: Option<Seq<char>>,
    pub durations: Seq<u128>,
    pub failed: Seq<FailedView>,
    pub failure: FailurePane,
    pub popups: Popups,
    pub preset_name: Seq<char>,
    pub preset_tag: Seq<char>,
    pub recorded: Recorded,
    pub counts: Map<usize, ParentCounts>,
    pub results_hidden: bool,
    pub last_focus: Option<Seq<char>>,
    pub tests_pane_rows: Option<u16>,
}

pub open spec fn opt_tree_state(s: Option<TreeState>) -> Option<TreeStateView> {
    match s {
        Some(s) => Some(
            TreeStateView { selected: texts(s.selected@), expanded: texts(s.expanded@) },
        ),
        None => None,
    }
}

impl View for Session {
    type V = SessionView;

    open spec fn view(&self) -> SessionView {
        SessionView {
            tree: rows(self.tree@),
            config: self.config@,
            cursor: self.cursor,
            query: self.query@,
            lines: texts(self.lines@),
            scroll: self.scroll,
            follow: self.follow,
            run: self.run,
            rediscovery: self.rediscovery,
            saved: opt_tree_state(self.saved),
            churn: self.churn,
            churn_filter: opt_text(self.churn_filter),
            churn_target: opt_text(self.churn_target),
            durations: self.durations@,
            failed: failed_views(self.failed@),
            failure: self.failure,
            popups: self.popups,
            preset_name: self.preset_name@,
            preset_tag: self.preset_tag@,
            recorded: self.results@,
            counts: self.results.parent_counts@,
            results_hidden: self.results_hidden,
            last_focus: opt_text(self.last_focus),
            tests_pane_rows: self.tests_pane_rows,
        }
    }
}

/// What holds of every state: the tree is in order, its tests can be counted,
/// and the durations can be added up.
pub open spec fn sound(s: SessionView) -> bool {
    &&& parents_precede(s.tree)
    &&& all_tests(s.tree) <= usize::MAX
    &&& total(s.durations) <= u128::MAX
}

impl Session {
    pub open spec fn wf(&self) -> bool {
        self.results.wf() && sound(self@)
    }
}

/// The state in which a session begins.
pub open spec fn opening(t: Seq<NodeView>, c: ConfigView, kept: Recorded) -> SessionView {
    SessionView {
        tree: t,
        config: c,
        cursor: Some(0),
        query: Seq::empty(),
        lines: Seq::empty(),
        scroll: 0,
        follow: true,
        run: RunState {
            running: false,
            listening: false,
            pid: None,
            started: None,
            tally: no_outcomes(),
        },
        rediscovery: Rediscovery { active: false, since: None },
        saved: None,
        churn: ChurnState {
            active: false,
            iteration: 0,
            limit: None,
            sidecar: false,
            successes: 0,
        },
        churn_filter: None,
        churn_target: None,
        durations: Seq::empty(),
        failed: Seq::empty(),
        failure: FailurePane {
            shown: false,
            help: false,
            selection: 0,
            scroll: 0,
            cols: c.failed_summary_list_pane_cols,
            hover: None,
            drag: None,
        },
        popups: Popups {
            settings: false,
            settings_cursor: 0,
            exit: false,
            help: false,
            fullscreen: false,
            saving: false,
            save_field: 0,
            presets: false,
            preset_cursor: 0,
        },
        preset_name: Seq::empty(),
        preset_tag: Seq::empty(),
        recorded: kept,
        counts: rollups(t, kept.results),
        results_hidden: false,
        last_focus: None,
        tests_pane_rows: c.tests_pane_rows,
    }
}

impl Session {
    /// Begins a session with the outcomes that were kept from the last one.
    pub fn new(tree: Vec<TreeNode>, config: RunConfig, kept: RunResultsState) -> (r: Self)
        requires
            kept.wf(),
            parents_precede(rows(tree@)),
            all_tests(rows(tree@)) <= usize::MAX,
        ensures
            r.wf(),
            r@ == opening(rows(tree@), config@, kept@),
    {
        let mut results = kept;
        results.recompute_rollups(tree.as_slice());
        proof {
            lemma_rollups(results.parent_counts@, rows(tree@), kept@.results);
        }
        let cols = config.failed_summary_list_pane_cols;
        let tests_pane_rows = config.tests_pane_rows;
        let s = Session {
            tree,
            config,
            cursor: Some(0),
            query: String::new(),
            lines: Vec::new(),
            scroll: 0,
            follow: true,
            run: RunState {
                running: false,
                listening: false,
                pid: None,
                started: None,
                tally: Tally::new(),
            },
            rediscovery: Rediscovery { active: false, since: None },
            saved: None,
            churn: ChurnState {
                active: false,
                iteration: 0,
                limit: None,
                sidecar: false,
                successes: 0,
            },
            churn_filter: None,
            churn_target: None,
            durations: Vec::new(),
            failed: Vec::new(),
            failure: FailurePane {
                shown: false,
                help: false,
                selection: 0,
                scroll: 0,
                cols,
                hover: None,
                drag: None,
            },
            popups: Popups {
                settings: false,
                settings_cursor: 0,
                exit: false,
                help: false,
                fullscreen: false,
                saving: false,
                save_field: 0,
                presets: false,
                preset_cursor: 0,
            },
            preset_name: String::new(),
            preset_tag: String::new(),
            results,
            results_hidden: false,
            last_focus: None,
            tests_pane_rows,
        };
        assert(s@ =~= opening(rows(tree@), config@, kept@));
        s
    }
}

// ---------------------------------------------------------------------------
// Small steps
// ---------------------------------------------------------------------------
/// A line more in the output.
pub open spec fn saying(s: SessionView, line: Seq<char>) -> SessionView {
    SessionView { lines: s.lines.push(line), ..s }
}

impl Session {
    pub fn say(&mut self, line: String)
        requires
            old(self).wf(),
        ensures
            final(self).wf(),
            final(self)@ == saying(old(self)@, line@),
    {
        let ghost o = texts(self.lines@);
        self.lines.push(line);
        assert(texts(self.lines@) =~= o.push(line@));
    }

    pub fn say_text(&mut self, line: &str)
        requires
            old(self).wf(),
        ensures
            final(self).wf(),
            final(self)@ == saying(old(self)@, line@),
    {
        self.say(line.to_owned());
    }
}

/// Churning is over.
pub open spec fn without_churn(s: SessionView) -> SessionView {
    SessionView {
        churn: ChurnState { active: false, limit: None, sidecar: false, ..s.churn },
        churn_filter: None,
        churn_target: None,
        ..s
    }
}

impl Session {
    pub fn end_churn(&mut self)
        requires
            old(self).wf(),
        ensures
            final(self).wf(),
            final(self)@ == without_churn(old(self)@),
    {
        self.churn.active = false;
        self.churn.limit = None;
        self.churn.sidecar = false;
        self.churn_filter = None;
        self.churn_target = None;
        assert(self@ =~= without_churn(old(self)@));
    }
}

/// The time that has passed on the clock, if it was started.
pub open spec fn elapsed(started: Option<u128>, now: u128) -> Option<u128> {
    match started {
        Some(t) => if now < t {
            Some(0)
        } else {
            Some((now - t) as u128)
        },
        None => None,
    }
}

pub fn time_since(started: Option<u128>, now: u128) -> (r: Option<u128>)
    ensures
        r == elapsed(started, now),
{
    match started {
        Some(t) => if now < t {
            Some(0)
        } else {
            Some(now - t)
        },
        None => None,
    }
}

/// The time that has passed, as it is shown; nothing if the clock was not
/// started.
pub open spec fn clock_text(started: Option<u128>, now: u128) -> Seq<char> {
    match elapsed(started, now) {
        Some(d) => elapsed_text(d),
        None => Seq::empty(),
    }
}

pub fn show_clock(started: Option<u128>, now: u128) -> (r: String)
    ensures
        r@ == clock_text(started, now),
{
    match time_since(started, now) {
        Some(d) => format_elapsed(d),
        None => String::new(),
    }
}

/// The summary of failures opens at the first of them.
pub open spec fn summary_opened(f: FailurePane) -> FailurePane {
    FailurePane { shown: true, selection: 0, scroll: 0, hover: None, ..f }
}

/// The output fills the screen while a run is shown live and the layout says so.
pub open spec fn fills_screen(c: ConfigView) -> bool {
    c.view_mode == ViewMode::LiveOutput && c.output_mode == OutputMode::Fullscreen
}

impl RunConfig {
    pub fn fills_screen(&self) -> (r: bool)
        ensures
            r == fills_screen(self@),
    {
        self.view_mode == ViewMode::LiveOutput && self.output_mode == OutputMode::Fullscreen
    }
}

// ---------------------------------------------------------------------------
// The end
// ---------------------------------------------------------------------------
/// The settings with the sizes of the panes that were used last.
pub open spec fn closing_config(s: SessionView) -> ConfigView {
    ConfigView {
        tests_pane_rows: s.tests_pane_rows,
        failed_summary_list_pane_cols: s.failure.cols,
        ..s.config
    }
}

impl Session {
    /// Takes the sizes of the panes over into the settings, and says whether
    /// that changed them.
    pub fn close(&mut self) -> (r: bool)
        requires
            old(self).wf(),
        ensures
            final(self).wf(),
            final(self)@ == (SessionView { config: closing_config(old(self)@), ..old(self)@ }),
            r == (closing_config(old(self)@) != old(self)@.config),
    {
        let ghost o = self@;
        let changed = self.config.tests_pane_rows != self.tests_pane_rows
            || self.config.failed_summary_list_pane_cols != self.failure.cols;
        self.config.tests_pane_rows = self.tests_pane_rows;
        self.config.failed_summary_list_pane_cols = self.failure.cols;
        assert(self@ =~= SessionView { config: closing_config(o), ..o });
        proof {
            if !changed {
                assert(closing_config(o) =~= o.config);
            }
        }
        changed
    }
}

} // verus!
