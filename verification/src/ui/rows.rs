//! What is written on the screen, and in which style.

use vstd::prelude::*;

use crate::domain::tree::{NodeView, TreeNode};
use crate::numerals::{count_text, decimal, decimal_of};
use crate::text::{concat, joined, repeat, repeated, texts};
use crate::ui::config::{
    ConfigView, OutputMode, PresetView, RunConfig, TestPreset, Verbosity, ViewMode,
};
use crate::ui::leaf_results::{LeafResultView, LeafStatus};
use crate::ui::run_events::numbered;
use crate::ui::run_results::{suffix_parts, ParentCounts};
use crate::ui::session::{clock_text, show_clock, Session, SessionView};
use crate::ui::tally::{adds_up, Tally};

verus! {

broadcast use vstd::std_specs::hash::group_hash_axioms;

// ---------------------------------------------------------------------------
// Rows of the tree
// ---------------------------------------------------------------------------
/// The mark of an outcome.
pub open spec fn status_mark(status: LeafStatus) -> Seq<char> {
    match status {
        LeafStatus::Passed => "  ✓"@,
        LeafStatus::Failed => "  ✗"@,
        LeafStatus::Skipped => "  ⚠"@,
    }
}

/// The outcome of the leaf, if it has one.
pub open spec fn leaf_status(
    n: NodeView,
    results: Map<Seq<char>, LeafResultView>,
) -> Option<LeafStatus> {
    match n.fqn {
        Some(f) => if results.dom().contains(f) {
            Some(results[f].status)
        } else {
            None
        },
        None => None,
    }
}

pub open spec fn counts_suffix(c: ParentCounts) -> Seq<char> {
    if suffix_parts(c).len() == 0 {
        Seq::empty()
    } else {
        "  "@ + joined(suffix_parts(c), " "@)
    }
}

/// What stands behind the label where results are shown: the mark of a leaf's
/// outcome, or a folder's counts.
pub open spec fn result_suffix(s: SessionView, i: int) -> Seq<char> {
    let n = s.tree[i];
    if s.config.view_mode != ViewMode::Results {
        Seq::empty()
    } else if n.is_leaf {
        match leaf_status(n, s.recorded.results) {
            Some(status) => status_mark(status),
            None => Seq::empty(),
        }
    } else if s.counts.dom().contains(i as usize) {
        counts_suffix(s.counts[i as usize])
    } else {
        Seq::empty()
    }
}

/// The arrow of a folder.
pub open spec fn fold_mark(n: NodeView) -> Seq<char> {
    if n.is_leaf {
        "  "@
    } else if n.is_expanded {
        "▼ "@
    } else {
        "▶ "@
    }
}

/// The check box.
pub open spec fn check_mark(n: NodeView) -> Seq<char> {
    if n.is_selected {
        "[x] "@
    } else if n.is_partial {
        "[~] "@
    } else {
        "[ ] "@
    }
}

/// Row `i` of the tree as it is written.
pub open spec fn row_text(s: SessionView, i: int) -> Seq<char> {
    let n = s.tree[i];
    repeated("  "@, n.depth) + fold_mark(n) + check_mark(n) + n.label + result_suffix(s, i)
}

/// How a row is colored.
#[derive(Clone, Copy, Debug, PartialEq, Eq, Structural)]
pub enum RowStyle {
    /// The focused row.
    Focused,
    Passed,
    Failed,
    Skipped,
    /// A folder with a failure below it.
    FolderFailed,
    FolderPassed,
    FolderSkipped,
    /// A folder at the top.
    TopFolder,
    Folder,
    /// A checked leaf.
    Checked,
    Plain,
}

pub open spec fn folder_style(n: NodeView) -> RowStyle {
    if n.depth == 0 {
        RowStyle::TopFolder
    } else {
        RowStyle::Folder
    }
}

/// The style of a leaf without an outcome.
pub open spec fn open_leaf_style(n: NodeView) -> RowStyle {
    if n.is_selected {
        RowStyle::Checked
    } else {
        RowStyle::Plain
    }
}

/// The style of a row that is not focused, while outcomes are shown.
pub open spec fn result_style(s: SessionView, i: int) -> RowStyle {
    let n = s.tree[i];
    if n.is_leaf {
        match leaf_status(n, s.recorded.results) {
            Some(LeafStatus::Passed) => RowStyle::Passed,
            Some(LeafStatus::Failed) => RowStyle::Failed,
            Some(LeafStatus::Skipped) => RowStyle::Skipped,
            None => open_leaf_style(n),
        }
    } else if s.counts.dom().contains(i as usize) {
        let c = s.counts[i as usize];
        if c.failed > 0 {
            RowStyle::FolderFailed
        } else if c.passed > 0 {
            RowStyle::FolderPassed
        } else if c.skipped > 0 {
            RowStyle::FolderSkipped
        } else {
            folder_style(n)
        }
    } else {
        folder_style(n)
    }
}

/// The style of row `i` of the tree, in place `place` of the list.
pub open spec fn row_style(s: SessionView, i: int, place: usize) -> RowStyle {
    let n = s.tree[i];
    if s.cursor == Some(place) {
        RowStyle::Focused
    } else if s.config.view_mode == ViewMode::Results && s.recorded.results != Map::<
        Seq<char>,
        LeafResultView,
    >::empty() {
        result_style(s, i)
    } else if !n.is_leaf {
        folder_style(n)
    } else {
        open_leaf_style(n)
    }
}

/// A checked leaf keeps its style until it has an outcome that is shown.
pub proof fn law_checked_leaves_keep_their_style(s: SessionView, i: int, place: usize)
    requires
        s.tree[i].is_leaf,
        s.tree[i].is_selected,
        s.cursor != Some(place),
        leaf_status(s.tree[i], s.recorded.results) is None,
    ensures
        row_style(s, i, place) == RowStyle::Checked,
{
}

impl Session {
    fn status_of(&self, node: &TreeNode) -> (r: Option<LeafStatus>)
        requires
            self.wf(),
        ensures
            r == leaf_status(node@, self@.recorded.results),
    {
        match &node.fqn {
            Some(f) => match self.results.get(f.as_str()) {
                Some(result) => Some(result.status),
                None => None,
            },
            None => None,
        }
    }

    fn suffix_of(&self, i: usize) -> (r: String)
        requires
            self.wf(),
            i < self@.tree.len(),
        ensures
            r@ == result_suffix(self@, i as int),
    {
        let node = &self.tree[i];
        assert(self@.tree[i as int] == node@);
        if self.config.view_mode != ViewMode::Results {
            String::new()
        } else if node.is_leaf {
            match self.status_of(node) {
                Some(LeafStatus::Passed) => "  ✓".to_owned(),
                Some(LeafStatus::Failed) => "  ✗".to_owned(),
                Some(LeafStatus::Skipped) => "  ⚠".to_owned(),
                None => String::new(),
            }
        } else {
            match self.results.parent_counts.get(&i) {
                Some(counts) => counts.format_suffix(),
                None => String::new(),
            }
        }
    }

    /// Row `i` of the tree as it is written.
    pub fn show_row(&self, i: usize) -> (r: String)
        requires
            self.wf(),
            i < self@.tree.len(),
        ensures
            r@ == row_text(self@, i as int),
    {
        let node = &self.tree[i];
        assert(self@.tree[i as int] == node@);
        let mut s = repeat("  ", node.depth);
        s.append(
            if node.is_leaf {
                "  "
            } else if node.is_expanded {
                "▼ "
            } else {
                "▶ "
            },
        );
        s.append(
            if node.is_selected {
                "[x] "
            } else if node.is_partial {
                "[~] "
            } else {
                "[ ] "
            },
        );
        s.append(node.label.as_str());
        let suffix = self.suffix_of(i);
        s.append(suffix.as_str());
        s
    }

    /// The style of row `i` of the tree, in place `place` of the list.
    pub fn style_row(&self, i: usize, place: usize) -> (r: RowStyle)
        requires
            self.wf(),
            i < self@.tree.len(),
        ensures
            r == row_style(self@, i as int, place),
    {
        let node = &self.tree[i];
        assert(self@.tree[i as int] == node@);
        let focused = match self.cursor {
            Some(c) => c == place,
            None => false,
        };
        let folder = if node.depth == 0 {
            RowStyle::TopFolder
        } else {
            RowStyle::Folder
        };
        let open = if node.is_selected {
            RowStyle::Checked
        } else {
            RowStyle::Plain
        };
        if focused {
            RowStyle::Focused
        } else if self.config.view_mode == ViewMode::Results && !self.results.is_empty() {
            if node.is_leaf {
                match self.status_of(node) {
                    Some(LeafStatus::Passed) => RowStyle::Passed,
                    Some(LeafStatus::Failed) => RowStyle::Failed,
                    Some(LeafStatus::Skipped) => RowStyle::Skipped,
                    None => open,
                }
            } else {
                match self.results.parent_counts.get(&i) {
                    Some(c) => if c.failed > 0 {
                        RowStyle::FolderFailed
                    } else if c.passed > 0 {
                        RowStyle::FolderPassed
                    } else if c.skipped > 0 {
                        RowStyle::FolderSkipped
                    } else {
                        folder
                    },
                    None => folder,
                }
            }
        } else if !node.is_leaf {
            folder
        } else {
            open
        }
    }
}

// ---------------------------------------------------------------------------
// Titles
// ---------------------------------------------------------------------------
pub open spec fn tests_title(selected: nat, all: nat) -> Seq<char> {
    " Tests ("@ + decimal(selected) + "/"@ + decimal(all) + ") "@
}

pub fn show_tests_title(selected: usize, all: usize) -> (r: String)
    ensures
        r@ == tests_title(selected as nat, all as nat),
{
    let mut s = numbered(" Tests (", selected, "/");
    let total = count_text(all);
    s.append(total.as_str());
    s.append(") ");
    s
}

/// The three counts, with `gap` between them.
pub open spec fn counts_text(c: Tally, gap: Seq<char>) -> Seq<char> {
    "✓:"@ + decimal(c.passed as nat) + gap + "✗:"@ + decimal(c.failed as nat) + gap + "⚠:"@
        + decimal(c.skipped as nat)
}

fn show_counts(c: Tally, gap: &str) -> (r: String)
    ensures
        r@ == counts_text(c, gap@),
{
    let mut s = numbered("✓:", c.passed, gap);
    let failed = numbered("✗:", c.failed, gap);
    s.append(failed.as_str());
    let skipped = concat("⚠:", count_text(c.skipped).as_str());
    s.append(skipped.as_str());
    assert(s@ =~= counts_text(c, gap@));
    s
}

pub open spec fn follow_mark(follow: bool) -> Seq<char> {
    if follow {
        "[follow]"@
    } else {
        "[scroll]"@
    }
}

fn show_follow(follow: bool) -> (r: String)
    ensures
        r@ == follow_mark(follow),
{
    if follow {
        "[follow]".to_owned()
    } else {
        "[scroll]".to_owned()
    }
}

/// The title of the output of a run, whatever it is doing.
pub open spec fn run_title(s: SessionView, doing: Seq<char>) -> Seq<char> {
    " Output ("@ + doing + ") "@ + follow_mark(s.follow) + "  |  "@ + counts_text(
        s.run.tally,
        "  "@,
    ) + " "@
}

/// The word for the outcome of the focused leaf.
pub open spec fn focus_word(s: SessionView) -> Seq<char> {
    match s.last_focus {
        Some(key) => if s.recorded.results.dom().contains(key) {
            match s.recorded.results[key].status {
                LeafStatus::Passed => "Passed"@,
                LeafStatus::Failed => "Failed"@,
                LeafStatus::Skipped => "Skipped"@,
            }
        } else {
            "Result"@
        },
        None => "Result"@,
    }
}

pub open spec fn limit_suffix(limit: Option<usize>, none: Seq<char>) -> Seq<char> {
    match limit {
        Some(n) => "/"@ + decimal(n as nat),
        None => none,
    }
}

/// The title of the output pane.
pub open spec fn output_title(s: SessionView, now: u128) -> Seq<char> {
    let clock = clock_text(s.run.started, now);
    if s.config.view_mode == ViewMode::Results {
        " Result ("@ + focus_word(s) + ") — "@ + (match s.last_focus {
            Some(key) => key,
            None => "test"@,
        }) + " "@
    } else if s.rediscovery.active {
        " Output (Rediscovering... "@ + clock_text(s.rediscovery.since, now) + ") [follow] "@
    } else if s.run.running && s.churn.active {
        run_title(
            s,
            "Churning "@ + decimal(s.churn.iteration as nat) + limit_suffix(
                s.churn.limit,
                Seq::empty(),
            ) + "... "@ + clock,
        )
    } else if s.run.running {
        run_title(s, "Running... "@ + clock)
    } else {
        run_title(
            s,
            "Done - "@ + decimal(
                (s.run.tally.passed + s.run.tally.failed + s.run.tally.skipped) as nat,
            ) + " total"@,
        )
    }
}

fn show_limit(limit: Option<usize>, none: &str) -> (r: String)
    ensures
        r@ == limit_suffix(limit, none@),
{
    match limit {
        Some(n) => concat("/", count_text(n).as_str()),
        None => none.to_owned(),
    }
}

/// The outcomes are added up in the title: a run is over, and its output shown.
pub open spec fn title_adds_up(s: SessionView) -> bool {
    s.config.view_mode == ViewMode::LiveOutput && !s.rediscovery.active && !s.run.running
}

impl Session {
    /// Whether the numbers in the title of the output pane can be added up.
    pub fn title_fits(&self) -> (r: bool)
        ensures
            r == (title_adds_up(self@) ==> adds_up(self@.run.tally)),
    {
        self.config.view_mode != ViewMode::LiveOutput || self.rediscovery.active
            || self.run.running || self.run.tally.sum().is_some()
    }

    fn show_focus_word(&self) -> (r: String)
        requires
            self.wf(),
        ensures
            r@ == focus_word(self@),
    {
        match &self.last_focus {
            Some(key) => match self.results.get(key.as_str()) {
                Some(result) => match result.status {
                    LeafStatus::Passed => "Passed".to_owned(),
                    LeafStatus::Failed => "Failed".to_owned(),
                    LeafStatus::Skipped => "Skipped".to_owned(),
                },
                None => "Result".to_owned(),
            },
            None => "Result".to_owned(),
        }
    }

    fn show_run_title(&self, doing: &str) -> (r: String)
        ensures
            r@ == run_title(self@, doing@),
    {
        let mut s = concat(" Output (", doing);
        s.append(") ");
        let follow = show_follow(self.follow);
        s.append(follow.as_str());
        s.append("  |  ");
        let counts = show_counts(self.run.tally, "  ");
        s.append(counts.as_str());
        s.append(" ");
        s
    }

    /// The title of the output pane.
    pub fn show_output_title(&self, now: u128) -> (r: String)
        requires
            self.wf(),
            title_adds_up(self@) ==> adds_up(self@.run.tally),
        ensures
            r@ == output_title(self@, now),
    {
        let clock = show_clock(self.run.started, now);
        if self.config.view_mode == ViewMode::Results {
            let mut s = concat(" Result (", self.show_focus_word().as_str());
            s.append(") — ");
            match &self.last_focus {
                Some(key) => {
                    s.append(key.as_str());
                },
                None => {
                    s.append("test");
                },
            }
            s.append(" ");
            s
        } else if self.rediscovery.active {
            let mut s = concat(
                " Output (Rediscovering... ",
                show_clock(self.rediscovery.since, now).as_str(),
            );
            s.append(") [follow] ");
            s
        } else if self.run.running && self.churn.active {
            let mut doing = concat("Churning ", count_text(self.churn.iteration).as_str());
            let none = String::new();
            let limit = show_limit(self.churn.limit, none.as_str());
            assert(none@ =~= Seq::<char>::empty());
            doing.append(limit.as_str());
            doing.append("... ");
            doing.append(clock.as_str());
            self.show_run_title(doing.as_str())
        } else if self.run.running {
            self.show_run_title(concat("Running... ", clock.as_str()).as_str())
        } else {
            let c = self.run.tally;
            let doing = numbered("Done - ", c.passed + c.failed + c.skipped, " total");
            self.show_run_title(doing.as_str())
        }
    }
}

// ---------------------------------------------------------------------------
// The status line
// ---------------------------------------------------------------------------
pub open spec fn watch_hint(c: ConfigView) -> Seq<char> {
    if c.manual_watch_enabled {
        "  ● WATCH ON "@
    } else {
        Seq::empty()
    }
}

pub open spec fn view_hint(c: ConfigView) -> Seq<char> {
    match c.view_mode {
        ViewMode::Results => "  View: Results"@,
        ViewMode::LiveOutput => "  View: Live"@,
    }
}

pub open spec fn nav_hint(c: ConfigView) -> Seq<char> {
    match c.view_mode {
        ViewMode::Results => "  ←/→: expand"@,
        ViewMode::LiveOutput => Seq::empty(),
    }
}

pub open spec fn status_text(s: SessionView, now: u128) -> Seq<char> {
    let clock = clock_text(s.run.started, now);
    let hints = watch_hint(s.config) + view_hint(s.config);
    let counts = counts_text(s.run.tally, " "@);
    if s.popups.fullscreen && s.run.running {
        " Fullscreen output... "@ + clock
            + "  |  PgUp/PgDn/Home/End/mouse: scroll  Ctrl+E: failed summary  Esc: cancel run"@
            + hints
    } else if s.popups.fullscreen {
        " Fullscreen output  |  PgUp/PgDn/Home/End/mouse: scroll  Esc: back to tree"@ + hints
    } else if s.query.len() > 0 {
        " Search: "@ + s.query + "  |  Esc: clear  Enter: run  ?: help"@ + hints
    } else if s.run.running && s.churn.active {
        " Churning iteration "@ + decimal(s.churn.iteration as nat) + limit_suffix(
            s.churn.limit,
            "/∞"@,
        ) + "... "@ + clock + "  |  "@ + counts + nav_hint(s.config)
            + "  Ctrl+E: failed summary  Esc: stop"@ + hints
    } else if s.run.running {
        " Running... "@ + clock + "  |  "@ + counts + nav_hint(s.config)
            + "  Ctrl+E: failed summary  Esc: cancel"@ + hints
    } else if s.rediscovery.active {
        " Rediscovering tests... "@ + clock_text(s.rediscovery.since, now)
            + "  |  UI remains responsive"@ + hints
    } else {
        " Arrows: nav  Space: toggle  Enter: run  Ctrl+U: churn  Ctrl+V: view  Ctrl+X: clear results "@
            + hints + "  Ctrl+S: preset  Ctrl+L: presets  Ctrl+E: failed "@
            + " ?: help  Esc: quit "@
    }
}

impl Session {
    fn show_hints(&self) -> (r: String)
        ensures
            r@ == watch_hint(self@.config) + view_hint(self@.config),
    {
        let mut s = if self.config.manual_watch_enabled {
            "  ● WATCH ON ".to_owned()
        } else {
            String::new()
        };
        match self.config.view_mode {
            ViewMode::Results => {
                s.append("  View: Results");
            },
            ViewMode::LiveOutput => {
                s.append("  View: Live");
            },
        }
        s
    }

    fn show_progress(&self, clock: &str) -> (r: String)
        ensures
            r@ == clock@ + "  |  "@ + counts_text(self@.run.tally, " "@) + nav_hint(self@.config),
    {
        let mut s = concat(clock, "  |  ");
        let counts = show_counts(self.run.tally, " ");
        s.append(counts.as_str());
        match self.config.view_mode {
            ViewMode::Results => {
                s.append("  ←/→: expand");
            },
            ViewMode::LiveOutput => {},
        }
        assert(s@ =~= clock@ + "  |  "@ + counts_text(self@.run.tally, " "@) + nav_hint(
            self@.config,
        ));
        s
    }

    /// The text of the status line.
    pub fn show_status(&self, now: u128) -> (r: String)
        ensures
            r@ == status_text(self@, now),
    {
        let clock = show_clock(self.run.started, now);
        let hints = self.show_hints();
        let mut s = String::new();
        if self.popups.fullscreen && self.run.running {
            s.append(" Fullscreen output... ");
            s.append(clock.as_str());
            s.append(
                "  |  PgUp/PgDn/Home/End/mouse: scroll  Ctrl+E: failed summary  Esc: cancel run",
            );
            s.append(hints.as_str());
        } else if self.popups.fullscreen {
            s.append(
                " Fullscreen output  |  PgUp/PgDn/Home/End/mouse: scroll  Esc: back to tree",
            );
            s.append(hints.as_str());
        } else if !self.query.as_str().is_empty() {
            s.append(" Search: ");
            s.append(self.query.as_str());
            s.append("  |  Esc: clear  Enter: run  ?: help");
            s.append(hints.as_str());
        } else if self.run.running && self.churn.active {
            s.append(" Churning iteration ");
            let iteration = count_text(self.churn.iteration);
            s.append(iteration.as_str());
            let limit = show_limit(self.churn.limit, "/∞");
            s.append(limit.as_str());
            s.append("... ");
            let progress = self.show_progress(clock.as_str());
            s.append(progress.as_str());
            s.append("  Ctrl+E: failed summary  Esc: stop");
            s.append(hints.as_str());
        } else if self.run.running {
            s.append(" Running... ");
            let progress = self.show_progress(clock.as_str());
            s.append(progress.as_str());
            s.append("  Ctrl+E: failed summary  Esc: cancel");
            s.append(hints.as_str());
        } else if self.rediscovery.active {
            s.append(" Rediscovering tests... ");
            let since = show_clock(self.rediscovery.since, now);
            s.append(since.as_str());
            s.append("  |  UI remains responsive");
            s.append(hints.as_str());
        } else {
            s.append(
                " Arrows: nav  Space: toggle  Enter: run  Ctrl+U: churn  Ctrl+V: view  Ctrl+X: clear results ",
            );
            s.append(hints.as_str());
            s.append("  Ctrl+S: preset  Ctrl+L: presets  Ctrl+E: failed ");
            s.append(" ?: help  Esc: quit ");
        }
        assert(s@ =~= status_text(self@, now));
        s
    }
}

// ---------------------------------------------------------------------------
// The settings, and the presets
// ---------------------------------------------------------------------------
pub open spec fn box_mark(on: bool) -> Seq<char> {
    if on {
        "[x]"@
    } else {
        "[ ]"@
    }
}

pub open spec fn verbosity_label(v: Verbosity) -> Seq<char> {
    match v {
        Verbosity::Normal => "Normal"@,
        Verbosity::Detailed => "Detailed"@,
        Verbosity::Minimal => "Minimal"@,
    }
}

pub open spec fn layout_label(m: OutputMode) -> Seq<char> {
    match m {
        OutputMode::Split => "Split (tree + output)"@,
        OutputMode::Fullscreen => "Fullscreen when running (Live)"@,
    }
}

pub open spec fn view_label(m: ViewMode) -> Seq<char> {
    match m {
        ViewMode::Results => "Results (tree colors + leaf panel)"@,
        ViewMode::LiveOutput => "Live (streaming output panel)"@,
    }
}

pub open spec fn watch_label(on: bool) -> Seq<char> {
    if on {
        "on "@
    } else {
        "off"@
    }
}

/// The lines of the settings, one per setting.
pub open spec fn settings_lines(c: ConfigView) -> Seq<Seq<char>> {
    seq![
        "  "@ + box_mark(c.no_build) + "  Skip build  (--no-build)"@,
        "  "@ + box_mark(c.no_restore) + "  Skip restore  (--no-restore)"@,
        "  [∙]  Log verbosity:  "@ + verbosity_label(c.verbosity) + "  (Space: cycle)"@,
        "  [∙]  Output layout:  "@ + layout_label(c.output_mode) + "  (Space: toggle)"@,
        "  [∙]  View mode:  "@ + view_label(c.view_mode) + "  (Space: toggle)"@,
        "  "@ + box_mark(c.manual_watch_enabled) + "  Manual watch:  "@ + watch_label(
            c.manual_watch_enabled,
        ) + " — re-runs only checked tests on `.cs` save"@,
        "  [∙]  Watch debounce:  "@ + decimal(c.manual_watch_delay_ms as nat)
            + " ms   ←/→: ±200 ms"@,
        "  "@ + box_mark(c.confirm_exit_on_esc) + "  Confirm exit on Esc"@,
    ]
}

fn around(before: &str, middle: &str, after: &str) -> (r: String)
    ensures
        r@ == before@ + middle@ + after@,
{
    let mut s = concat(before, middle);
    s.append(after);
    s
}

fn show_box(on: bool) -> (r: &'static str)
    ensures
        r@ == box_mark(on),
{
    if on {
        "[x]"
    } else {
        "[ ]"
    }
}

fn show_verbosity(v: Verbosity) -> (r: &'static str)
    ensures
        r@ == verbosity_label(v),
{
    match v {
        Verbosity::Normal => "Normal",
        Verbosity::Detailed => "Detailed",
        Verbosity::Minimal => "Minimal",
    }
}

fn show_layout(m: OutputMode) -> (r: &'static str)
    ensures
        r@ == layout_label(m),
{
    match m {
        OutputMode::Split => "Split (tree + output)",
        OutputMode::Fullscreen => "Fullscreen when running (Live)",
    }
}

fn show_view(m: ViewMode) -> (r: &'static str)
    ensures
        r@ == view_label(m),
{
    match m {
        ViewMode::Results => "Results (tree colors + leaf panel)",
        ViewMode::LiveOutput => "Live (streaming output panel)",
    }
}

pub fn show_settings(c: &RunConfig) -> (r: Vec<String>)
    ensures
        texts(r@) == settings_lines(c@),
{
    let watch = around(
        show_box(c.manual_watch_enabled),
        "  Manual watch:  ",
        if c.manual_watch_enabled {
            "on "
        } else {
            "off"
        },
    );
    let delay = decimal_of(c.manual_watch_delay_ms as u128);
    let lines: Vec<String> = vec![
        around("  ", show_box(c.no_build), "  Skip build  (--no-build)"),
        around("  ", show_box(c.no_restore), "  Skip restore  (--no-restore)"),
        around("  [∙]  Log verbosity:  ", show_verbosity(c.verbosity), "  (Space: cycle)"),
        around("  [∙]  Output layout:  ", show_layout(c.output_mode), "  (Space: toggle)"),
        around("  [∙]  View mode:  ", show_view(c.view_mode), "  (Space: toggle)"),
        around("  ", watch.as_str(), " — re-runs only checked tests on `.cs` save"),
        around("  [∙]  Watch debounce:  ", delay.as_str(), " ms   ←/→: ±200 ms"),
        around("  ", show_box(c.confirm_exit_on_esc), "  Confirm exit on Esc"),
    ];
    let ghost want = settings_lines(c@);
    assert(lines@[5]@ =~= want[5]);
    assert(texts(lines@) =~= want);
    lines
}

/// A preset in the list: its name, how many tests it has, and its tag.
pub open spec fn preset_line(p: PresetView) -> Seq<char> {
    p.name + " ("@ + decimal(p.tests.len()) + " tests)"@ + (match p.tag {
        Some(t) => "  [tag: "@ + t + "]"@,
        None => Seq::empty(),
    })
}

pub fn show_preset(p: &TestPreset) -> (r: String)
    ensures
        r@ == preset_line(p@),
{
    let mut s = concat(p.name.as_str(), numbered(" (", p.tests.len(), " tests)").as_str());
    assert(texts(p.tests@).len() == p.tests@.len());
    match &p.tag {
        Some(t) => {
            let tag = around("  [tag: ", t.as_str(), "]");
            s.append(tag.as_str());
        },
        None => {},
    }
    assert(s@ =~= preset_line(p@));
    s
}

} // verus!
