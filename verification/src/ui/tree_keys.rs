//! Keys while the tree is in front, and which part of a session answers to a
//! key.

use vstd::prelude::*;

use crate::domain::selection::{
    all_toggled, collect_selected_tests, law_toggle_keeps_the_shape, lemma_listed_shape,
    lemma_same_shape, lemma_shape_total, listed_toggled, same_shape, selected_keys, toggle_all,
    toggle_listed, toggle_row, toggled,
};
use crate::domain::tree::NodeView;
use crate::numerals::{count_text, decimal, decimal_of};
use crate::seqs::positions;
use crate::text::{concat, texts};
use crate::ui::actions::{Action, ActionView};
use crate::ui::churn::stats_line;
use crate::ui::config::{ViewMode, WATCH_DELAY_STEP_MS};
use crate::ui::failed_tests::{extract_failed_tests, failures_of};
use crate::ui::failure_keys::failures_key;
use crate::ui::frame::Frame;
use crate::ui::keys::{
    control_with, exit_key, focused_row, help_key, is_typed, lists_rows_of, move_key, moves,
    resizes, screen_of, scroll_key, scrolls, tests_pane_resized, typed, Key, KeyPress, ScreenView,
};
use crate::ui::launch::{checked_run, churn_asked};
use crate::ui::layout::Area;
use crate::ui::overlay_keys::{presets_key, save_key, without_last};
use crate::ui::rediscovery::rediscovery_asked;
use crate::ui::run_events::{opt_line, outcome_text, say_outcome, saying_all, stopped};
use crate::ui::run_results::Recorded;
use crate::ui::session::{saying, without_churn, FailurePane, Popups, Session, SessionView};
use crate::ui::settings_keys::{
    delay_fits, settings_key, view_switched, watch_switched, DELAY_SETTING,
};

verus! {

// ---------------------------------------------------------------------------
// While tests run
// ---------------------------------------------------------------------------
/// The outcomes and the failures are forgotten.
pub open spec fn results_cleared(s: SessionView) -> SessionView {
    SessionView {
        recorded: Recorded { results: Map::empty(), pending: None },
        counts: Map::empty(),
        results_hidden: true,
        failed: Seq::empty(),
        failure: FailurePane { shown: false, ..s.failure },
        ..s
    }
}

pub open spec fn clears_results(k: KeyPress) -> bool {
    control_with(k, 'x', 'X') || control_with(k, '\u{18}', '\u{18}')
}

/// The summary of failures opens.
pub open spec fn summary_shown(s: SessionView) -> SessionView {
    SessionView {
        failure: FailurePane {
            shown: true,
            selection: if s.failed.len() == 0 {
                0
            } else if s.failure.selection < s.failed.len() {
                s.failure.selection
            } else {
                (s.failed.len() - 1) as usize
            },
            scroll: 0,
            hover: None,
            ..s.failure
        },
        ..s
    }
}

/// What is said when a run is stopped.
pub open spec fn stop_lines(s: SessionView, now: u128) -> Seq<Seq<char>> {
    if s.churn.active {
        seq![
            Seq::empty(),
            outcome_text(
                "⚠ Churn stopped by user at iteration "@ + decimal(s.churn.iteration as nat),
                s.run,
                now,
            ),
            "  Successful iterations before stop: "@ + decimal(s.churn.successes as nat),
        ] + opt_line(stats_line(s.durations))
    } else {
        seq![Seq::empty(), outcome_text("⚠ Cancelled"@, s.run, now)]
    }
}

/// The run is stopped, and its process is to be ended.
pub open spec fn run_stopped(s: SessionView, now: u128) -> (SessionView, ActionView) {
    (
        without_churn(
            SessionView { run: stopped(s.run, false), ..saying_all(s, stop_lines(s, now)) },
        ),
        match s.run.pid {
            Some(pid) => ActionView::Kill(pid),
            None => ActionView::Nothing,
        },
    )
}

/// Keys while tests run. Where results are shown, the tree can be moved
/// through.
pub open spec fn running_key(s: SessionView, k: KeyPress, scr: ScreenView, now: u128) -> (
    SessionView,
    ActionView,
) {
    if clears_results(k) {
        (results_cleared(s), ActionView::DeleteResults)
    } else if moves(k.key) {
        if s.config.view_mode == ViewMode::Results && !s.popups.fullscreen {
            (move_key(s, k.key, scr.visible), ActionView::Nothing)
        } else {
            (s, ActionView::Nothing)
        }
    } else if control_with(k, 'e', 'e') {
        (summary_shown(s), ActionView::Nothing)
    } else if scrolls(k.key) {
        (scroll_key(s, k.key, scr), ActionView::Nothing)
    } else if k.key == Key::Esc {
        run_stopped(s, now)
    } else {
        (s, ActionView::Nothing)
    }
}

/// Keys while the output fills the screen.
pub open spec fn fullscreen_key(s: SessionView, k: Key, scr: ScreenView) -> SessionView {
    if scrolls(k) {
        scroll_key(s, k, scr)
    } else if k == Key::Esc {
        SessionView { popups: Popups { fullscreen: false, ..s.popups }, ..s }
    } else {
        s
    }
}

impl Session {
    fn clear_results(&mut self)
        requires
            old(self).wf(),
        ensures
            final(self).wf(),
            final(self)@ == results_cleared(old(self)@),
    {
        self.results.clear();
        self.results_hidden = true;
        self.failed = Vec::new();
        self.failure.shown = false;
        assert(self@ =~= results_cleared(old(self)@));
    }

    fn show_summary(&mut self)
        requires
            old(self).wf(),
        ensures
            final(self).wf(),
            final(self)@ == summary_shown(old(self)@),
    {
        let n: usize = self.failed.len();
        assert(self@.failed.len() == n);
        self.failure.shown = true;
        if n == 0 {
            self.failure.selection = 0;
        } else if self.failure.selection >= n {
            self.failure.selection = n - 1;
        }
        self.failure.scroll = 0;
        self.failure.hover = None;
        assert(self@ =~= summary_shown(old(self)@));
    }

    fn say_stop(&mut self, now: u128)
        requires
            old(self).wf(),
        ensures
            final(self).wf(),
            final(self)@ == saying_all(old(self)@, stop_lines(old(self)@, now)),
    {
        self.say(String::new());
        if self.churn.active {
            let what = concat(
                "⚠ Churn stopped by user at iteration ",
                count_text(self.churn.iteration).as_str(),
            );
            self.say(say_outcome(what.as_str(), self.run, now));
            self.say(
                concat(
                    "  Successful iterations before stop: ",
                    count_text(self.churn.successes).as_str(),
                ),
            );
            self.say_stats();
        } else {
            self.say(say_outcome("⚠ Cancelled", self.run, now));
        }
        assert(self@ =~= saying_all(old(self)@, stop_lines(old(self)@, now)));
    }

    fn stop_by_user(&mut self, now: u128) -> (r: Action)
        requires
            old(self).wf(),
        ensures
            final(self).wf(),
            (final(self)@, r@) == run_stopped(old(self)@, now),
    {
        let pid: Option<u32> = self.run.pid;
        self.say_stop(now);
        self.stop_run(false);
        self.end_churn();
        match pid {
            Some(pid) => Action::Kill(pid),
            None => Action::Nothing,
        }
    }

    fn press_while_running(&mut self, k: KeyPress, frame: &Frame, area: Area, now: u128) -> (r:
        Action)
        requires
            old(self).wf(),
            lists_rows_of(*frame, old(self)@.tree),
        ensures
            final(self).wf(),
            (final(self)@, r@) == running_key(old(self)@, k, screen_of(*frame, area), now),
    {
        if k.is_control('x', 'X') || k.is_control('\u{18}', '\u{18}') {
            self.clear_results();
            return Action::DeleteResults;
        }
        match k.key {
            Key::Up | Key::Down | Key::Left | Key::Right => {
                if self.config.view_mode == ViewMode::Results && !self.popups.fullscreen {
                    self.press_move(k.key, frame);
                }
                Action::Nothing
            },
            Key::PageUp | Key::PageDown | Key::Home | Key::End => {
                self.press_scroll(k.key, frame, area);
                Action::Nothing
            },
            Key::Esc => self.stop_by_user(now),
            _ => {
                if k.is_control('e', 'e') {
                    self.show_summary();
                }
                Action::Nothing
            },
        }
    }

    fn press_in_fullscreen(&mut self, k: Key, frame: &Frame, area: Area)
        requires
            old(self).wf(),
        ensures
            final(self).wf(),
            final(self)@ == fullscreen_key(old(self)@, k, screen_of(*frame, area)),
    {
        match k {
            Key::PageUp | Key::PageDown | Key::Home | Key::End => {
                self.press_scroll(k, frame, area);
            },
            Key::Esc => {
                self.popups.fullscreen = false;
                assert(self@ =~= fullscreen_key(old(self)@, k, screen_of(*frame, area)));
            },
            _ => {},
        }
    }
}

// ---------------------------------------------------------------------------
// Shortcuts
// ---------------------------------------------------------------------------
/// The dialog for saving a preset opens, if any test is selected.
pub open spec fn save_opened(s: SessionView) -> SessionView {
    if selected_keys(s.tree, s.tree.len() as int).len() == 0 {
        saying(s, "⚠ Select at least one test before saving a preset."@)
    } else {
        SessionView {
            popups: Popups { saving: true, save_field: 0, ..s.popups },
            preset_name: if s.preset_name.len() == 0 {
                "Preset "@ + decimal(s.config.presets.len() + 1)
            } else {
                s.preset_name
            },
            ..s
        }
    }
}

/// The list of presets opens, if there are any.
pub open spec fn presets_opened(s: SessionView) -> SessionView {
    if s.config.presets.len() == 0 {
        saying(s, "⚠ No presets saved yet. Press Ctrl+S to save one."@)
    } else {
        SessionView {
            popups: Popups {
                presets: true,
                preset_cursor: if s.popups.preset_cursor < s.config.presets.len() {
                    s.popups.preset_cursor
                } else {
                    (s.config.presets.len() - 1) as usize
                },
                ..s.popups
            },
            ..s
        }
    }
}

pub const WATCH_ON: &'static str =
    "✓ Manual watch ON — checked tests re-run when you save `.cs` files.";

pub const WATCH_OFF: &'static str = "○ Manual watch OFF.";

/// Watching is switched, and that is said.
pub open spec fn watch_toggled(s: SessionView) -> SessionView {
    let w = watch_switched(s);
    saying(
        w,
        if w.config.manual_watch_enabled {
            WATCH_ON@
        } else {
            WATCH_OFF@
        },
    )
}

/// The failures in the output are listed and shown.
pub open spec fn failures_shown(s: SessionView) -> SessionView {
    summary_shown(SessionView { failed: failures_of(s.lines), ..s })
}

/// The settings open.
pub open spec fn settings_opened(s: SessionView) -> SessionView {
    SessionView { popups: Popups { settings: true, settings_cursor: 0, ..s.popups }, ..s }
}

/// All tests are toggled; while there is a search, those that it lists.
pub open spec fn tests_toggled(s: SessionView, visible: Seq<int>) -> SessionView {
    SessionView {
        tree: if s.query.len() == 0 {
            all_toggled(s.tree)
        } else {
            listed_toggled(s.tree, visible)
        },
        ..s
    }
}

/// What a shortcut with the control key does; none where the key is no
/// shortcut.
pub open spec fn shortcut(s: SessionView, k: KeyPress, visible: Seq<int>) -> Option<
    (SessionView, ActionView),
> {
    if control_with(k, 'a', 'a') {
        Some((tests_toggled(s, visible), ActionView::Nothing))
    } else if control_with(k, 'v', 'V') {
        Some((view_switched(s), ActionView::SaveConfig))
    } else if clears_results(k) {
        Some((results_cleared(s), ActionView::DeleteResults))
    } else if control_with(k, 'u', 'U') {
        Some(churn_asked(s, k.shift || k.key == Key::Char('U')))
    } else if control_with(k, 'e', 'e') {
        Some((failures_shown(s), ActionView::Nothing))
    } else if control_with(k, 'p', 'p') {
        Some((settings_opened(s), ActionView::Nothing))
    } else if control_with(k, 's', 'S') {
        Some((save_opened(s), ActionView::Nothing))
    } else if control_with(k, 'l', 'L') {
        Some((presets_opened(s), ActionView::Nothing))
    } else if control_with(k, 'w', 'W') {
        Some((watch_toggled(s), ActionView::SaveConfigAndApplyWatch))
    } else {
        None
    }
}

proof fn lemma_all_toggled(t: Seq<NodeView>)
    ensures
        same_shape(t, all_toggled(t)),
{
}

impl Session {
    fn toggle_tests(&mut self, frame: &Frame)
        requires
            old(self).wf(),
            lists_rows_of(*frame, old(self)@.tree),
        ensures
            final(self).wf(),
            final(self)@ == tests_toggled(old(self)@, positions(frame.visible@)),
    {
        let ghost t = self@.tree;
        if self.query.as_str().is_empty() {
            toggle_all(&mut self.tree);
        } else {
            toggle_listed(&mut self.tree, &frame.visible);
        }
        proof {
            lemma_all_toggled(t);
            lemma_listed_shape(t, positions(frame.visible@));
            lemma_same_shape(t, self@.tree);
            lemma_shape_total(t, self@.tree, t.len() as int);
        }
        assert(self@ =~= tests_toggled(old(self)@, positions(frame.visible@)));
    }

    fn open_save(&mut self)
        requires
            old(self).wf(),
        ensures
            final(self).wf(),
            final(self)@ == save_opened(old(self)@),
    {
        let keys = collect_selected_tests(self.tree.as_slice());
        assert(texts(keys@).len() == keys@.len());
        if keys.len() == 0 {
            self.say_text("⚠ Select at least one test before saving a preset.");
        } else {
            self.popups.saving = true;
            self.popups.save_field = 0;
            if self.preset_name.as_str().is_empty() {
                let n: u128 = self.config.presets.len() as u128 + 1;
                assert(self@.config.presets.len() == self.config.presets@.len());
                self.preset_name = concat("Preset ", decimal_of(n).as_str());
            }
            assert(self@ =~= save_opened(old(self)@));
        }
    }

    fn open_presets(&mut self)
        requires
            old(self).wf(),
        ensures
            final(self).wf(),
            final(self)@ == presets_opened(old(self)@),
    {
        let n: usize = self.config.presets.len();
        assert(self@.config.presets.len() == n);
        if n == 0 {
            self.say_text("⚠ No presets saved yet. Press Ctrl+S to save one.");
        } else {
            self.popups.presets = true;
            if self.popups.preset_cursor >= n {
                self.popups.preset_cursor = n - 1;
            }
            assert(self@ =~= presets_opened(old(self)@));
        }
    }

    fn toggle_watch(&mut self)
        requires
            old(self).wf(),
        ensures
            final(self).wf(),
            final(self)@ == watch_toggled(old(self)@),
    {
        self.switch_watch();
        if self.config.manual_watch_enabled {
            self.say_text(WATCH_ON);
        } else {
            self.say_text(WATCH_OFF);
        }
    }

    fn show_failures(&mut self)
        requires
            old(self).wf(),
        ensures
            final(self).wf(),
            final(self)@ == failures_shown(old(self)@),
    {
        self.failed = extract_failed_tests(&self.lines);
        assert(self@ =~= SessionView { failed: failures_of(old(self)@.lines), ..old(self)@ });
        self.show_summary();
    }

    fn open_settings(&mut self)
        requires
            old(self).wf(),
        ensures
            final(self).wf(),
            final(self)@ == settings_opened(old(self)@),
    {
        self.popups.settings = true;
        self.popups.settings_cursor = 0;
        assert(self@ =~= settings_opened(old(self)@));
    }

    fn press_shortcut(&mut self, k: KeyPress, frame: &Frame) -> (r: Option<Action>)
        requires
            old(self).wf(),
            lists_rows_of(*frame, old(self)@.tree),
        ensures
            final(self).wf(),
            match shortcut(old(self)@, k, positions(frame.visible@)) {
                Some(after) => r is Some && (final(self)@, r->0@) == after,
                None => r is None && final(self)@ == old(self)@,
            },
    {
        if k.is_control('a', 'a') {
            self.toggle_tests(frame);
            Some(Action::Nothing)
        } else if k.is_control('v', 'V') {
            self.switch_view();
            Some(Action::SaveConfig)
        } else if k.is_control('x', 'X') || k.is_control('\u{18}', '\u{18}') {
            self.clear_results();
            Some(Action::DeleteResults)
        } else if k.is_control('u', 'U') {
            let quick = k.shift || k.is_control('U', 'U');
            Some(self.start_churn(quick))
        } else if k.is_control('e', 'e') {
            self.show_failures();
            Some(Action::Nothing)
        } else if k.is_control('p', 'p') {
            self.open_settings();
            Some(Action::Nothing)
        } else if k.is_control('s', 'S') {
            self.open_save();
            Some(Action::Nothing)
        } else if k.is_control('l', 'L') {
            self.open_presets();
            Some(Action::Nothing)
        } else if k.is_control('w', 'W') {
            self.toggle_watch();
            Some(Action::SaveConfigAndApplyWatch)
        } else {
            None
        }
    }
}

// ---------------------------------------------------------------------------
// The tree
// ---------------------------------------------------------------------------
/// The focused row, and everything below it, is checked or unchecked.
pub open spec fn focus_toggled(s: SessionView, visible: Seq<int>) -> SessionView {
    match focused_row(s, visible) {
        Some(ri) => SessionView { tree: toggled(s.tree, ri), ..s },
        None => s,
    }
}

/// The search is another one, and the first row is focused.
pub open spec fn searching(s: SessionView, query: Seq<char>) -> SessionView {
    SessionView { query, cursor: Some(0), ..s }
}

/// The search is cleared; else the pane of the focused leaf is hidden; else the
/// session is to end.
pub open spec fn escaped(s: SessionView, panel_shown: bool) -> (SessionView, ActionView) {
    if s.query.len() > 0 {
        (searching(s, Seq::empty()), ActionView::Nothing)
    } else if s.config.view_mode == ViewMode::Results && panel_shown && !s.results_hidden {
        (SessionView { results_hidden: true, ..s }, ActionView::Nothing)
    } else if s.config.confirm_exit_on_esc {
        (SessionView { popups: Popups { exit: true, ..s.popups }, ..s }, ActionView::Nothing)
    } else {
        (s, ActionView::Quit)
    }
}

/// Keys in the tree that are no shortcuts.
pub open spec fn tree_key(s: SessionView, k: Key, scr: ScreenView, now: u128) -> (
    SessionView,
    ActionView,
) {
    match k {
        Key::F(n) => if n == 5 {
            rediscovery_asked(s, now)
        } else if n == 1 {
            (SessionView { popups: Popups { help: true, ..s.popups }, ..s }, ActionView::Nothing)
        } else {
            (s, ActionView::Nothing)
        },
        Key::Char(c) => (
            if c == '?' {
                SessionView { popups: Popups { help: true, ..s.popups }, ..s }
            } else if c == ' ' {
                focus_toggled(s, scr.visible)
            } else if is_typed(c) {
                searching(s, s.query.push(c))
            } else {
                s
            },
            ActionView::Nothing,
        ),
        Key::Backspace => (searching(s, without_last(s.query)), ActionView::Nothing),
        Key::Enter => checked_run(s),
        Key::Esc => escaped(s, scr.panel_shown),
        Key::PageUp | Key::PageDown | Key::Home | Key::End => (
            scroll_key(s, k, scr),
            ActionView::Nothing,
        ),
        Key::Up | Key::Down | Key::Left | Key::Right => (
            move_key(s, k, scr.visible),
            ActionView::Nothing,
        ),
        _ => (s, ActionView::Nothing),
    }
}

pub open spec fn normal_key(s: SessionView, k: KeyPress, scr: ScreenView, now: u128) -> (
    SessionView,
    ActionView,
) {
    match shortcut(s, k, scr.visible) {
        Some(after) => after,
        None => tree_key(s, k.key, scr, now),
    }
}

impl Session {
    fn toggle_focus(&mut self, frame: &Frame)
        requires
            old(self).wf(),
            lists_rows_of(*frame, old(self)@.tree),
        ensures
            final(self).wf(),
            final(self)@ == focus_toggled(old(self)@, positions(frame.visible@)),
    {
        let ghost t = self@.tree;
        match self.focus(frame) {
            Some(ri) => {
                toggle_row(&mut self.tree, ri);
                proof {
                    law_toggle_keeps_the_shape(t, ri as int);
                    lemma_same_shape(t, self@.tree);
                    lemma_shape_total(t, self@.tree, t.len() as int);
                }
                assert(self@ =~= focus_toggled(old(self)@, positions(frame.visible@)));
            },
            None => {},
        }
    }

    fn open_help(&mut self)
        requires
            old(self).wf(),
        ensures
            final(self).wf(),
            final(self)@ == (SessionView {
                popups: Popups { help: true, ..old(self)@.popups },
                ..old(self)@
            }),
    {
        self.popups.help = true;
        assert(self@ =~= SessionView {
            popups: Popups { help: true, ..old(self)@.popups },
            ..old(self)@
        });
    }

    fn escape(&mut self, panel_shown: bool) -> (r: Action)
        requires
            old(self).wf(),
        ensures
            final(self).wf(),
            (final(self)@, r@) == escaped(old(self)@, panel_shown),
    {
        if !self.query.as_str().is_empty() {
            self.query = String::new();
            self.cursor = Some(0);
            assert(self@ =~= searching(old(self)@, Seq::empty()));
            Action::Nothing
        } else if self.config.view_mode == ViewMode::Results && panel_shown
            && !self.results_hidden {
            self.results_hidden = true;
            assert(self@ =~= escaped(old(self)@, panel_shown).0);
            Action::Nothing
        } else if self.config.confirm_exit_on_esc {
            self.popups.exit = true;
            assert(self@ =~= escaped(old(self)@, panel_shown).0);
            Action::Nothing
        } else {
            Action::Quit
        }
    }

    fn type_char(&mut self, c: char)
        requires
            old(self).wf(),
        ensures
            final(self).wf(),
            final(self)@ == searching(old(self)@, old(self)@.query.push(c)),
    {
        self.query.push(c);
        self.cursor = Some(0);
        assert(self@ =~= searching(old(self)@, old(self)@.query.push(c)));
    }

    fn erase_char(&mut self)
        requires
            old(self).wf(),
        ensures
            final(self).wf(),
            final(self)@ == searching(old(self)@, without_last(old(self)@.query)),
    {
        self.query.pop();
        self.cursor = Some(0);
        assert(self@ =~= searching(old(self)@, without_last(old(self)@.query)));
    }

    fn press_in_tree(&mut self, k: Key, frame: &Frame, area: Area, now: u128) -> (r: Action)
        requires
            old(self).wf(),
            lists_rows_of(*frame, old(self)@.tree),
        ensures
            final(self).wf(),
            (final(self)@, r@) == tree_key(old(self)@, k, screen_of(*frame, area), now),
    {
        match k {
            Key::F(n) => {
                if n == 5 {
                    return self.ask_rediscovery(now);
                }
                if n == 1 {
                    self.open_help();
                }
                Action::Nothing
            },
            Key::Char(c) => {
                if c == '?' {
                    self.open_help();
                } else if c == ' ' {
                    self.toggle_focus(frame);
                } else if typed(c) {
                    self.type_char(c);
                }
                Action::Nothing
            },
            Key::Backspace => {
                self.erase_char();
                Action::Nothing
            },
            Key::Enter => self.run_checked(),
            Key::Esc => self.escape(frame.panel_shown),
            Key::PageUp | Key::PageDown | Key::Home | Key::End => {
                self.press_scroll(k, frame, area);
                Action::Nothing
            },
            Key::Up | Key::Down | Key::Left | Key::Right => {
                self.press_move(k, frame);
                Action::Nothing
            },
            _ => Action::Nothing,
        }
    }
}

// ---------------------------------------------------------------------------
// Which part answers
// ---------------------------------------------------------------------------
pub open spec fn key_pressed(s: SessionView, k: KeyPress, scr: ScreenView, now: u128) -> (
    SessionView,
    ActionView,
) {
    if s.popups.help {
        (help_key(s, k.key), ActionView::Nothing)
    } else if s.popups.exit {
        exit_key(s, k.key)
    } else if s.popups.saving {
        save_key(s, k.key)
    } else if s.popups.presets {
        presets_key(s, k.key)
    } else if s.failure.shown {
        failures_key(s, k, scr.area)
    } else if s.popups.settings {
        settings_key(s, k.key)
    } else if scr.panel_shown && !s.popups.fullscreen && resizes(k) {
        (tests_pane_resized(s, k, scr.area.height), ActionView::Nothing)
    } else if s.run.running {
        running_key(s, k, scr, now)
    } else if s.popups.fullscreen {
        (fullscreen_key(s, k.key, scr), ActionView::Nothing)
    } else {
        normal_key(s, k, scr, now)
    }
}

/// The settings are in front.
pub open spec fn in_settings(s: SessionView) -> bool {
    s.popups.settings && !s.popups.help && !s.popups.exit && !s.popups.saving && !s.popups.presets
        && !s.failure.shown
}

/// A key that makes the delay longer finds room for that.
pub open spec fn can_press(s: SessionView, k: KeyPress) -> bool {
    in_settings(s) ==> delay_fits(s, k.key)
}

impl Session {
    /// Whether a key finds room for what it changes.
    pub fn takes_key(&self, k: KeyPress) -> (r: bool)
        ensures
            r == can_press(self@, k),
    {
        let in_settings = self.popups.settings && !self.popups.help && !self.popups.exit
            && !self.popups.saving && !self.popups.presets && !self.failure.shown;
        !in_settings || k.key != Key::Right || self.popups.settings_cursor != DELAY_SETTING
            || self.config.manual_watch_delay_ms <= u32::MAX - WATCH_DELAY_STEP_MS
    }

    /// A key was pressed.
    pub fn on_key(&mut self, k: KeyPress, frame: &Frame, area: Area, now: u128) -> (r: Action)
        requires
            old(self).wf(),
            can_press(old(self)@, k),
            lists_rows_of(*frame, old(self)@.tree),
        ensures
            final(self).wf(),
            (final(self)@, r@) == key_pressed(old(self)@, k, screen_of(*frame, area), now),
    {
        if self.popups.help {
            self.press_in_help(k.key);
            Action::Nothing
        } else if self.popups.exit {
            self.press_in_exit(k.key)
        } else if self.popups.saving {
            self.press_in_save(k.key)
        } else if self.popups.presets {
            self.press_in_presets(k.key)
        } else if self.failure.shown {
            self.press_in_failures(k, area)
        } else if self.popups.settings {
            self.press_in_settings(k.key)
        } else if frame.panel_shown && !self.popups.fullscreen && k.is_resize() {
            self.resize_tests_pane(k, area.height);
            Action::Nothing
        } else if self.run.running {
            self.press_while_running(k, frame, area, now)
        } else if self.popups.fullscreen {
            self.press_in_fullscreen(k.key, frame, area);
            Action::Nothing
        } else {
            match self.press_shortcut(k, frame) {
                Some(action) => action,
                None => self.press_in_tree(k.key, frame, area, now),
            }
        }
    }
}

} // verus!
