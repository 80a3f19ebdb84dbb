//! What keys do, key by key.

use vstd::prelude::*;

use crate::domain::selection::{all_toggled, listed_toggled, toggled};
use crate::domain::tree::NodeView;
use crate::text::joined;
use crate::text_laws::lemma_joined_from_the_front;
use crate::ui::actions::ActionView;
use crate::ui::config::{ConfigView, OutputMode, Verbosity, ViewMode};
use crate::ui::failed_tests::{failures_of, name_key, names_filter, FailedView};
use crate::ui::failure_keys::{failures_key, names_of, picked};
use crate::ui::keys::{
    exit_key, place_of, tests_pane_resized, Key, KeyPress, ScreenView,
};
use crate::ui::launch::{checked_run, churn_asked};
use crate::ui::output::RunRequestView;
use crate::ui::rediscovery::rediscovery_asked;
use crate::ui::session::{RunState, SessionView};
use crate::ui::settings_keys::settings_key;
use crate::ui::tree_keys::key_pressed;
use crate::unicode::is_letter_or_number;

verus! {

/// The tree is in front, and nothing runs.
pub open spec fn is_at_rest(s: SessionView) -> bool {
    &&& !s.popups.help
    &&& !s.popups.exit
    &&& !s.popups.saving
    &&& !s.popups.presets
    &&& !s.popups.settings
    &&& !s.popups.fullscreen
    &&& !s.failure.shown
    &&& !s.run.running
}

pub open spec fn plainly(key: Key) -> KeyPress {
    KeyPress { key, control: false, shift: false }
}

pub open spec fn with_control(c: char) -> KeyPress {
    KeyPress { key: Key::Char(c), control: true, shift: false }
}

// ---------------------------------------------------------------------------
// In the tree
// ---------------------------------------------------------------------------
/// Space toggles the focused row, and changes nothing but what is checked.
pub proof fn law_space_toggles_the_focused_row(
    s: SessionView,
    scr: ScreenView,
    now: u128,
    place: usize,
)
    requires
        is_at_rest(s),
        s.cursor == Some(place),
        place < scr.visible.len(),
    ensures
        key_pressed(s, plainly(Key::Char(' ')), scr, now) == (
            SessionView { tree: toggled(s.tree, scr.visible[place as int]), ..s },
            ActionView::Nothing,
        ),
{
}

/// Enter runs what is checked; F5 looks for the tests again; F1 and a question
/// mark open the help.
pub proof fn law_keys_of_the_tree(s: SessionView, scr: ScreenView, now: u128)
    requires
        is_at_rest(s),
    ensures
        key_pressed(s, plainly(Key::Enter), scr, now) == checked_run(s),
        key_pressed(s, plainly(Key::F(5)), scr, now) == rediscovery_asked(s, now),
        key_pressed(s, plainly(Key::F(1)), scr, now) == key_pressed(
            s,
            plainly(Key::Char('?')),
            scr,
            now,
        ),
        key_pressed(s, plainly(Key::F(1)), scr, now).0.popups.help,
        key_pressed(s, plainly(Key::F(1)), scr, now).1 is Nothing,
{
}

/// What is typed is searched for, letter by letter, from the first row on; what
/// is taken back leaves the letters before it.
pub proof fn law_typing_searches(s: SessionView, scr: ScreenView, now: u128, c: char)
    requires
        is_at_rest(s),
        is_letter_or_number(c) || '!' <= c <= '/' || ':' <= c <= '@' || '[' <= c <= '`' || '{' <= c
            <= '~',
        c != '?',
        c != ' ',
    ensures
        key_pressed(s, plainly(Key::Char(c)), scr, now) == (
            SessionView { query: s.query.push(c), cursor: Some(0), ..s },
            ActionView::Nothing,
        ),
        ({
            let longer = SessionView { query: s.query.push(c), cursor: Some(0), ..s };
            key_pressed(longer, plainly(Key::Backspace), scr, now) == (
                SessionView { cursor: Some(0), ..s },
                ActionView::Nothing,
            )
        }),
        s.query.len() == 0 ==> key_pressed(s, plainly(Key::Backspace), scr, now).0.query.len()
            == 0,
{
    assert(s.query.push(c).drop_last() =~= s.query);
    let longer = SessionView { query: s.query.push(c), cursor: Some(0), ..s };
    assert(key_pressed(longer, plainly(Key::Backspace), scr, now).0 =~= SessionView {
        cursor: Some(0),
        ..s
    });
}

/// The arrows go through the listed rows one by one, and round.
pub proof fn law_arrows_go_round(s: SessionView, scr: ScreenView, now: u128, place: usize)
    requires
        is_at_rest(s),
        s.cursor == Some(place),
        place < scr.visible.len() <= usize::MAX,
    ensures
        ({
            let n = scr.visible.len() as int;
            let down = key_pressed(s, plainly(Key::Down), scr, now);
            let up = key_pressed(s, plainly(Key::Up), scr, now);
            let next = if place + 1 < n {
                place + 1
            } else {
                0
            };
            let previous = if place > 0 {
                place - 1
            } else {
                n - 1
            };
            &&& down == (SessionView { cursor: Some(next as usize), ..s }, ActionView::Nothing)
            &&& up == (SessionView { cursor: Some(previous as usize), ..s }, ActionView::Nothing)
        }),
{
}

/// Right unfolds the focused folder, left folds it, and nothing else changes;
/// from any other row left goes to the row above it, if that is listed.
pub proof fn law_arrows_fold_and_unfold(
    s: SessionView,
    scr: ScreenView,
    now: u128,
    place: usize,
    above: int,
)
    requires
        is_at_rest(s),
        s.cursor == Some(place),
        place < scr.visible.len() <= usize::MAX,
        0 <= scr.visible[place as int] < s.tree.len(),
    ensures
        ({
            let ri = scr.visible[place as int];
            let right = key_pressed(s, plainly(Key::Right), scr, now);
            let left = key_pressed(s, plainly(Key::Left), scr, now);
            let folder = !s.tree[ri].is_leaf;
            let unfolded = NodeView { is_expanded: true, ..s.tree[ri] };
            let folded = NodeView { is_expanded: false, ..s.tree[ri] };
            &&& right.1 is Nothing && left.1 is Nothing
            &&& folder ==> right.0 == (SessionView { tree: s.tree.update(ri, unfolded), ..s })
            &&& !folder ==> right.0 == s
            &&& folder && s.tree[ri].is_expanded ==> left.0 == (SessionView {
                tree: s.tree.update(ri, folded),
                ..s
            })
            &&& !(folder && s.tree[ri].is_expanded) && s.tree[ri].parent_idx is None ==> left.0
                == s
            &&& !(folder && s.tree[ri].is_expanded) && 0 <= above < scr.visible.len()
                && s.tree[ri].parent_idx == Some(scr.visible[above]) && (forall|k: int|
                0 <= k < above ==> #[trigger] scr.visible[k] != scr.visible[above]) ==> left.0 == (
            SessionView { cursor: Some(above as usize), ..s })
        }),
{
    let ri = scr.visible[place as int];
    assert(s.tree.update(ri, s.tree[ri]) =~= s.tree);
    if !s.tree[ri].is_leaf && s.tree[ri].is_expanded {
        assert(key_pressed(s, plainly(Key::Right), scr, now).0 == s);
        assert(NodeView { is_expanded: true, ..s.tree[ri] } == s.tree[ri]);
    }
    if 0 <= above < scr.visible.len() && (forall|k: int|
        0 <= k < above ==> #[trigger] scr.visible[k] != scr.visible[above]) {
        lemma_first_place(scr.visible, above);
    }
}

proof fn lemma_first_place(visible: Seq<int>, at: int)
    requires
        0 <= at < visible.len(),
        forall|k: int| 0 <= k < at ==> #[trigger] visible[k] != visible[at],
    ensures
        place_of(visible, visible[at]) == Some(at),
    decreases at,
{
    if at > 0 {
        assert(visible[0] != visible[at]);
        let rest = visible.drop_first();
        assert forall|k: int| 0 <= k < at - 1 implies #[trigger] rest[k] != rest[at - 1] by {
            assert(rest[k] == visible[k + 1]);
        }
        lemma_first_place(rest, at - 1);
    }
}

/// Esc clears the search if there is one; else it hides the result of the
/// focused test if that is shown; else it asks whether to quit, or quits where
/// the settings say so.
pub proof fn law_esc_takes_back(s: SessionView, scr: ScreenView, now: u128)
    requires
        is_at_rest(s),
    ensures
        ({
            let (after, action) = key_pressed(s, plainly(Key::Esc), scr, now);
            let hides = s.config.view_mode == ViewMode::Results && scr.panel_shown
                && !s.results_hidden;
            &&& s.query.len() > 0 ==> action is Nothing && after == (SessionView {
                query: Seq::empty(),
                cursor: Some(0),
                ..s
            })
            &&& s.query.len() == 0 && hides ==> action is Nothing && after == (SessionView {
                results_hidden: true,
                ..s
            })
            &&& s.query.len() == 0 && !hides && s.config.confirm_exit_on_esc ==> action is Nothing
                && after.popups.exit && after.tree == s.tree
            &&& s.query.len() == 0 && !hides && !s.config.confirm_exit_on_esc ==> action is Quit
                && after == s
        }),
{
}

/// The page keys scroll the output where it is shown: by five rows, to the top
/// and to the end, and never beyond.
pub proof fn law_page_keys_scroll_the_output(s: SessionView, scr: ScreenView, now: u128)
    requires
        is_at_rest(s),
        scr.panel_shown,
    ensures
        ({
            let up = key_pressed(s, plainly(Key::PageUp), scr, now).0;
            let down = key_pressed(s, plainly(Key::PageDown), scr, now).0;
            let home = key_pressed(s, plainly(Key::Home), scr, now).0;
            let end = key_pressed(s, plainly(Key::End), scr, now).0;
            &&& up == (SessionView {
                scroll: if s.scroll < 5 {
                    0
                } else {
                    (s.scroll - 5) as u16
                },
                follow: false,
                ..s
            })
            &&& s.scroll + 5 < scr.scroll_max ==> down == (SessionView {
                scroll: (s.scroll + 5) as u16,
                follow: false,
                ..s
            })
            &&& s.scroll + 5 >= scr.scroll_max ==> down == (SessionView {
                scroll: scr.scroll_max,
                follow: true,
                ..s
            })
            &&& home == (SessionView { scroll: 0, follow: false, ..s })
            &&& end == (SessionView { scroll: scr.scroll_max, follow: true, ..s })
        }),
{
}

// ---------------------------------------------------------------------------
// Shortcuts
// ---------------------------------------------------------------------------
/// Ctrl+A toggles all tests, or those that a search lists; Ctrl+U churns, and
/// quickly with the shift key; Ctrl+X forgets the outcomes; Ctrl+E shows the
/// failures of the output.
pub proof fn law_shortcuts_on_tests(s: SessionView, scr: ScreenView, now: u128)
    requires
        is_at_rest(s),
    ensures
        ({
            let all = key_pressed(s, with_control('a'), scr, now);
            let churn = key_pressed(s, with_control('u'), scr, now);
            let quick = key_pressed(
                s,
                KeyPress { key: Key::Char('u'), control: true, shift: true },
                scr,
                now,
            );
            let forget = key_pressed(s, with_control('x'), scr, now);
            let failures = key_pressed(s, with_control('e'), scr, now);
            &&& s.query.len() == 0 ==> all == (
                SessionView { tree: all_toggled(s.tree), ..s },
                ActionView::Nothing,
            )
            &&& s.query.len() > 0 ==> all == (
                SessionView { tree: listed_toggled(s.tree, scr.visible), ..s },
                ActionView::Nothing,
            )
            &&& churn == churn_asked(s, false)
            &&& quick == churn_asked(s, true)
            &&& key_pressed(s, with_control('U'), scr, now) == churn_asked(s, true)
            &&& forget.1 is DeleteResults
            &&& forget.0.recorded.results.dom() =~= Set::empty() && forget.0.recorded.pending
                is None && forget.0.counts.dom() =~= Set::empty() && forget.0.failed.len() == 0
            &&& forget.0.tree == s.tree && forget.0.lines == s.lines
            &&& failures.1 is Nothing
            &&& failures.0.failure.shown && failures.0.failed == failures_of(s.lines)
            &&& failures.0.failure.selection < failures.0.failed.len()
                || failures.0.failed.len() == 0
            &&& failures.0.tree == s.tree && failures.0.lines == s.lines
        }),
{
}

/// Ctrl+V shows the other view and Ctrl+W switches watching, and both have the
/// settings saved; Ctrl+P opens the settings, Ctrl+L the presets if there are
/// any.
pub proof fn law_shortcuts_on_settings(s: SessionView, scr: ScreenView, now: u128)
    requires
        is_at_rest(s),
    ensures
        ({
            let view = key_pressed(s, with_control('v'), scr, now);
            let watch = key_pressed(s, with_control('w'), scr, now);
            let settings = key_pressed(s, with_control('p'), scr, now);
            let presets = key_pressed(s, with_control('l'), scr, now);
            &&& view.1 is SaveConfig
            &&& view.0.config.view_mode != s.config.view_mode
            &&& key_pressed(view.0, with_control('v'), scr, now).0.config == s.config
            &&& view.0.tree == s.tree && view.0.recorded == s.recorded
            &&& watch.1 is SaveConfigAndApplyWatch
            &&& watch.0.config.manual_watch_enabled == !s.config.manual_watch_enabled
            &&& watch.0.tree == s.tree
            &&& settings.1 is Nothing && settings.0.popups.settings
                && settings.0.popups.settings_cursor == 0 && settings.0.config == s.config
            &&& presets.1 is Nothing && presets.0.popups.presets == (s.config.presets.len() > 0)
            &&& presets.0.popups.presets ==> presets.0.popups.preset_cursor
                < s.config.presets.len()
        }),
{
    let view = key_pressed(s, with_control('v'), scr, now);
    assert(key_pressed(view.0, with_control('v'), scr, now).0.config =~= s.config);
}

// ---------------------------------------------------------------------------
// While tests run
// ---------------------------------------------------------------------------
/// Esc stops the run: its process is to be ended, and neither a run nor a churn
/// is left. What was found so far stays.
pub proof fn law_esc_stops_the_run(s: SessionView, scr: ScreenView, now: u128)
    requires
        is_at_rest(SessionView { run: RunState { running: false, ..s.run }, ..s }),
        s.run.running,
    ensures
        ({
            let (after, action) = key_pressed(s, plainly(Key::Esc), scr, now);
            &&& action == match s.run.pid {
                Some(pid) => ActionView::Kill(pid),
                None => ActionView::Nothing,
            }
            &&& !after.run.running && !after.run.listening && after.run.pid is None
            &&& !after.churn.active
            &&& after.tree == s.tree && after.recorded == s.recorded && after.failed == s.failed
            &&& after.lines.len() > s.lines.len() && after.lines.take(s.lines.len() as int)
                == s.lines
        }),
{
    let after = key_pressed(s, plainly(Key::Esc), scr, now).0;
    assert(after.lines.take(s.lines.len() as int) =~= s.lines);
}

// ---------------------------------------------------------------------------
// In the summary of failures
// ---------------------------------------------------------------------------
/// In the summary `c` copies the names of all failures, one per line, and `d`
/// the picked failure: its name, and its details below it.
pub proof fn law_failures_are_copied(s: SessionView, scr: ScreenView)
    requires
        !s.failure.help,
        s.failed.len() > 0,
        s.failure.selection < s.failed.len(),
    ensures
        ({
            let one = s.failed[s.failure.selection as int];
            let names = failures_key(s, plainly(Key::Char('c')), scr.area);
            let d = failures_key(s, plainly(Key::Char('d')), scr.area);
            let m = failures_key(s, plainly(Key::Char('m')), scr.area);
            &&& names.0 == s && d.0 == s && m == d
            &&& names.1 is Copy && names.1->text == joined(
                s.failed.map_values(|f: FailedView| f.name),
                "\n"@,
            )
            &&& d.1 is Copy && d.1->text == joined(
                seq![one.name] + one.details,
                "\n"@,
            )
        }),
{
    let one = s.failed[s.failure.selection as int];
    assert(picked(s) == one);
    assert(names_of(s.failed) =~= s.failed.map_values(
        |f: FailedView| f.name,
    ));
    reveal_strlit("\n");
    let all = seq![one.name] + one.details;
    if one.details.len() == 0 {
        assert(all =~= seq![one.name]);
    } else {
        lemma_joined_from_the_front(all, "\n"@);
        assert(all.drop_first() =~= one.details);
        assert(one.name.push('\n') + joined(one.details, "\n"@) =~= one.name + "\n"@
            + joined(one.details, "\n"@));
    }
}

/// Shift and the arrows pick the failure above or below, within the list, and
/// show its details from the top.
pub proof fn law_shifted_arrows_pick(s: SessionView, scr: ScreenView)
    requires
        !s.failure.help,
        s.failure.selection < s.failed.len() <= usize::MAX,
    ensures
        ({
            let up = failures_key(
                s,
                KeyPress { key: Key::Up, control: false, shift: true },
                scr.area,
            ).0.failure;
            let down = failures_key(
                s,
                KeyPress { key: Key::Down, control: false, shift: true },
                scr.area,
            ).0.failure;
            &&& up.scroll == 0 && down.scroll == 0
            &&& s.failure.selection > 0 ==> up.selection == s.failure.selection - 1
            &&& s.failure.selection == 0 ==> up.selection == 0
            &&& s.failure.selection + 1 < s.failed.len() ==> down.selection == s.failure.selection
                + 1
            &&& s.failure.selection + 1 == s.failed.len() ==> down.selection
                == s.failure.selection
        }),
{
}

/// Without shift the arrows scroll the details by one row, and the page keys by
/// five; none of them picks another failure.
pub proof fn law_plain_arrows_scroll(s: SessionView, scr: ScreenView)
    requires
        !s.failure.help,
        s.failed.len() > 0,
        5 <= s.failure.scroll <= u16::MAX - 5,
    ensures
        ({
            let up = failures_key(s, plainly(Key::Up), scr.area).0.failure;
            let down = failures_key(s, plainly(Key::Down), scr.area).0.failure;
            let page_up = failures_key(s, plainly(Key::PageUp), scr.area).0.failure;
            let page_down = failures_key(s, plainly(Key::PageDown), scr.area).0.failure;
            let selection = s.failure.selection;
            &&& up.scroll == s.failure.scroll - 1 && up.selection == selection
            &&& down.scroll == s.failure.scroll + 1 && down.selection == selection
            &&& page_up.scroll == s.failure.scroll - 5 && page_up.selection == selection
            &&& page_down.scroll == s.failure.scroll + 5 && page_down.selection == selection
        }),
{
}

/// Control with `i` makes the pane at the left or at the top one cell smaller, and
/// with `o` one larger, as far as it fits.
pub proof fn law_panes_are_resized(s: SessionView, scr: ScreenView, cols: u16, rows: u16)
    requires
        !s.failure.help,
        s.failure.cols == Some(cols),
        s.tests_pane_rows == Some(rows),
        20 < cols < scr.area.width - 20,
        3 < rows < scr.area.height - 4,
    ensures
        ({
            let i = KeyPress { key: Key::Char('i'), control: true, shift: false };
            let o = KeyPress { key: Key::Char('o'), control: true, shift: false };
            &&& failures_key(s, i, scr.area).0.failure.cols == Some((cols - 1) as u16)
            &&& failures_key(s, o, scr.area).0.failure.cols == Some((cols + 1) as u16)
            &&& tests_pane_resized(s, i, scr.area.height).tests_pane_rows == Some((rows - 1) as u16)
            &&& tests_pane_resized(s, o, scr.area.height).tests_pane_rows == Some((rows + 1) as u16)
        }),
{
}

/// `r` runs the picked failure again by its key, and `R` all of them, as the
/// settings say; both close the summary. While tests run they do nothing.
pub proof fn law_failures_run_again(s: SessionView, scr: ScreenView)
    requires
        !s.failure.help,
        s.failure.selection < s.failed.len(),
    ensures
        ({
            let one = s.failed[s.failure.selection as int];
            let r = failures_key(s, plainly(Key::Char('r')), scr.area);
            let all = failures_key(s, plainly(Key::Char('R')), scr.area);
            &&& s.run.running ==> r == (s, ActionView::Nothing) && all == (s, ActionView::Nothing)
            &&& !s.run.running ==> {
                &&& r.1 == ActionView::StartRun(
                    RunRequestView {
                        filter: Some(names_filter(seq![name_key(one.name)])),
                        target_path: None,
                        no_build: s.config.no_build,
                        no_restore: s.config.no_restore,
                        verbosity: s.config.verbosity,
                    },
                )
                &&& all.1 == ActionView::StartRun(
                    RunRequestView {
                        filter: Some(
                            names_filter(s.failed.map_values(|f: FailedView| f.name)),
                        ),
                        target_path: None,
                        no_build: s.config.no_build,
                        no_restore: s.config.no_restore,
                        verbosity: s.config.verbosity,
                    },
                )
                &&& !r.0.failure.shown && !all.0.failure.shown
                &&& r.0.tree == s.tree && all.0.tree == s.tree
            }
        }),
{
    assert(picked(s) == s.failed[s.failure.selection as int]);
    assert(names_of(s.failed) =~= s.failed.map_values(|f: FailedView| f.name));
}

// ---------------------------------------------------------------------------
// In dialogs
// ---------------------------------------------------------------------------
/// In the settings, space changes the setting under the cursor and no other:
/// each switch to its opposite, the verbosity to the next of three, and the line
/// of the delay not at all.
pub proof fn law_space_changes_one_setting(s: SessionView)
    requires
        s.popups.settings_cursor <= 7,
    ensures
        ({
            let (after, action) = settings_key(s, Key::Char(' '));
            let c = s.config;
            let at = s.popups.settings_cursor;
            &&& at == 0 ==> after.config == (ConfigView { no_build: !c.no_build, ..c })
            &&& at == 1 ==> after.config == (ConfigView { no_restore: !c.no_restore, ..c })
            &&& at == 2 ==> after.config == (ConfigView {
                verbosity: match c.verbosity {
                    Verbosity::Minimal => Verbosity::Normal,
                    Verbosity::Normal => Verbosity::Detailed,
                    Verbosity::Detailed => Verbosity::Minimal,
                },
                ..c
            })
            &&& at == 3 ==> after.config == (ConfigView {
                output_mode: match c.output_mode {
                    OutputMode::Split => OutputMode::Fullscreen,
                    OutputMode::Fullscreen => OutputMode::Split,
                },
                ..c
            })
            &&& at == 4 ==> after.config == (ConfigView {
                view_mode: match c.view_mode {
                    ViewMode::Results => ViewMode::LiveOutput,
                    ViewMode::LiveOutput => ViewMode::Results,
                },
                ..c
            })
            &&& at == 5 ==> after.config == (ConfigView {
                manual_watch_enabled: !c.manual_watch_enabled,
                manual_watch_delay_ms: after.config.manual_watch_delay_ms,
                ..c
            }) && action is ApplyWatch
            &&& at == 6 ==> after.config == c
            &&& at == 7 ==> after.config == (ConfigView {
                confirm_exit_on_esc: !c.confirm_exit_on_esc,
                ..c
            })
            &&& at != 5 ==> action is Nothing
            &&& after.tree == s.tree && after.popups.settings == s.popups.settings
                && after.popups.settings_cursor == at
        }),
{
}

/// The arrows make the delay longer and shorter by 200 ms, between 200 ms and
/// 20 s.
pub proof fn law_arrows_change_the_delay(s: SessionView)
    requires
        s.popups.settings_cursor == 6,
        200 <= s.config.manual_watch_delay_ms <= 20_000,
    ensures
        ({
            let d = s.config.manual_watch_delay_ms;
            let longer = settings_key(s, Key::Right).0.config.manual_watch_delay_ms;
            let shorter = settings_key(s, Key::Left).0.config.manual_watch_delay_ms;
            &&& d <= 19_800 ==> longer == d + 200
            &&& d > 19_800 ==> longer == 20_000
            &&& d >= 400 ==> shorter == d - 200
            &&& d < 400 ==> shorter == 200
        }),
{
}

/// The settings are left with Esc or Enter, and then saved.
pub proof fn law_settings_are_saved_when_left(s: SessionView)
    requires
        200 <= s.config.manual_watch_delay_ms <= 20_000,
    ensures
        settings_key(s, Key::Esc) == settings_key(s, Key::Enter),
        settings_key(s, Key::Esc).1 is SaveConfigAndApplyWatch,
        !settings_key(s, Key::Esc).0.popups.settings,
        settings_key(s, Key::Esc).0.config == s.config,
        settings_key(s, Key::Esc).0.tree == s.tree,
{
}

/// Asked whether to quit, Enter and `y` quit, Esc and `n` go on, and any other
/// key leaves the question open.
pub proof fn law_quitting_takes_a_yes(s: SessionView, k: Key)
    ensures
        ({
            let (after, action) = exit_key(s, k);
            let yes = k == Key::Enter || k == Key::Char('y') || k == Key::Char('Y');
            let no = k == Key::Esc || k == Key::Char('n') || k == Key::Char('N');
            &&& action is Quit <==> yes
            &&& no ==> !after.popups.exit && action is Nothing
            &&& !no ==> after == s
            &&& after.tree == s.tree && after.config == s.config
        }),
{
}

} // verus!
