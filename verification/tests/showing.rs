use dotest::domain::discovery::DiscoveredTest;
use dotest::domain::tree::build_discovered_tree;
use dotest::ui::config::{
    clamp_delay, default_confirm_exit_on_esc, default_manual_watch_delay_ms, default_no_restore,
    default_output_mode, default_view_mode, loaded_or_default, longer_delay, shorter_delay,
    OutputMode, RunConfig, TestPreset, Verbosity, ViewMode,
};
use dotest::ui::keys::{Key, KeyPress};
use dotest::ui::rows::{show_preset, show_settings, show_tests_title};
use dotest::ui::run_results::RunResultsState;
use dotest::ui::search::{
    abbreviates_words, begins_word_after, classify, is_word_boundary, list_rows, match_abbrev,
    matches_in_lowercase, visible_indices,
};
use dotest::ui::session::Session;

const SECOND: u128 = 1_000_000_000;

fn session() -> Session {
    let tree = build_discovered_tree(&[
        DiscoveredTest::new("Groups.Alpha", "Ns.Groups.Alpha", 1),
        DiscoveredTest::new("Imports.BetaGamma", "Ns.Imports.BetaGamma", 1),
    ]);
    Session::new(tree, RunConfig::default(), RunResultsState::default())
}

#[test]
fn defaults_of_the_settings() {
    let c = RunConfig::default();
    assert!(c.no_build && c.no_restore && c.confirm_exit_on_esc && !c.manual_watch_enabled);
    assert_eq!(c.verbosity, Verbosity::Normal);
    assert_eq!(c.output_mode, default_output_mode());
    assert_eq!(c.view_mode, default_view_mode());
    assert_eq!(c.manual_watch_delay_ms, default_manual_watch_delay_ms());
    assert_eq!(default_manual_watch_delay_ms(), 2000);
    assert!(default_no_restore() && default_confirm_exit_on_esc());
    assert!(c.presets.is_empty() && c.tests_pane_rows.is_none());
    let mut other = RunConfig::default();
    other.no_build = false;
    assert!(!loaded_or_default(Some(other)).no_build);
    assert!(loaded_or_default(None).no_build);
}

#[test]
fn settings_cycle() {
    assert_eq!(Verbosity::Minimal.next().next().next(), Verbosity::Minimal);
    assert_eq!(Verbosity::Normal.next(), Verbosity::Detailed);
    assert_eq!(OutputMode::Split.other().other(), OutputMode::Split);
    assert_eq!(ViewMode::Results.other(), ViewMode::LiveOutput);
    assert_eq!(clamp_delay(1), 200);
    assert_eq!(clamp_delay(90_000), 20_000);
    assert_eq!(shorter_delay(100), 200);
    assert_eq!(longer_delay(19_900), 20_000);
}

#[test]
fn settings_are_listed() {
    let lines = show_settings(&RunConfig::default());
    assert_eq!(
        lines,
        vec![
            "  [x]  Skip build  (--no-build)",
            "  [x]  Skip restore  (--no-restore)",
            "  [∙]  Log verbosity:  Normal  (Space: cycle)",
            "  [∙]  Output layout:  Split (tree + output)  (Space: toggle)",
            "  [∙]  View mode:  Results (tree colors + leaf panel)  (Space: toggle)",
            "  [ ]  Manual watch:  off — re-runs only checked tests on `.cs` save",
            "  [∙]  Watch debounce:  2000 ms   ←/→: ±200 ms",
            "  [x]  Confirm exit on Esc",
        ]
    );
}

#[test]
fn presets_and_titles_are_written() {
    let mut p = TestPreset { name: "P".to_string(), tag: None, tests: vec!["x".to_string()] };
    assert_eq!(show_preset(&p), "P (1 tests)");
    p.tag = Some("slow".to_string());
    assert_eq!(show_preset(&p), "P (1 tests)  [tag: slow]");
    assert_eq!(show_tests_title(2, 30), " Tests (2/30) ");
}

#[test]
fn output_titles_follow_the_run() {
    let mut s = session();
    assert_eq!(s.show_output_title(0), " Result (Result) — test ");
    s.config.view_mode = ViewMode::LiveOutput;
    assert_eq!(s.show_output_title(0), " Output (Done - 0 total) [follow]  |  ✓:0  ✗:0  ⚠:0 ");
    s.on_run_started(1, SECOND);
    s.run.tally.failed = 2;
    s.follow = false;
    assert_eq!(
        s.show_output_title(3 * SECOND),
        " Output (Running... 2.0s) [scroll]  |  ✓:0  ✗:2  ⚠:0 "
    );
    s.churn.active = true;
    s.churn.iteration = 4;
    s.churn.limit = Some(100);
    assert_eq!(
        s.show_output_title(3 * SECOND),
        " Output (Churning 4/100... 2.0s) [scroll]  |  ✓:0  ✗:2  ⚠:0 "
    );
    s.rediscovery.active = true;
    s.rediscovery.since = Some(0);
    assert_eq!(s.show_output_title(SECOND), " Output (Rediscovering... 1.0s) [follow] ");
}

#[test]
fn the_status_line_follows_the_run() {
    let mut s = session();
    assert_eq!(
        s.show_status(0),
        " Arrows: nav  Space: toggle  Enter: run  Ctrl+U: churn  Ctrl+V: view  Ctrl+X: clear results   View: Results  Ctrl+S: preset  Ctrl+L: presets  Ctrl+E: failed  ?: help  Esc: quit "
    );
    s.config.manual_watch_enabled = true;
    s.query = "ab".to_string();
    assert_eq!(
        s.show_status(0),
        " Search: ab  |  Esc: clear  Enter: run  ?: help  ● WATCH ON   View: Results"
    );
    s.query.clear();
    s.config.manual_watch_enabled = false;
    s.on_run_started(1, 0);
    assert_eq!(
        s.show_status(SECOND),
        " Running... 1.0s  |  ✓:0 ✗:0 ⚠:0  ←/→: expand  Ctrl+E: failed summary  Esc: cancel  View: Results"
    );
    s.churn.active = true;
    s.churn.iteration = 2;
    s.config.view_mode = ViewMode::LiveOutput;
    assert_eq!(
        s.show_status(SECOND),
        " Churning iteration 2/∞... 1.0s  |  ✓:0 ✗:0 ⚠:0  Ctrl+E: failed summary  Esc: stop  View: Live"
    );
    s.popups.fullscreen = true;
    assert_eq!(
        s.show_status(SECOND),
        " Fullscreen output... 1.0s  |  PgUp/PgDn/Home/End/mouse: scroll  Ctrl+E: failed summary  Esc: cancel run  View: Live"
    );
    s.run.running = false;
    assert_eq!(
        s.show_status(SECOND),
        " Fullscreen output  |  PgUp/PgDn/Home/End/mouse: scroll  Esc: back to tree  View: Live"
    );
    s.popups.fullscreen = false;
    s.rediscovery.active = true;
    s.rediscovery.since = Some(0);
    assert_eq!(
        s.show_status(2 * SECOND),
        " Rediscovering tests... 2.0s  |  UI remains responsive  View: Live"
    );
}

#[test]
fn words_begin_at_capitals_digits_and_marks() {
    assert!(is_word_boundary('a', None));
    assert!(is_word_boundary('B', Some('a')));
    assert!(!is_word_boundary('B', Some('A')));
    assert!(is_word_boundary('1', Some('a')));
    assert!(!is_word_boundary('2', Some('1')));
    assert!(is_word_boundary('a', Some('_')));
    assert!(is_word_boundary('a', Some('.')));
    assert!(is_word_boundary('a', Some('-')));
    assert!(!is_word_boundary('b', Some('a')));
    assert!(begins_word_after(classify('Ä'), 'a', classify('a')));
}

#[test]
fn every_beginning_matches_and_typing_narrows() {
    let target = "MoveRows_ToBatch2";
    for n in 0..=target.len() {
        assert!(match_abbrev(&target[..n], target));
        assert!(match_abbrev(&target[..n].to_uppercase(), target));
    }
    assert!(match_abbrev("mrtb2", target));
    assert!(match_abbrev("mrtb", target));
    assert!(!match_abbrev("ove", target));
    assert!(match_abbrev("", ""));
    assert!(!match_abbrev("a", ""));
    let q: Vec<char> = "mt".chars().collect();
    let t: Vec<char> = "MoveTo".chars().collect();
    assert!(abbreviates_words(&q, &t, &vec![0, 4]));
    assert!(!abbreviates_words(&q, &t, &vec![0]));
}

#[test]
fn texts_match_in_any_case() {
    assert!(matches_in_lowercase("BetaGamma", "betagamma", "AGA", "aga"));
    assert!(matches_in_lowercase("BetaGamma", "betagamma", "bg", "bg"));
    assert!(!matches_in_lowercase("BetaGamma", "betagamma", "gb", "gb"));
}

#[test]
fn rows_are_listed_with_what_is_above_them() {
    let mut s = session();
    assert_eq!(visible_indices(&s.tree, ""), vec![0, 2]);
    s.tree[0].is_expanded = true;
    assert_eq!(visible_indices(&s.tree, ""), vec![0, 1, 2]);
    assert_eq!(visible_indices(&s.tree, "gam"), vec![2, 3]);
    assert_eq!(visible_indices(&s.tree, "BG"), vec![2, 3]);
    assert_eq!(visible_indices(&s.tree, "NS.GROUPS"), vec![0, 1]);
    assert!(visible_indices(&s.tree, "nothing").is_empty());
    assert_eq!(list_rows(&s.tree, &vec![false, false, false, true], true), vec![2, 3]);
    assert_eq!(list_rows(&s.tree, &vec![true, true, true, true], false), vec![0, 1, 2]);
}

#[test]
fn sums_are_checked_before_they_are_shown() {
    let mut s = session();
    s.run.tally.passed = usize::MAX;
    s.run.tally.failed = 1;
    assert!(s.title_fits());
    s.config.view_mode = ViewMode::LiveOutput;
    assert!(!s.title_fits());
    assert!(!s.takes_line("  Passed A "));
    assert!(s.takes_line("Failed A"));
    assert!(!s.ready_to_finish(Some(0), 0));
    s.churn.active = true;
    assert!(s.ready_to_finish(Some(0), 0));
    s.churn.successes = usize::MAX;
    assert!(!s.ready_to_finish(Some(0), 0));
    assert!(s.ready_to_finish(Some(1), 0));
}

#[test]
fn the_delay_has_room_or_the_key_is_not_taken() {
    let mut s = session();
    let right = KeyPress { key: Key::Right, control: false, shift: false };
    s.config.manual_watch_delay_ms = u32::MAX;
    assert!(s.takes_key(right));
    s.popups.settings = true;
    s.popups.settings_cursor = 6;
    assert!(!s.takes_key(right));
    s.config.manual_watch_delay_ms = u32::MAX - 200;
    assert!(s.takes_key(right));
    s.press_in_settings(Key::Right);
    assert_eq!(s.config.manual_watch_delay_ms, 20_000);
}
