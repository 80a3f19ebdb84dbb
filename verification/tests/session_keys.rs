use dotest::domain::discovery::DiscoveredTest;
use dotest::domain::selection::collect_selected_tests;
use dotest::domain::tree::build_discovered_tree;
use dotest::ui::actions::Action;
use dotest::ui::config::{RunConfig, TestPreset, Verbosity, ViewMode};
use dotest::ui::failed_tests::FailedTestInfo;
use dotest::ui::keys::{Key, KeyPress};
use dotest::ui::layout::Area;
use dotest::ui::mouse::{MouseEvent, MouseKind};
use dotest::ui::rows::RowStyle;
use dotest::ui::run_results::RunResultsState;
use dotest::ui::session::Session;

const SCREEN: Area = Area { x: 0, y: 0, width: 100, height: 40 };

fn session() -> Session {
    let tests = vec![
        DiscoveredTest::new("Groups.A.One", "Ns.Groups.A.One", 1),
        DiscoveredTest::new("Groups.A.Two", "Ns.Groups.A.Two", 2),
        DiscoveredTest::new("Imports.B.Three", "Ns.Imports.B.Three", 4),
    ];
    Session::new(build_discovered_tree(&tests), RunConfig::default(), RunResultsState::default())
}

fn plain(key: Key) -> KeyPress {
    KeyPress { key, control: false, shift: false }
}

fn ctrl(c: char) -> KeyPress {
    KeyPress { key: Key::Char(c), control: true, shift: false }
}

fn press(s: &mut Session, k: KeyPress) -> Action {
    let frame = s.frame(SCREEN);
    s.on_key(k, &frame, SCREEN, 1_000_000_000)
}

fn tap(s: &mut Session, key: Key) -> Action {
    press(s, plain(key))
}

fn type_text(s: &mut Session, text: &str) {
    for c in text.chars() {
        tap(s, Key::Char(c));
    }
}

fn listed(s: &mut Session) -> Vec<String> {
    let frame = s.frame(SCREEN);
    frame.visible.iter().map(|&i| s.tree[i].label.clone()).collect()
}

fn with_failures(s: &mut Session) {
    s.failed = vec![
        FailedTestInfo { name: "Ns.A.One(1)".to_string(), details: vec![] },
        FailedTestInfo {
            name: "Ns.A.Two".to_string(),
            details: vec!["boom".to_string(), "at X in /s/T.cs:line 3".to_string()],
        },
    ];
    s.failure.shown = true;
}

#[test]
fn arrows_move_and_wrap_around() {
    let mut s = session();
    tap(&mut s, Key::Up);
    assert_eq!(s.cursor, Some(1));
    tap(&mut s, Key::Down);
    assert_eq!(s.cursor, Some(0));
    tap(&mut s, Key::Down);
    tap(&mut s, Key::Down);
    assert_eq!(s.cursor, Some(0));
}

#[test]
fn folders_are_expanded_and_folded() {
    let mut s = session();
    assert_eq!(listed(&mut s), vec!["Groups", "Imports"]);
    tap(&mut s, Key::Right);
    assert_eq!(listed(&mut s), vec!["Groups", "A", "Imports"]);
    tap(&mut s, Key::Right);
    assert_eq!(listed(&mut s), vec!["Groups", "A", "Imports"]);
    tap(&mut s, Key::Down);
    tap(&mut s, Key::Right);
    tap(&mut s, Key::Down);
    assert_eq!(s.cursor, Some(2));
    tap(&mut s, Key::Left);
    assert_eq!(s.cursor, Some(1));
    tap(&mut s, Key::Left);
    assert_eq!(listed(&mut s), vec!["Groups", "A", "Imports"]);
    tap(&mut s, Key::Left);
    assert_eq!(s.cursor, Some(0));
    tap(&mut s, Key::Left);
    assert_eq!(listed(&mut s), vec!["Groups", "Imports"]);
}

#[test]
fn space_checks_a_folder_and_what_is_below() {
    let mut s = session();
    tap(&mut s, Key::Char(' '));
    assert_eq!(collect_selected_tests(&s.tree), vec!["Ns.Groups.A.One", "Ns.Groups.A.Two"]);
    tap(&mut s, Key::Char(' '));
    assert!(collect_selected_tests(&s.tree).is_empty());
}

#[test]
fn a_partly_checked_folder_is_marked() {
    let mut s = session();
    type_text(&mut s, "One");
    assert_eq!(listed(&mut s), vec!["Groups", "A", "One"]);
    tap(&mut s, Key::Down);
    tap(&mut s, Key::Down);
    tap(&mut s, Key::Char(' '));
    assert!(s.tree[0].is_partial && !s.tree[0].is_selected);
    assert_eq!(s.show_row(0), "▶ [~] Groups");
    assert_eq!(s.show_row(2), "      [x] One");
}

#[test]
fn all_tests_are_toggled_together() {
    let mut s = session();
    press(&mut s, ctrl('a'));
    assert_eq!(collect_selected_tests(&s.tree).len(), 3);
    press(&mut s, ctrl('a'));
    assert!(collect_selected_tests(&s.tree).is_empty());
}

#[test]
fn a_search_limits_what_is_toggled() {
    let mut s = session();
    type_text(&mut s, "Two");
    press(&mut s, ctrl('a'));
    assert_eq!(collect_selected_tests(&s.tree), vec!["Ns.Groups.A.Two"]);
    assert!(s.tree[0].is_partial && s.tree[1].is_partial && !s.tree[1].is_selected);
    tap(&mut s, Key::Esc);
    type_text(&mut s, "Three");
    press(&mut s, ctrl('a'));
    assert_eq!(collect_selected_tests(&s.tree), vec!["Ns.Groups.A.Two", "Ns.Imports.B.Three"]);
    assert!(s.tree[4].is_selected && s.tree[5].is_selected);
    press(&mut s, ctrl('a'));
    assert_eq!(collect_selected_tests(&s.tree), vec!["Ns.Groups.A.Two"]);
    tap(&mut s, Key::Esc);
    press(&mut s, ctrl('a'));
    assert!(collect_selected_tests(&s.tree).is_empty());
}

#[test]
fn typing_searches_and_esc_clears() {
    let mut s = session();
    type_text(&mut s, "three");
    assert_eq!(s.query, "three");
    assert_eq!(listed(&mut s), vec!["Imports", "B", "Three"]);
    tap(&mut s, Key::Backspace);
    assert_eq!(s.query, "thre");
    tap(&mut s, Key::Esc);
    assert!(s.query.is_empty());
    assert_eq!(listed(&mut s), vec!["Groups", "Imports"]);
    type_text(&mut s, "zzz");
    assert!(listed(&mut s).is_empty());
    assert_eq!(s.cursor, None);
}

#[test]
fn esc_asks_before_it_quits() {
    let mut s = session();
    assert!(matches!(tap(&mut s, Key::Esc), Action::Nothing));
    assert!(s.popups.exit);
    assert!(matches!(tap(&mut s, Key::Char('n')), Action::Nothing));
    assert!(!s.popups.exit);
    tap(&mut s, Key::Esc);
    assert!(matches!(tap(&mut s, Key::Char('Y')), Action::Quit));
    s.popups.exit = false;
    s.config.confirm_exit_on_esc = false;
    assert!(matches!(tap(&mut s, Key::Esc), Action::Quit));
}

#[test]
fn help_opens_and_closes() {
    let mut s = session();
    tap(&mut s, Key::Char('?'));
    assert!(s.popups.help);
    tap(&mut s, Key::Down);
    assert!(s.popups.help);
    tap(&mut s, Key::Enter);
    assert!(!s.popups.help);
    tap(&mut s, Key::F(1));
    assert!(s.popups.help);
}

#[test]
fn results_of_the_focused_leaf_are_shown_and_hidden() {
    let mut s = session();
    s.on_run_started(1, 0);
    s.on_line("Failed Ns.Groups.A.One".to_string(), 0);
    s.on_line("because".to_string(), 0);
    s.on_finished(Some(1), 0);
    s.failure.shown = false;
    type_text(&mut s, "One");
    let frame = s.frame(SCREEN);
    assert!(!frame.panel_shown);
    tap(&mut s, Key::Up);
    let frame = s.frame(SCREEN);
    assert!(frame.panel_shown);
    let lines = frame.leaf_lines.unwrap();
    assert_eq!(&lines[..3], &["Failed Ns.Groups.A.One", "", "because"]);
    assert_eq!(frame.focused.as_deref(), Some("Ns.Groups.A.One"));
    assert_eq!(s.show_output_title(0), " Result (Failed) — Ns.Groups.A.One ");
    s.query.clear();
    s.tree[0].is_expanded = true;
    s.tree[1].is_expanded = true;
    s.cursor = Some(2);
    tap(&mut s, Key::Esc);
    assert!(s.results_hidden);
    assert!(!s.frame(SCREEN).panel_shown);
    tap(&mut s, Key::Down);
    s.frame(SCREEN);
    assert!(!s.results_hidden);
}

#[test]
fn view_modes_are_switched_and_saved() {
    let mut s = session();
    assert!(matches!(press(&mut s, ctrl('v')), Action::SaveConfig));
    assert_eq!(s.config.view_mode, ViewMode::LiveOutput);
    press(&mut s, ctrl('V'));
    assert_eq!(s.config.view_mode, ViewMode::Results);
}

#[test]
fn results_are_cleared() {
    let mut s = session();
    s.on_run_started(1, 0);
    s.on_line("Failed Ns.Groups.A.One".to_string(), 0);
    assert!(matches!(press(&mut s, ctrl('x')), Action::DeleteResults));
    assert!(s.results.is_empty() && s.failed.is_empty() && s.results_hidden);
}

#[test]
fn esc_stops_a_run() {
    let mut s = session();
    s.on_run_started(42, 0);
    match tap(&mut s, Key::Esc) {
        Action::Kill(pid) => assert_eq!(pid, 42),
        other => panic!("{:?}", other),
    }
    assert!(!s.run.running && !s.run.listening);
    assert_eq!(s.lines, vec!["", "⚠ Cancelled (1.0s)"]);
}

#[test]
fn esc_stops_a_churn() {
    let mut s = session();
    press(&mut s, ctrl('a'));
    press(&mut s, ctrl('u'));
    s.on_run_started(42, 0);
    s.on_finished(Some(0), 500_000_000);
    s.on_iteration_started(43, 0);
    assert!(matches!(tap(&mut s, Key::Esc), Action::Kill(43)));
    let n = s.lines.len();
    assert_eq!(
        s.lines[n - 4..],
        [
            "".to_string(),
            "⚠ Churn stopped by user at iteration 2 (1.0s)".to_string(),
            "  Successful iterations before stop: 1".to_string(),
            "  Duration stats: avg 0.5s  |  min 0.5s  |  max 0.5s".to_string(),
        ]
    );
    assert!(!s.churn.active);
}

#[test]
fn quick_churn_takes_shift_or_a_capital() {
    let mut s = session();
    press(&mut s, ctrl('a'));
    press(&mut s, ctrl('U'));
    assert_eq!(s.churn.limit, Some(100));
    let mut s = session();
    press(&mut s, ctrl('a'));
    press(&mut s, KeyPress { key: Key::Char('u'), control: true, shift: true });
    assert_eq!(s.churn.limit, Some(100));
    let mut s = session();
    press(&mut s, ctrl('a'));
    press(&mut s, ctrl('u'));
    assert_eq!(s.churn.limit, None);
}

#[test]
fn keys_start_nothing_while_tests_run() {
    let mut s = session();
    press(&mut s, ctrl('a'));
    s.on_run_started(42, 0);
    for k in [plain(Key::Enter), ctrl('u'), plain(Key::F(5)), ctrl('s'), plain(Key::Char('q'))] {
        assert!(matches!(press(&mut s, k), Action::Nothing));
    }
    assert!(s.run.running && !s.popups.saving && s.query.is_empty());
    tap(&mut s, Key::Down);
    assert_eq!(s.cursor, Some(1));
    s.config.view_mode = ViewMode::LiveOutput;
    tap(&mut s, Key::Down);
    assert_eq!(s.cursor, Some(1));
}

#[test]
fn keys_keep_the_rows() {
    let mut s = session();
    let labels: Vec<String> = s.tree.iter().map(|n| n.label.clone()).collect();
    for k in [Key::Right, Key::Char(' '), Key::Down, Key::Left, Key::Char('x'), Key::Backspace] {
        tap(&mut s, k);
        let now: Vec<String> = s.tree.iter().map(|n| n.label.clone()).collect();
        assert_eq!(now, labels);
    }
}

#[test]
fn output_is_scrolled() {
    let mut s = session();
    s.config.view_mode = ViewMode::LiveOutput;
    s.lines = (0..100).map(|i| i.to_string()).collect();
    let max = s.frame(SCREEN).scroll_max;
    assert!(max > 5);
    assert_eq!(s.scroll, max);
    tap(&mut s, Key::PageUp);
    assert_eq!(s.scroll, max - 5);
    assert!(!s.follow);
    tap(&mut s, Key::Home);
    assert_eq!(s.scroll, 0);
    tap(&mut s, Key::PageDown);
    assert_eq!(s.scroll, 5);
    tap(&mut s, Key::End);
    assert_eq!(s.scroll, max);
    assert!(s.follow);
    s.lines.truncate(1);
    s.follow = false;
    s.frame(SCREEN);
    assert_eq!(s.scroll, 0);
}

#[test]
fn tests_pane_is_resized() {
    let mut s = session();
    s.config.view_mode = ViewMode::LiveOutput;
    s.lines = vec!["x".to_string()];
    s.frame(SCREEN);
    assert_eq!(s.tests_pane_rows, Some(8));
    press(&mut s, ctrl('o'));
    assert_eq!(s.tests_pane_rows, Some(9));
    press(&mut s, ctrl('i'));
    press(&mut s, ctrl('I'));
    assert_eq!(s.tests_pane_rows, Some(7));
}

#[test]
fn settings_are_changed_with_space() {
    let mut s = session();
    press(&mut s, ctrl('p'));
    assert!(s.popups.settings);
    tap(&mut s, Key::Char(' '));
    assert!(!s.config.no_build);
    tap(&mut s, Key::Down);
    tap(&mut s, Key::Char(' '));
    assert!(!s.config.no_restore);
    tap(&mut s, Key::Down);
    tap(&mut s, Key::Char(' '));
    assert_eq!(s.config.verbosity, Verbosity::Detailed);
    tap(&mut s, Key::Down);
    tap(&mut s, Key::Char(' '));
    tap(&mut s, Key::Down);
    tap(&mut s, Key::Char(' '));
    assert_eq!(s.config.view_mode, ViewMode::LiveOutput);
    tap(&mut s, Key::Down);
    assert!(matches!(tap(&mut s, Key::Char(' ')), Action::ApplyWatch));
    assert!(s.config.manual_watch_enabled);
    tap(&mut s, Key::Down);
    tap(&mut s, Key::Right);
    assert_eq!(s.config.manual_watch_delay_ms, 2200);
    tap(&mut s, Key::Left);
    tap(&mut s, Key::Left);
    assert_eq!(s.config.manual_watch_delay_ms, 1800);
    tap(&mut s, Key::Down);
    tap(&mut s, Key::Char(' '));
    assert!(!s.config.confirm_exit_on_esc);
    tap(&mut s, Key::Down);
    assert_eq!(s.popups.settings_cursor, 7);
    s.config.manual_watch_delay_ms = 7;
    assert!(matches!(tap(&mut s, Key::Esc), Action::SaveConfigAndApplyWatch));
    assert_eq!(s.config.manual_watch_delay_ms, 200);
    assert!(!s.popups.settings);
}

#[test]
fn delays_stay_in_range() {
    let mut s = session();
    press(&mut s, ctrl('p'));
    s.popups.settings_cursor = 6;
    for _ in 0..200 {
        tap(&mut s, Key::Right);
    }
    assert_eq!(s.config.manual_watch_delay_ms, 20_000);
    for _ in 0..200 {
        tap(&mut s, Key::Left);
    }
    assert_eq!(s.config.manual_watch_delay_ms, 200);
}

#[test]
fn watching_is_switched_and_said() {
    let mut s = session();
    assert!(matches!(press(&mut s, ctrl('w')), Action::SaveConfigAndApplyWatch));
    assert!(s.config.manual_watch_enabled);
    assert_eq!(
        s.lines.last().unwrap(),
        "✓ Manual watch ON — checked tests re-run when you save `.cs` files."
    );
    press(&mut s, ctrl('W'));
    assert_eq!(s.lines.last().unwrap(), "○ Manual watch OFF.");
}

#[test]
fn presets_are_saved_and_run() {
    let mut s = session();
    press(&mut s, ctrl('s'));
    assert_eq!(s.lines, vec!["⚠ Select at least one test before saving a preset."]);
    press(&mut s, ctrl('l'));
    assert_eq!(
        s.lines.last().unwrap(),
        "⚠ No presets saved yet. Press Ctrl+S to save one."
    );
    tap(&mut s, Key::Char(' '));
    press(&mut s, ctrl('s'));
    assert!(s.popups.saving);
    assert_eq!(s.preset_name, "Preset 1");
    tap(&mut s, Key::Backspace);
    tap(&mut s, Key::Char('x'));
    tap(&mut s, Key::Tab);
    type_text(&mut s, " slow ");
    assert!(matches!(tap(&mut s, Key::Enter), Action::SaveConfig));
    assert_eq!(s.lines.last().unwrap(), "✓ Preset 'Preset x' saved. Total presets: 1.");
    let p = &s.config.presets[0];
    assert_eq!(p.tag.as_deref(), Some("slow"));
    assert_eq!(p.tests, vec!["Ns.Groups.A.One", "Ns.Groups.A.Two"]);
    assert!(s.preset_name.is_empty() && !s.popups.saving);
    press(&mut s, ctrl('a'));
    press(&mut s, ctrl('a'));
    press(&mut s, ctrl('l'));
    assert!(s.popups.presets);
    assert!(matches!(tap(&mut s, Key::Enter), Action::StartRun(_)));
    assert_eq!(s.lines[0], "━━━ Running preset 'Preset x' (2 available test(s))… ━━━");
    assert!(!s.popups.presets);
    assert_eq!(collect_selected_tests(&s.tree).len(), 2);
}

#[test]
fn preset_names_are_required_and_unique() {
    let mut s = session();
    tap(&mut s, Key::Char(' '));
    s.config.presets.push(TestPreset {
        name: "P".to_string(),
        tag: None,
        tests: vec![],
    });
    press(&mut s, ctrl('s'));
    s.preset_name = " P ".to_string();
    assert!(matches!(tap(&mut s, Key::Enter), Action::Nothing));
    assert_eq!(s.lines.last().unwrap(), "✗ Preset 'P' already exists.");
    s.preset_name = "  ".to_string();
    tap(&mut s, Key::Enter);
    assert_eq!(s.lines.last().unwrap(), "✗ Preset name is required.");
    assert!(s.popups.saving);
    tap(&mut s, Key::Esc);
    assert!(!s.popups.saving);
    assert_eq!(s.config.presets.len(), 1);
}

#[test]
fn presets_with_missing_tests_say_so() {
    let mut s = session();
    s.config.presets = vec![
        TestPreset { name: "Gone".to_string(), tag: None, tests: vec!["X".to_string()] },
        TestPreset {
            name: "Half".to_string(),
            tag: None,
            tests: vec!["X".to_string(), "Ns.Groups.A.One".to_string()],
        },
    ];
    press(&mut s, ctrl('l'));
    assert!(matches!(tap(&mut s, Key::Enter), Action::Nothing));
    assert_eq!(
        s.lines.last().unwrap(),
        "⚠ Preset 'Gone' has no tests available in current discovery."
    );
    press(&mut s, ctrl('l'));
    tap(&mut s, Key::Down);
    tap(&mut s, Key::Down);
    assert_eq!(s.popups.preset_cursor, 1);
    match tap(&mut s, Key::Enter) {
        Action::StartRun(r) => {
            assert_eq!(r.filter.as_deref(), Some("FullyQualifiedName~Ns.Groups.A.One"))
        }
        other => panic!("{:?}", other),
    }
}

#[test]
fn failures_are_picked_copied_and_run() {
    let mut s = session();
    with_failures(&mut s);
    match tap(&mut s, Key::Char('c')) {
        Action::Copy { text, done, refused } => {
            assert_eq!(text, "Ns.A.One(1)\nNs.A.Two");
            assert_eq!(done, "✓ Copied failed test names to clipboard.");
            assert_eq!(refused, "✗ Could not copy failed test names to clipboard.");
        }
        other => panic!("{:?}", other),
    }
    match tap(&mut s, Key::Char('d')) {
        Action::Copy { text, .. } => assert_eq!(text, "Ns.A.One(1)"),
        other => panic!("{:?}", other),
    }
    press(&mut s, KeyPress { key: Key::Down, control: false, shift: true });
    assert_eq!(s.failure.selection, 1);
    match tap(&mut s, Key::Char('m')) {
        Action::Copy { text, .. } => {
            assert_eq!(text, "Ns.A.Two\nboom\nat X in /s/T.cs:line 3")
        }
        other => panic!("{:?}", other),
    }
    press(&mut s, KeyPress { key: Key::Up, control: false, shift: true });
    match tap(&mut s, Key::Char('r')) {
        Action::StartRun(r) => assert_eq!(r.filter.as_deref(), Some("FullyQualifiedName~Ns.A.One")),
        other => panic!("{:?}", other),
    }
    assert_eq!(s.lines[0], "━━━ Re-running 1 failed test… ━━━");
    assert!(!s.failure.shown && s.failed.is_empty());
    with_failures(&mut s);
    match tap(&mut s, Key::Char('R')) {
        Action::StartRun(r) => assert_eq!(
            r.filter.as_deref(),
            Some("FullyQualifiedName~Ns.A.One|FullyQualifiedName~Ns.A.Two")
        ),
        other => panic!("{:?}", other),
    }
    assert_eq!(s.lines[0], "━━━ Re-running 2 failed test(s)… ━━━");
}

fn with_long_details(s: &mut Session) {
    with_failures(s);
    s.failed[0].details = (0..100).map(|i| i.to_string()).collect();
}

#[test]
fn failure_details_are_scrolled() {
    let mut s = session();
    with_long_details(&mut s);
    tap(&mut s, Key::Down);
    tap(&mut s, Key::PageDown);
    assert_eq!(s.failure.scroll, 6);
    tap(&mut s, Key::Up);
    tap(&mut s, Key::PageUp);
    assert_eq!(s.failure.scroll, 0);
    tap(&mut s, Key::End);
    assert_eq!(s.failure.scroll, s.details_end(SCREEN));
    tap(&mut s, Key::Home);
    assert_eq!(s.failure.scroll, 0);
    press(&mut s, KeyPress { key: Key::End, control: false, shift: true });
    assert_eq!(s.failure.selection, 1);
    press(&mut s, KeyPress { key: Key::Home, control: false, shift: true });
    assert_eq!(s.failure.selection, 0);
    press(&mut s, ctrl('o'));
    assert_eq!(s.failure.cols, Some(36));
    tap(&mut s, Key::Char('?'));
    assert!(s.failure.help);
    tap(&mut s, Key::Esc);
    assert!(!s.failure.help && s.failure.shown);
    tap(&mut s, Key::Esc);
    assert!(!s.failure.shown);
}

#[test]
fn end_reaches_the_last_detail_and_keys_go_on_from_there() {
    let mut s = session();
    with_long_details(&mut s);
    let bottom = 100 - s.detail_pane(SCREEN).height;
    tap(&mut s, Key::End);
    s.frame(SCREEN);
    assert_eq!(s.failure.scroll, bottom);
    tap(&mut s, Key::Up);
    assert_eq!(s.failure.scroll, bottom - 1);
    tap(&mut s, Key::PageDown);
    s.frame(SCREEN);
    assert_eq!(s.failure.scroll, bottom + 4);
    s.failed.clear();
    tap(&mut s, Key::End);
    assert_eq!(s.failure.scroll, 0);
}

#[test]
fn drawing_leaves_the_details_where_they_are() {
    let mut s = session();
    with_failures(&mut s);
    tap(&mut s, Key::Down);
    s.frame(SCREEN);
    assert_eq!(s.failure.scroll, 1);
    tap(&mut s, Key::PageDown);
    s.frame(SCREEN);
    assert_eq!(s.failure.scroll, 6);
    s.failure.scroll = u16::MAX - 2;
    tap(&mut s, Key::PageDown);
    s.frame(SCREEN);
    assert_eq!(s.failure.scroll, u16::MAX);
    tap(&mut s, Key::End);
    s.frame(SCREEN);
    assert_eq!(s.failure.scroll, 0);
}

#[test]
fn details_are_dragged() {
    let mut s = session();
    with_long_details(&mut s);
    let frame = s.frame(SCREEN);
    let at = |kind, column, row| MouseEvent { kind, column, row };
    s.on_mouse(at(MouseKind::Drag, 40, 10), &frame, SCREEN, 0);
    assert_eq!(s.failure.scroll, 0);
    s.on_mouse(at(MouseKind::LeftDown, 40, 20), &frame, SCREEN, 0);
    s.on_mouse(at(MouseKind::Drag, 41, 12), &frame, SCREEN, 0);
    assert_eq!(s.failure.scroll, 8);
    s.on_mouse(at(MouseKind::Drag, 41, 15), &frame, SCREEN, 0);
    assert_eq!(s.failure.scroll, 5);
    s.on_mouse(at(MouseKind::Drag, 40, 20), &frame, SCREEN, 0);
    assert_eq!(s.failure.scroll, 0);
    s.on_mouse(at(MouseKind::Drag, 40, 25), &frame, SCREEN, 0);
    assert_eq!(s.failure.scroll, 0);
    s.on_mouse(at(MouseKind::Other, 40, 25), &frame, SCREEN, 0);
    s.on_mouse(at(MouseKind::Drag, 40, 5), &frame, SCREEN, 0);
    assert_eq!(s.failure.scroll, 0);
    s.on_mouse(at(MouseKind::LeftDown, 3, 20), &frame, SCREEN, 0);
    s.on_mouse(at(MouseKind::Drag, 40, 5), &frame, SCREEN, 0);
    assert_eq!(s.failure.scroll, 0);
    assert_eq!(s.failure.drag, Some(5));
}

#[test]
fn running_failures_waits_for_the_run() {
    let mut s = session();
    s.on_run_started(1, 0);
    with_failures(&mut s);
    assert!(matches!(tap(&mut s, Key::Char('r')), Action::Nothing));
    assert!(matches!(tap(&mut s, Key::Char('R')), Action::Nothing));
    assert!(s.failure.shown);
}

#[test]
fn the_summary_opens_with_a_key() {
    let mut s = session();
    s.lines = vec!["Failed A.B".to_string(), "why".to_string()];
    press(&mut s, ctrl('e'));
    assert!(s.failure.shown);
    assert_eq!(s.failed.len(), 1);
    s.failed.clear();
    s.failure.shown = false;
    s.failure.selection = 7;
    s.on_run_started(1, 0);
    press(&mut s, ctrl('e'));
    assert!(s.failure.shown && s.failed.is_empty());
    assert_eq!(s.failure.selection, 0);
}

#[test]
fn fullscreen_output_is_left_with_esc() {
    let mut s = session();
    s.popups.fullscreen = true;
    assert_eq!(s.frame(SCREEN).panes.len(), 2);
    tap(&mut s, Key::Char('a'));
    assert!(s.query.is_empty());
    tap(&mut s, Key::Esc);
    assert!(!s.popups.fullscreen);
}

#[test]
fn clicks_focus_a_row() {
    let mut s = session();
    let frame = s.frame(SCREEN);
    let click = MouseEvent { kind: MouseKind::LeftDown, column: 5, row: 2 };
    s.on_mouse(click, &frame, SCREEN, 0);
    assert_eq!(s.cursor, Some(1));
    let outside = MouseEvent { kind: MouseKind::LeftDown, column: 5, row: 20 };
    s.on_mouse(outside, &frame, SCREEN, 0);
    assert_eq!(s.cursor, Some(1));
    s.popups.help = true;
    let first = MouseEvent { kind: MouseKind::LeftDown, column: 5, row: 1 };
    s.on_mouse(first, &frame, SCREEN, 0);
    assert_eq!(s.cursor, Some(1));
}

#[test]
fn the_wheel_scrolls_the_output() {
    let mut s = session();
    s.config.view_mode = ViewMode::LiveOutput;
    s.lines = (0..100).map(|i| i.to_string()).collect();
    let frame = s.frame(SCREEN);
    let up = MouseEvent { kind: MouseKind::ScrollUp, column: 5, row: 20 };
    s.on_mouse(up, &frame, SCREEN, 0);
    assert_eq!(s.scroll, frame.scroll_max - 3);
    assert!(!s.follow);
    let down = MouseEvent { kind: MouseKind::ScrollDown, column: 5, row: 20 };
    s.on_mouse(down, &frame, SCREEN, 0);
    assert_eq!(s.scroll, frame.scroll_max);
    assert!(s.follow);
}

#[test]
fn clicks_in_the_summary_pick_and_open() {
    let mut s = session();
    with_failures(&mut s);
    let frame = s.frame(SCREEN);
    let second = MouseEvent { kind: MouseKind::LeftDown, column: 3, row: 2 };
    s.on_mouse(second, &frame, SCREEN, 0);
    assert_eq!(s.failure.selection, 1);
    let link = MouseEvent { kind: MouseKind::LeftDown, column: 40, row: 2 };
    match s.on_mouse(link, &frame, SCREEN, 0) {
        Action::Open(target) => {
            assert_eq!(target.path, "/s/T.cs");
            s.on_opened(&target, None);
            assert_eq!(s.lines.last().unwrap(), "✓ Opened /s/T.cs (line 3).");
            s.on_opened(&target, Some("no editor".to_string()));
            assert_eq!(s.lines.last().unwrap(), "✗ Could not open /s/T.cs: no editor");
        }
        other => panic!("{:?}", other),
    }
    let over = MouseEvent { kind: MouseKind::Moved, column: 40, row: 2 };
    s.on_mouse(over, &frame, SCREEN, 0);
    assert_eq!(s.failure.hover, Some(1));
    let wheel = MouseEvent { kind: MouseKind::ScrollDown, column: 40, row: 2 };
    s.on_mouse(wheel, &frame, SCREEN, 0);
    assert_eq!(s.failure.scroll, 3);
    assert_eq!(s.failure.hover, None);
}

#[test]
fn rows_are_styled_by_outcome() {
    let mut s = session();
    assert_eq!(s.style_row(0, 0), RowStyle::Focused);
    assert_eq!(s.style_row(0, 9), RowStyle::TopFolder);
    assert_eq!(s.style_row(1, 9), RowStyle::Folder);
    assert_eq!(s.style_row(2, 9), RowStyle::Plain);
    s.tree[2].is_selected = true;
    assert_eq!(s.style_row(2, 9), RowStyle::Checked);
    s.on_run_started(1, 0);
    s.on_line("Failed Ns.Groups.A.Two".to_string(), 0);
    assert_eq!(s.style_row(2, 9), RowStyle::Checked);
    s.on_line("Passed Ns.Groups.A.One".to_string(), 0);
    assert_eq!(s.style_row(2, 9), RowStyle::Passed);
    assert_eq!(s.style_row(3, 9), RowStyle::Failed);
    assert_eq!(s.style_row(0, 9), RowStyle::FolderFailed);
    assert_eq!(s.style_row(4, 9), RowStyle::TopFolder);
    assert_eq!(s.show_row(0), "▶ [ ] Groups  1✓ 1✗");
    assert_eq!(s.show_row(3), "      [ ] Two  ✗");
    s.config.view_mode = ViewMode::LiveOutput;
    assert_eq!(s.show_row(3), "      [ ] Two");
}
