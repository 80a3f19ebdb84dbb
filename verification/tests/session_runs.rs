use dotest::domain::discovery::DiscoveredTest;
use dotest::domain::selection::collect_selected_tests;
use dotest::domain::tree::build_discovered_tree;
use dotest::ui::actions::Action;
use dotest::ui::config::{OutputMode, RunConfig, Verbosity, ViewMode};
use dotest::ui::leaf_results::LeafStatus;
use dotest::ui::launch::NOTHING_CHECKED;
use dotest::ui::rediscovery::{can_be_counted, count_cases};
use dotest::ui::run_events::RULE;
use dotest::ui::run_results::RunResultsState;
use dotest::ui::session::Session;

const SECOND: u128 = 1_000_000_000;

fn tests() -> Vec<DiscoveredTest> {
    vec![
        DiscoveredTest::new("Groups.A.One", "Ns.Groups.A.One", 1),
        DiscoveredTest::new("Groups.A.Two", "Ns.Groups.A.Two", 2),
        DiscoveredTest::new("Imports.B.Three", "Ns.Imports.B.Three", 4),
    ]
}

fn session_with(config: RunConfig) -> Session {
    let tree = build_discovered_tree(&tests());
    Session::new(tree, config, RunResultsState::default())
}

fn session() -> Session {
    session_with(RunConfig::default())
}

fn check(s: &mut Session, key: &str) {
    for node in s.tree.iter_mut() {
        if node.fqn.as_deref() == Some(key) {
            node.is_selected = true;
        }
    }
}

fn start(s: &mut Session) {
    check(s, "Ns.Groups.A.One");
    let action = s.run_checked();
    assert!(matches!(action, Action::StartRun(_)));
    s.on_run_started(77, 10 * SECOND);
}

fn churn(s: &mut Session, quick: bool) {
    check(s, "Ns.Groups.A.One");
    let action = s.start_churn(quick);
    assert!(matches!(action, Action::StartChurn(_)));
    s.on_run_started(78, 0);
}

#[test]
fn checked_tests_are_launched_with_the_settings() {
    let mut s = session();
    check(&mut s, "Ns.Groups.A.Two");
    s.lines.push("old".to_string());
    s.failure.shown = true;
    match s.run_checked() {
        Action::StartRun(r) => {
            assert_eq!(r.filter.as_deref(), Some("FullyQualifiedName~Ns.Groups.A.Two"));
            assert_eq!(r.target_path, None);
            assert!(r.no_build && r.no_restore);
            assert_eq!(r.verbosity, Verbosity::Normal);
        }
        other => panic!("{:?}", other),
    }
    assert_eq!(s.lines, vec!["━━━ Running 2 selected test(s)… ━━━", ""]);
    assert!(!s.failure.shown);
    assert!(!s.run.running);
    s.on_run_started(5, 1);
    assert!(s.run.running && s.run.listening);
    assert_eq!(s.run.pid, Some(5));
}

#[test]
fn nothing_checked_launches_nothing() {
    let mut s = session();
    assert!(matches!(s.run_checked(), Action::Nothing));
    assert!(s.lines.is_empty());
}

#[test]
fn a_run_that_cannot_start_says_so() {
    let mut s = session();
    check(&mut s, "Ns.Groups.A.One");
    s.run_checked();
    s.on_run_refused("no dotnet");
    assert_eq!(s.lines.last().unwrap(), "Error: no dotnet");
    assert!(!s.run.running);
}

#[test]
fn live_runs_can_fill_the_screen() {
    let mut config = RunConfig::default();
    config.view_mode = ViewMode::LiveOutput;
    config.output_mode = OutputMode::Fullscreen;
    let mut s = session_with(config);
    start(&mut s);
    assert!(s.popups.fullscreen);
    let mut s = session();
    start(&mut s);
    assert!(!s.popups.fullscreen);
}

#[test]
fn lines_are_counted_attributed_and_kept() {
    let mut s = session();
    start(&mut s);
    s.on_line("  Passed Ns.Groups.A.One [3 ms]".to_string(), 11 * SECOND);
    s.on_line("  Failed Ns.Groups.A.Two [3 ms]".to_string(), 11 * SECOND);
    s.on_line("   boom".to_string(), 11 * SECOND);
    s.on_line("  Skipped Ns.Imports.B.Three".to_string(), 11 * SECOND);
    assert_eq!((s.run.tally.passed, s.run.tally.failed, s.run.tally.skipped), (1, 1, 1));
    assert_eq!(s.results.get("Ns.Groups.A.One").unwrap().status, LeafStatus::Passed);
    assert_eq!(s.results.get("Ns.Groups.A.Two").unwrap().details, vec!["   boom"]);
    assert_eq!(s.results.get("Ns.Imports.B.Three").unwrap().status, LeafStatus::Skipped);
    assert_eq!(s.failed.len(), 1);
    assert_eq!(s.failed[0].name, "Ns.Groups.A.Two");
    assert_eq!(s.failed[0].details, vec!["   boom"]);
    assert_eq!(s.lines.len(), 6);
    let counts = s.results.parent_counts.get(&0).unwrap();
    assert_eq!((counts.passed, counts.failed, counts.skipped), (1, 1, 0));
}

#[test]
fn labels_set_the_counts() {
    let mut s = session();
    start(&mut s);
    s.on_line("Passed! - Failed: 2, Passed: 17, Skipped:  3, Total: 22".to_string(), 0);
    assert_eq!((s.run.tally.passed, s.run.tally.failed, s.run.tally.skipped), (17, 2, 3));
    s.on_line("passed: none".to_string(), 0);
    assert_eq!(s.run.tally.passed, 17);
}

#[test]
fn a_finished_run_is_summed_up() {
    let mut s = session();
    start(&mut s);
    s.on_line("Passed Ns.Groups.A.One".to_string(), 0);
    s.on_line("Failed Ns.Groups.A.Two".to_string(), 0);
    s.on_line("why".to_string(), 0);
    assert!(s.ready_to_finish(Some(0), 12 * SECOND));
    let action = s.on_finished(Some(1), 12 * SECOND);
    assert!(matches!(action, Action::SaveResults));
    let n = s.lines.len();
    assert_eq!(
        s.lines[n - 5..],
        [
            "".to_string(),
            RULE.to_string(),
            "  Test Run Summary (2 total)  |  ✓ 1 Passed  |  ✗ 1 Failed".to_string(),
            "  Finished with exit code 1 in 2.0s".to_string(),
            RULE.to_string(),
        ]
    );
    assert!(!s.run.running);
    assert_eq!(s.run.pid, None);
    assert!(s.failure.shown);
    assert_eq!(s.failed[0].details[0], "why");
    assert_eq!(s.results.get("Ns.Groups.A.Two").unwrap().details, vec!["why"]);
}

#[test]
fn a_finished_run_without_failures_opens_nothing() {
    let mut s = session();
    start(&mut s);
    s.on_line("Passed Ns.Groups.A.One".to_string(), 0);
    s.on_finished(Some(0), 11 * SECOND);
    assert!(!s.failure.shown);
    assert!(s.lines.contains(&"  Finished successfully in 1.0s".to_string()));
    let mut s = session();
    start(&mut s);
    s.on_finished(None, 11 * SECOND);
    assert!(s.lines.contains(&"  Process terminated after 1.0s".to_string()));
}

#[test]
fn a_lost_process_ends_the_run() {
    let mut s = session();
    start(&mut s);
    s.on_disconnected(13 * SECOND);
    assert_eq!(s.lines.last().unwrap(), "✓ Process finished (3.0s)");
    assert!(!s.run.running);
    let n = s.lines.len();
    s.on_disconnected(14 * SECOND);
    assert_eq!(s.lines.len(), n);
}

#[test]
fn runs_leave_tree_and_settings_alone() {
    let mut s = session();
    start(&mut s);
    let before = collect_selected_tests(&s.tree);
    s.on_line("Passed Ns.Groups.A.One".to_string(), 0);
    s.on_finished(Some(0), 0);
    assert_eq!(collect_selected_tests(&s.tree), before);
    assert_eq!(s.cursor, Some(0));
    assert!(s.query.is_empty());
}

#[test]
fn churn_without_selection_is_refused() {
    let mut s = session();
    assert!(matches!(s.start_churn(false), Action::Nothing));
    assert_eq!(
        s.lines,
        vec!["⚠ Select at least one test before starting churn (Ctrl+U)."]
    );
    assert!(!s.churn.active);
}

#[test]
fn churn_begins_with_its_headings() {
    let mut s = session();
    churn(&mut s, true);
    assert_eq!(
        s.lines,
        vec![
            "━━━ Churning 1 selected test(s) until failure… ━━━",
            "  Iteration limit: 100 (quick churn mode)",
            "Iteration 1   ↻ Starting",
            "",
        ]
    );
    assert_eq!(s.churn.limit, Some(100));
    assert_eq!(s.churn_filter.as_deref(), Some("FullyQualifiedName~Ns.Groups.A.One"));
}

#[test]
fn churn_goes_on_while_it_passes() {
    let mut s = session();
    churn(&mut s, false);
    match s.on_finished(Some(0), SECOND) {
        Action::NextIteration(r) => {
            assert_eq!(r.filter.as_deref(), Some("FullyQualifiedName~Ns.Groups.A.One"));
            assert!(r.no_build && r.no_restore);
            assert_eq!(r.verbosity, Verbosity::Minimal);
        }
        other => panic!("{:?}", other),
    }
    assert_eq!(s.churn.iteration, 2);
    assert_eq!(s.churn.successes, 1);
    assert_eq!(s.durations, vec![SECOND]);
    let n = s.lines.len();
    assert_eq!(s.lines[n - 2], "Iteration 1   ✓ Passed (1.0s)");
    assert_eq!(s.lines[n - 1], "Iteration 2   ↻ Starting");
    s.on_iteration_started(80, SECOND);
    assert_eq!(s.run.pid, Some(80));
    s.on_finished(Some(1), 4 * SECOND);
    assert!(!s.churn.active && !s.run.running);
    assert!(s.lines.contains(&"Iteration 2   ✗ Failed (3.0s)".to_string()));
    assert!(s.lines.contains(&"  Churn stopped on failure at iteration 2.".to_string()));
    assert!(s.lines.contains(&"  Successful iterations before failure: 1".to_string()));
    assert!(s
        .lines
        .contains(&"  Duration stats: avg 2.0s  |  min 1.0s  |  max 3.0s".to_string()));
    assert!(s.lines.contains(&"  Last run exit code: 1".to_string()));
    assert_eq!(s.churn_filter, None);
}

#[test]
fn churn_stops_at_its_limit() {
    let mut s = session();
    churn(&mut s, true);
    for i in 1..100 {
        assert_eq!(s.churn.iteration, i);
        assert!(matches!(s.on_finished(Some(0), 0), Action::NextIteration(_)));
        s.on_iteration_started(1, 0);
    }
    assert!(matches!(s.on_finished(Some(0), 0), Action::Nothing));
    assert!(!s.churn.active);
    assert!(!s.run.listening);
    assert!(s.lines.contains(
        &"  Churn completed: reached iteration limit 100 with no failures.".to_string()
    ));
    assert!(s.lines.contains(&"  Successful iterations: 100".to_string()));
}

#[test]
fn churn_without_a_filter_cannot_go_on() {
    let mut s = session();
    churn(&mut s, false);
    s.churn_filter = None;
    assert!(matches!(s.on_finished(Some(0), 0), Action::Nothing));
    assert_eq!(
        s.lines.last().unwrap(),
        "✗ Churn stopped: missing test filter for next iteration."
    );
    assert!(!s.churn.active);
}

#[test]
fn churn_that_cannot_start_is_over() {
    let mut s = session();
    check(&mut s, "Ns.Groups.A.One");
    s.start_churn(true);
    s.on_churn_refused("nope");
    assert_eq!(s.lines.last().unwrap(), "Error: nope");
    assert!(!s.churn.active);
    assert_eq!(s.churn.limit, None);
    let mut s = session();
    churn(&mut s, false);
    s.on_finished(Some(0), 0);
    s.on_iteration_refused("gone");
    assert_eq!(s.lines.last().unwrap(), "✗ Could not start churn iteration 2: gone");
    assert!(!s.churn.active && !s.run.running && !s.run.listening);
}

#[test]
fn one_project_is_churned_by_the_sidecar() {
    let tree = build_discovered_tree(&[
        DiscoveredTest::new("A.One", "Ns.A.One", 1).with_target("a.csproj"),
        DiscoveredTest::new("A.Two", "Ns.A.Two", 1).with_target("a.csproj"),
    ]);
    let mut s = Session::new(tree, RunConfig::default(), RunResultsState::default());
    check(&mut s, "Ns.A.Two");
    match s.start_churn(false) {
        Action::StartSidecar(p) => {
            assert_eq!(p.target_path, "a.csproj");
            assert_eq!(p.filter, "FullyQualifiedName~Ns.A.Two");
            assert_eq!(p.test_names, vec!["Ns.A.Two"]);
            assert_eq!(p.iteration_limit, None);
            assert!(p.no_build && p.no_restore);
        }
        other => panic!("{:?}", other),
    }
    assert!(s.churn.sidecar);
    assert_eq!(s.churn_filter, None);
    s.on_run_started(9, 0);
    s.on_line("Iteration 4   ↻ Starting".to_string(), 5 * SECOND);
    assert_eq!(s.churn.iteration, 4);
    assert_eq!(s.run.started, Some(5 * SECOND));
    s.on_line("Iteration 4   ✓ Passed (1.0s)".to_string(), 6 * SECOND);
    assert_eq!(s.churn.successes, 4);
    s.on_line("Iteration 5   ✗ Failed (1.0s)".to_string(), 7 * SECOND);
    assert_eq!(s.churn.iteration, 5);
    s.on_line("Failed Ns.A.Two [1 ms]".to_string(), 7 * SECOND);
    assert!(matches!(s.on_finished(Some(1), 8 * SECOND), Action::Nothing));
    assert!(s.failure.shown);
    assert_eq!(s.failed[0].name, "Ns.A.Two");
    assert!(!s.run.listening && !s.churn.active);
}

#[test]
fn watching_runs_the_checked_tests() {
    let mut config = RunConfig::default();
    config.manual_watch_enabled = true;
    let mut s = session_with(config);
    assert!(matches!(s.on_watch_fired(), Action::Nothing));
    assert_eq!(s.lines, vec![NOTHING_CHECKED]);
    check(&mut s, "Ns.Imports.B.Three");
    s.failure.shown = true;
    s.failure.help = true;
    assert!(matches!(s.on_watch_fired(), Action::StartRun(_)));
    assert_eq!(s.lines[0], "━━━ Manual watch: re-running 4 checked test(s)… ━━━");
    assert!(!s.failure.shown && !s.failure.help);
    s.popups.help = true;
    assert!(matches!(s.on_watch_fired(), Action::Nothing));
    s.popups.help = false;
    s.config.manual_watch_enabled = false;
    assert!(matches!(s.on_watch_fired(), Action::Nothing));
}

#[test]
fn rediscovery_keeps_the_checks() {
    let mut s = session();
    check(&mut s, "Ns.Groups.A.Two");
    s.query.push('x');
    match s.ask_rediscovery(3) {
        Action::Rediscover { no_restore } => assert!(no_restore),
        other => panic!("{:?}", other),
    }
    assert!(s.rediscovery.active);
    assert!(matches!(s.ask_rediscovery(4), Action::Nothing));
    assert_eq!(s.lines.last().unwrap(), "Rediscovery is already running.");
    let found = vec![
        DiscoveredTest::new("Groups.A.Two", "Ns.Groups.A.Two", 2),
        DiscoveredTest::new("Groups.A.Zero", "Ns.Groups.A.Zero", 1),
    ];
    assert!(can_be_counted(&found));
    s.on_rediscovered(&found);
    assert_eq!(s.lines.last().unwrap(), "✓ Found 3 tests (2 methods).");
    assert_eq!(collect_selected_tests(&s.tree), vec!["Ns.Groups.A.Two"]);
    assert!(!s.rediscovery.active && s.saved.is_none());
    assert!(s.query.is_empty());
    assert_eq!(s.tree.len(), 4);
}

#[test]
fn rediscovery_drops_outcomes_of_lost_tests() {
    let mut s = session();
    start(&mut s);
    s.on_line("Passed Ns.Groups.A.One".to_string(), 0);
    s.on_line("Passed Ns.Imports.B.Three".to_string(), 0);
    s.on_rediscovered(&[DiscoveredTest::new("Imports.B.Three", "Ns.Imports.B.Three", 4)]);
    assert!(s.results.get("Ns.Groups.A.One").is_none());
    assert!(s.results.get("Ns.Imports.B.Three").is_some());
    assert_eq!(s.results.parent_counts.get(&0).unwrap().passed, 1);
}

#[test]
fn failed_rediscovery_says_why() {
    let mut s = session();
    s.ask_rediscovery(3);
    s.on_rediscovery_failed("worker stopped.");
    assert_eq!(s.lines.last().unwrap(), "✗ Failed to discover tests: worker stopped.");
    assert!(!s.rediscovery.active && s.saved.is_none());
    assert_eq!(s.tree.len(), 7);
}

#[test]
fn too_many_cases_cannot_be_counted() {
    let huge = vec![
        DiscoveredTest::new("A.One", "A.One", usize::MAX),
        DiscoveredTest::new("A.Two", "A.Two", 1),
    ];
    assert_eq!(count_cases(&huge), None);
    assert!(!can_be_counted(&huge));
    assert_eq!(count_cases(&huge[..1]), Some(usize::MAX));
}

#[test]
fn closing_keeps_the_sizes_of_panes() {
    let mut s = session();
    assert!(!s.close());
    s.tests_pane_rows = Some(9);
    s.failure.cols = Some(30);
    assert!(s.close());
    assert_eq!(s.config.tests_pane_rows, Some(9));
    assert_eq!(s.config.failed_summary_list_pane_cols, Some(30));
    assert!(!s.close());
}
