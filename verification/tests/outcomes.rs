use dotest::domain::discovery::DiscoveredTest;
use dotest::domain::tree::{build_discovered_tree, TreeNode};
use dotest::ui::attribution::resolve_leaf_key;
use dotest::ui::console::{parse_status_result_line, summary_line};
use dotest::ui::failed_tests::{
    build_filter_for_display_names, extract_failed_tests, filter_key_for_vstest,
};
use dotest::ui::leaf_results::{LeafResult, LeafResults, LeafStatus};
use dotest::ui::run_results::{find_last_leaf, ParentCounts, RunResultsState, LAST_RUN_VERSION};
use dotest::ui::tally::{count_after, take_digits, Tally};

fn tree() -> Vec<TreeNode> {
    build_discovered_tree(&[
        DiscoveredTest::new("A.One", "Ns.A.One", 1),
        DiscoveredTest::new("A.Two", "Ns.A.Two", 1),
        DiscoveredTest::new("B.One", "Ns.B.One", 1),
    ])
}

fn texts(lines: &[&str]) -> Vec<String> {
    lines.iter().map(|s| s.to_string()).collect()
}

#[test]
fn marks_report_outcomes_too() {
    assert_eq!(
        parse_status_result_line("✓ Ns.A.One [2 ms]"),
        Some((LeafStatus::Passed, "Ns.A.One".to_string()))
    );
    assert_eq!(
        parse_status_result_line("✗✗ Failed Ns.A.One"),
        Some((LeafStatus::Failed, "Ns.A.One".to_string()))
    );
    assert_eq!(
        parse_status_result_line("⚠ Skipped Ns.A.One"),
        Some((LeafStatus::Skipped, "Ns.A.One".to_string()))
    );
    assert_eq!(parse_status_result_line("✓ Passed (1.2s)"), None);
    assert_eq!(parse_status_result_line("Passed  [1 ms]"), None);
    assert_eq!(parse_status_result_line("Passing X"), None);
}

#[test]
fn summary_lines_are_told_apart() {
    assert!(summary_line("Total tests: 3", "total tests: 3"));
    assert!(summary_line("Passed: 3", "passed: 3"));
    assert!(summary_line("━━━", "━━━"));
    assert!(summary_line("Test Run Summary (3)", "test run summary (3)"));
    assert!(!summary_line("at A.B()", "at a.b()"));
}

#[test]
fn summary_lines_end_a_failure() {
    let t = tree();
    let mut state = RunResultsState::default();
    state.ingest_line("Failed Ns.A.One", &t);
    state.ingest_line("  why", &t);
    state.ingest_line("", &t);
    assert!(state.get("Ns.A.One").unwrap().details.is_empty());
    state.ingest_line("Total tests: 1", &t);
    assert_eq!(state.get("Ns.A.One").unwrap().details, vec!["  why", ""]);
    state.ingest_line("  not a detail", &t);
    state.finalize_pending(&t);
    assert_eq!(state.get("Ns.A.One").unwrap().details.len(), 2);
}

#[test]
fn unknown_names_are_not_recorded() {
    let t = tree();
    let mut state = RunResultsState::default();
    state.ingest_line("Passed Ns.C.Nothing", &t);
    state.ingest_line("Passed One", &t);
    assert!(state.is_empty());
}

#[test]
fn labels_find_leaves_whose_key_does_not_match() {
    let mut t = tree();
    t[1].label = "Shown".to_string();
    let none = LeafResults::new();
    assert_eq!(resolve_leaf_key(&t, "Shown(1, 2)", &none).as_deref(), Some("Ns.A.One"));
    assert_eq!(resolve_leaf_key(&t, "(1)", &none), None);
}

#[test]
fn homonyms_fill_up_in_order() {
    let mut t = tree();
    for n in t.iter_mut() {
        n.is_selected = n.is_leaf;
    }
    let mut seen = LeafResults::new();
    assert_eq!(resolve_leaf_key(&t, "One", &seen).as_deref(), Some("Ns.A.One"));
    seen.insert(
        "Ns.A.One".to_string(),
        LeafResult { status: LeafStatus::Passed, details: vec![] },
    );
    assert_eq!(resolve_leaf_key(&t, "One", &seen).as_deref(), Some("Ns.B.One"));
    seen.insert(
        "Ns.B.One".to_string(),
        LeafResult { status: LeafStatus::Passed, details: vec![] },
    );
    assert_eq!(resolve_leaf_key(&t, "One", &seen).as_deref(), Some("Ns.A.One"));
}

#[test]
fn sums_reach_every_folder_above() {
    let t = build_discovered_tree(&[
        DiscoveredTest::new("X.A.One", "Ns.One", 1),
        DiscoveredTest::new("X.B.Two", "Ns.Two", 1),
    ]);
    let mut state = RunResultsState::default();
    state.ingest_line("Passed Ns.One", &t);
    state.ingest_line("Skipped Ns.Two", &t);
    assert_eq!(
        state.parent_counts.get(&0).copied(),
        Some(ParentCounts { passed: 1, failed: 0, skipped: 1 })
    );
    assert_eq!(
        state.parent_counts.get(&1).copied(),
        Some(ParentCounts { passed: 1, failed: 0, skipped: 0 })
    );
    assert_eq!(find_last_leaf(&t, "Ns.Two"), Some(4));
    assert_eq!(find_last_leaf(&t, "X.B"), None);
    state.clear();
    assert!(state.is_empty() && state.parent_counts.is_empty());
}

#[test]
fn outcomes_are_saved_and_come_back() {
    let t = tree();
    let mut state = RunResultsState::default();
    state.ingest_line("Failed Ns.A.One", &t);
    state.ingest_line("why", &t);
    state.finalize_pending(&t);
    state.ingest_line("Passed Ns.A.Two", &t);
    let (version, saved) = state.to_saved();
    assert_eq!(version, LAST_RUN_VERSION);
    let back = RunResultsState::from_saved(version, &saved);
    assert_eq!(back.get("Ns.A.One").unwrap().details, vec!["why"]);
    assert_eq!(back.get("Ns.A.Two").unwrap().status, LeafStatus::Passed);
    assert!(back.parent_counts.is_empty());
    assert!(RunResultsState::from_saved(version + 1, &saved).is_empty());
}

#[test]
fn panel_shows_status_and_details() {
    let t = tree();
    let mut state = RunResultsState::default();
    assert!(state.leaf_panel_lines("Ns.A.One").is_empty());
    state.ingest_line("Skipped Ns.A.One", &t);
    assert_eq!(state.leaf_panel_lines("Ns.A.One"), vec!["Skipped Ns.A.One"]);
    state.ingest_line("Failed Ns.A.Two", &t);
    state.ingest_line("why", &t);
    state.finalize_pending(&t);
    assert_eq!(state.leaf_panel_lines("Ns.A.Two"), vec!["Failed Ns.A.Two", "", "why"]);
}

#[test]
fn failures_are_read_from_the_output() {
    let lines = texts(&[
        "noise",
        "Failed A.One [1 ms]",
        "  Error Message:",
        "",
        "   boom",
        "Passed A.Two",
        "after",
        "  ✗ A.Three",
        "bang",
        "Total tests: 3",
        "tail",
    ]);
    let failed = extract_failed_tests(&lines);
    assert_eq!(failed.len(), 2);
    assert_eq!(failed[0].name, "A.One");
    assert_eq!(failed[0].details, vec!["  Error Message:", "", "   boom"]);
    assert_eq!(failed[1].name, "A.Three");
    assert_eq!(failed[1].details, vec!["bang"]);
    assert!(extract_failed_tests(&vec![]).is_empty());
}

#[test]
fn more_output_keeps_the_failures() {
    let lines = texts(&["Failed A", "x", "Passed B", "Failed C", "y", "Failed: 2"]);
    let mut before = 0;
    for n in 0..=lines.len() {
        let found = extract_failed_tests(&lines[..n].to_vec());
        assert!(found.len() >= before);
        before = found.len();
    }
}

#[test]
fn names_make_filters() {
    assert_eq!(filter_key_for_vstest(" A.B (x: 1) "), "A.B");
    assert_eq!(
        build_filter_for_display_names(&texts(&["A.B(1)", "C"])),
        "FullyQualifiedName~A.B|FullyQualifiedName~C"
    );
    assert_eq!(build_filter_for_display_names(&vec![]), "");
}

#[test]
fn counts_follow_labels_and_marks() {
    let none = Tally::new();
    let c = none.after_line("✓ A", "✓ a");
    assert_eq!(c, Tally { passed: 1, failed: 0, skipped: 0 });
    let c = c.after_line("✗ A", "✗ a").after_line("⚠ B", "⚠ b");
    assert_eq!(c, Tally { passed: 1, failed: 1, skipped: 1 });
    assert_eq!(c.sum(), Some(3));
    let c = c.after_line("Failed: 7", "failed: 7");
    assert_eq!(c.failed, 7);
    assert_eq!(count_after("x skipped:   12, y", "skipped:"), Some(12));
    assert_eq!(count_after("skipped: many", "skipped:"), None);
    assert_eq!(take_digits("12a3"), "12");
    let full = Tally { passed: usize::MAX, failed: 1, skipped: 0 };
    assert!(!full.room_for("Passed A"));
    assert!(full.room_for("Failed A") && full.room_for("⚠ A") && full.room_for("text"));
    assert_eq!(full.sum(), None);
}
