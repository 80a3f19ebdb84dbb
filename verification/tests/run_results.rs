use dotest::domain::tree::TreeNode;
use dotest::ui::attribution::resolve_leaf_key;
use dotest::ui::console::parse_status_result_line;
use dotest::ui::leaf_results::{LeafResults, LeafStatus};
use dotest::ui::run_results::{ParentCounts, RunResultsState};

fn leaf(fqn: &str, selected: bool) -> TreeNode {
    TreeNode {
        label: fqn.rsplit('.').next().unwrap_or(fqn).to_string(),
        fqn: Some(fqn.to_string()),
        is_selected: selected,
        is_partial: false,
        is_expanded: true,
        depth: 2,
        parent_idx: None,
        is_leaf: true,
        test_count: 1,
        target_path: None,
    }
}

#[test]
fn parse_passed_failed_lines() {
    let (s, n) = parse_status_result_line("Passed Namespace.Class.Method [12 ms]").unwrap();
    assert_eq!(s, LeafStatus::Passed);
    assert_eq!(n, "Namespace.Class.Method");

    let (s, n) = parse_status_result_line("Failed Foo.Bar [1 ms]").unwrap();
    assert_eq!(s, LeafStatus::Failed);
    assert_eq!(n, "Foo.Bar");
}

#[test]
fn parent_counts_suffix_omits_zeros() {
    let c = ParentCounts {
        passed: 3,
        failed: 1,
        skipped: 0,
    };
    assert_eq!(c.format_suffix(), "  3✓ 1✗");
}

#[test]
fn resolve_leaf_key_prefers_selected_when_short_names_collide() {
    // Same method name under Groups vs Placements — console often emits only the short name.
    // Longest-FQN guessing used to paint Placements when Groups was the one selected/run.
    let groups =
        "Tmly.Test.Groups.GroupQueryHandlerTest.CanLimitScopeUnderTmlyGroupId";
    let placements =
        "Tmly.Test.Placements.PlacementQueryHandlerTests.CanLimitScopeUnderTmlyGroupId";
    let tree = vec![
        leaf(groups, true),
        leaf(placements, false),
    ];
    let empty = LeafResults::new();

    assert_eq!(
        resolve_leaf_key(&tree, "CanLimitScopeUnderTmlyGroupId", &empty).as_deref(),
        Some(groups)
    );
    assert_eq!(
        resolve_leaf_key(&tree, groups, &empty).as_deref(),
        Some(groups)
    );
}

#[test]
fn ingest_line_attributes_short_name_to_selected_homonym() {
    let groups =
        "Tmly.Test.Groups.GroupQueryHandlerTest.CanLimitScopeUnderTmlyGroupId";
    let placements =
        "Tmly.Test.Placements.PlacementQueryHandlerTests.CanLimitScopeUnderTmlyGroupId";
    let tree = vec![
        leaf(groups, true),
        leaf(placements, false),
    ];

    let mut state = RunResultsState::default();
    state.ingest_line("Passed CanLimitScopeUnderTmlyGroupId [5 ms]", &tree);

    assert_eq!(
        state.get(groups).map(|r| r.status),
        Some(LeafStatus::Passed)
    );
    assert!(state.get(placements).is_none());
}

#[test]
fn ingest_line_attributes_each_homonym_when_both_selected() {
    let groups =
        "Tmly.Test.Groups.GroupQueryHandlerTest.CanLimitScopeUnderTmlyGroupId";
    let placements =
        "Tmly.Test.Placements.PlacementQueryHandlerTests.CanLimitScopeUnderTmlyGroupId";
    let tree = vec![
        leaf(groups, true),
        leaf(placements, true),
    ];

    let mut state = RunResultsState::default();
    state.ingest_line("Passed CanLimitScopeUnderTmlyGroupId [5 ms]", &tree);
    state.ingest_line("Passed CanLimitScopeUnderTmlyGroupId [7 ms]", &tree);

    assert_eq!(
        state.get(groups).map(|r| r.status),
        Some(LeafStatus::Passed)
    );
    assert_eq!(
        state.get(placements).map(|r| r.status),
        Some(LeafStatus::Passed)
    );
}

#[test]
fn resolve_leaf_key_unique_suffix_without_selection() {
    let tree = vec![
        leaf("Ns.A.Foo", false),
        leaf("Ns.B.Bar", false),
    ];
    let empty = LeafResults::new();
    assert_eq!(
        resolve_leaf_key(&tree, "Foo", &empty).as_deref(),
        Some("Ns.A.Foo")
    );
}

#[test]
fn details_are_the_lines_between_the_report_and_the_summary() {
    let tree = vec![leaf("Ns.A.Foo", false), leaf("Ns.B.Bar", false)];
    let mut state = RunResultsState::default();
    let details = ["  Error Message:", "", "   boom [x]", "  Passed", "at X in T.cs:line 3"];
    state.ingest_line("before", &tree);
    state.ingest_line("  Failed Ns.A.Foo [2 ms]", &tree);
    for line in details {
        state.ingest_line(line, &tree);
    }
    state.ingest_line("Total tests: 2", &tree);
    state.ingest_line("after", &tree);
    let found = state.get("Ns.A.Foo").unwrap();
    assert_eq!(found.status, LeafStatus::Failed);
    assert_eq!(found.details, details);
    assert!(state.get("Ns.B.Bar").is_none());
}

#[test]
fn reports_with_parameters_collect_details_too() {
    let tree = vec![leaf("Ns.A.Foo", false)];
    let mut state = RunResultsState::default();
    for line in ["Failed Ns.A.Foo(x: 1, y: \"a\") [2 ms]", "  boom", "Passed: 0"] {
        state.ingest_line(line, &tree);
    }
    let found = state.get("Ns.A.Foo").unwrap();
    assert_eq!(found.status, LeafStatus::Failed);
    assert_eq!(found.details, ["  boom"]);
}
