use dotest::domain::discovery::DiscoveredTest;
use dotest::domain::selection::toggle_row;
use dotest::domain::tree::{build_discovered_tree, TreeNode};
use dotest::ui::filter::{build_filter, build_selected_run_request};

fn leaf(fqn: &str, target_path: Option<&str>, selected: bool) -> TreeNode {
    TreeNode {
        label: fqn.rsplit('.').next().unwrap_or(fqn).to_string(),
        fqn: Some(fqn.to_string()),
        is_selected: selected,
        is_partial: false,
        is_expanded: true,
        depth: 0,
        parent_idx: None,
        is_leaf: true,
        test_count: 1,
        target_path: target_path.map(str::to_string),
    }
}

#[test]
fn selected_run_request_keeps_shared_target_path() {
    let tree = vec![
        leaf(
            "AppCore.Tests.WidgetTests.Renders",
            Some("smoke/root-app-tests/tests/AppCore.Tests/AppCore.Tests.csproj"),
            true,
        ),
        leaf(
            "AppCore.Tests.WidgetTests.Updates",
            Some("smoke/root-app-tests/tests/AppCore.Tests/AppCore.Tests.csproj"),
            true,
        ),
    ];

    let request = build_selected_run_request(&tree).expect("request");

    assert_eq!(
        request.target_path.as_deref(),
        Some("smoke/root-app-tests/tests/AppCore.Tests/AppCore.Tests.csproj")
    );
    assert!(request.filter.is_empty());
    assert_eq!(
        request.sidecar_filter,
        "FullyQualifiedName~AppCore.Tests.WidgetTests.Renders|FullyQualifiedName~AppCore.Tests.WidgetTests.Updates"
    );
    assert_eq!(
        request.test_names,
        vec![
            "AppCore.Tests.WidgetTests.Renders".to_string(),
            "AppCore.Tests.WidgetTests.Updates".to_string(),
        ]
    );
}

#[test]
fn selected_run_request_clears_target_path_for_mixed_projects() {
    let tree = vec![
        leaf(
            "MultiTestsA.UnitTest1.Test1",
            Some("smoke/multi/MultiTestsA/MultiTestsA.csproj"),
            true,
        ),
        leaf(
            "MultiTestsB.UnitTest1.Test1",
            Some("smoke/multi/MultiTestsB/MultiTestsB.csproj"),
            true,
        ),
    ];

    let request = build_selected_run_request(&tree).expect("request");

    assert_eq!(request.target_path, None);
    assert!(request.filter.is_empty());
    assert_eq!(
        request.sidecar_filter,
        "FullyQualifiedName~MultiTestsA.UnitTest1.Test1|FullyQualifiedName~MultiTestsB.UnitTest1.Test1"
    );
    assert_eq!(
        request.test_names,
        vec![
            "MultiTestsA.UnitTest1.Test1".to_string(),
            "MultiTestsB.UnitTest1.Test1".to_string(),
        ]
    );
}

#[test]
fn build_filter_keeps_both_homonyms_runnable_when_both_selected() {
    let groups =
        "Tmly.Test.Groups.GroupQueryHandlerTest.CanLimitScopeUnderTmlyGroupId";
    let placements =
        "Tmly.Test.Placements.PlacementQueryHandlerTests.CanLimitScopeUnderTmlyGroupId";
    let other = "Tmly.Test.Other.SomeTest.DoesSomethingElse";
    let tree = vec![
        leaf(groups, None, true),
        leaf(placements, None, true),
        leaf(other, None, false),
    ];

    let filter = build_filter(&tree).expect("filter");
    // May use include OR of the two FQNs, or a shorter exclude of the unselected leaf.
    // Either form must still allow both selected homonyms to execute.
    let excludes_other_only =
        filter.contains(&format!("FullyQualifiedName!~{other}")) && !filter.contains('|');
    let includes_both = filter.contains(&format!("FullyQualifiedName~{groups}"))
        && filter.contains(&format!("FullyQualifiedName~{placements}"));
    assert!(
        excludes_other_only || includes_both,
        "unexpected filter for two selected homonyms: {filter}"
    );
}

#[test]
fn a_checked_folder_is_run_by_the_keys_below_it() {
    let mut tree = build_discovered_tree(&[
        DiscoveredTest::new("Groups.A.One", "Tmly.Test.Groups.A.One", 1),
        DiscoveredTest::new("Groups.A.Two", "Tmly.Test.Groups.A.Two", 1),
        DiscoveredTest::new("Imports.B.Three", "Tmly.Test.Imports.B.Three", 1),
        DiscoveredTest::new("Imports.B.Four", "Tmly.Test.Imports.B.Four", 1),
        DiscoveredTest::new("Imports.B.Five", "Tmly.Test.Imports.B.Five", 1),
    ]);
    toggle_row(&mut tree, 0);
    assert_eq!(
        build_filter(&tree).as_deref(),
        Some("FullyQualifiedName~Tmly.Test.Groups.A.One|FullyQualifiedName~Tmly.Test.Groups.A.Two")
    );
}

#[test]
fn a_folder_with_a_key_stands_for_what_is_below_it() {
    let mut folder = leaf("Ns.Groups", None, true);
    folder.is_leaf = false;
    let mut below = leaf("Ns.Groups.One", None, true);
    below.parent_idx = Some(0);
    let others = vec![leaf("Ns.Long.Other", None, false), leaf("Ns.Long.Another", None, false)];
    let mut tree = vec![folder, below];
    tree.extend(others);
    assert_eq!(build_filter(&tree).as_deref(), Some("FullyQualifiedName~Ns.Groups."));
}
