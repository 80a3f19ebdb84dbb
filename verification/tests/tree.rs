use dotest::domain::discovery::DiscoveredTest;
use dotest::domain::selection::{
    checked_test_count, collect_selected_tests, count_tests, select_keys, sync_parents, toggle_all,
    toggle_row, TreeState,
};
use dotest::domain::tree::{build_discovered_tree, build_flat_tree, row_paths, TreeNode};

fn tests() -> Vec<DiscoveredTest> {
    vec![
        DiscoveredTest::new("Z.Late", "Ns.Z.Late", 1),
        DiscoveredTest::new("A.B.Two", "Ns.A.B.Two", 2),
        DiscoveredTest::new("A.B.One", "Ns.A.B.One", 3).with_target("a.csproj"),
        DiscoveredTest::new("A.B.Again", "Ns.A.B.One", 9),
        DiscoveredTest::new("Alone", "Ns.Alone", 4),
    ]
}

fn outline(tree: &[TreeNode]) -> Vec<String> {
    tree.iter().map(|n| format!("{}{}", "-".repeat(n.depth), n.label)).collect()
}

#[test]
fn folders_come_first_and_in_order() {
    let tree = build_discovered_tree(&tests());
    assert_eq!(outline(&tree), vec!["A", "-B", "--Two", "--One", "Z", "-Late", "Alone"]);
    assert_eq!(tree[1].fqn, None);
    assert_eq!(tree[1].parent_idx, Some(0));
    assert_eq!(tree[3].parent_idx, Some(1));
    assert_eq!(tree[3].fqn.as_deref(), Some("Ns.A.B.One"));
    assert_eq!(tree[3].test_count, 3);
    assert_eq!(tree[3].target_path.as_deref(), Some("a.csproj"));
    assert!(tree[3].is_leaf && tree[3].is_expanded);
    assert!(!tree[0].is_leaf && !tree[0].is_expanded && !tree[0].is_selected);
    assert_eq!(tree[6].parent_idx, None);
}

#[test]
fn every_test_has_a_leaf_and_every_leaf_a_test() {
    let tests = tests();
    let tree = build_discovered_tree(&tests);
    for t in &tests {
        assert!(tree.iter().any(|n| n.is_leaf && n.fqn.as_deref() == Some(t.filter_key.as_str())));
    }
    for n in tree.iter().filter(|n| n.is_leaf) {
        assert!(tests.iter().any(|t| n.fqn.as_deref() == Some(t.filter_key.as_str())
            && n.test_count == t.test_count
            && t.tree_path.ends_with(&n.label)));
    }
    for (i, n) in tree.iter().enumerate() {
        if let Some(p) = n.parent_idx {
            assert!(p < i);
            assert_eq!(n.depth, tree[p].depth + 1);
        }
    }
}

#[test]
fn only_leaves_have_keys() {
    let tree = build_discovered_tree(&tests());
    for n in &tree {
        assert_eq!(n.fqn.is_some(), n.is_leaf);
    }
    assert_eq!(
        row_paths(&tree),
        vec!["A", "A.B", "A.B.Two", "A.B.One", "Z", "Z.Late", "Alone"]
    );
}

#[test]
fn repeated_tests_change_nothing() {
    let mut tests = tests();
    let facts = |t: &[TreeNode]| -> Vec<(String, Option<String>, usize)> {
        t.iter().map(|n| (n.label.clone(), n.fqn.clone(), n.test_count)).collect()
    };
    let once = facts(&build_discovered_tree(&tests));
    tests.push(DiscoveredTest::new("A.B.One", "Ns.A.B.One", 77));
    tests.push(DiscoveredTest::new("Alone", "Ns.Alone", 5));
    assert_eq!(facts(&build_discovered_tree(&tests)), once);
}

#[test]
fn pairs_make_a_tree_too() {
    let tree = build_flat_tree(&[
        ("Import.DeleteBatch.ImportSameFile".to_string(), "DeleteBatch.ImportSameFile".to_string()),
        ("Import.ImportAdjustment".to_string(), "ImportAdjustment".to_string()),
    ]);
    assert_eq!(
        outline(&tree),
        vec!["Import", "-DeleteBatch", "--ImportSameFile", "-ImportAdjustment"]
    );
    assert_eq!(tree[2].fqn.as_deref(), Some("DeleteBatch.ImportSameFile"));
    assert!(build_flat_tree(&[]).is_empty());
}

#[test]
fn toggling_a_folder_toggles_its_leaves() {
    let mut tree = build_discovered_tree(&tests());
    toggle_row(&mut tree, 0);
    assert_eq!(collect_selected_tests(&tree), vec!["Ns.A.B.Two", "Ns.A.B.One"]);
    assert!(tree[0].is_selected && tree[1].is_selected && !tree[4].is_selected);
    toggle_row(&mut tree, 2);
    assert!(tree[0].is_partial && tree[1].is_partial && !tree[1].is_selected);
    toggle_row(&mut tree, 2);
    assert!(tree[0].is_selected && !tree[0].is_partial);
    toggle_row(&mut tree, 1);
    assert!(collect_selected_tests(&tree).is_empty());
}

#[test]
fn syncing_twice_is_syncing_once() {
    let mut tree = build_discovered_tree(&tests());
    tree[3].is_selected = true;
    tree[4].is_selected = true;
    sync_parents(&mut tree);
    let flags = |t: &[TreeNode]| -> Vec<(bool, bool)> {
        t.iter().map(|n| (n.is_selected, n.is_partial)).collect()
    };
    let once = flags(&tree);
    assert_eq!(once[0], (false, true));
    assert_eq!(once[4], (false, false));
    sync_parents(&mut tree);
    assert_eq!(flags(&tree), once);
}

#[test]
fn toggling_all_alternates() {
    let mut tree = build_discovered_tree(&tests());
    toggle_all(&mut tree);
    assert!(tree.iter().all(|n| n.is_selected && !n.is_partial));
    toggle_all(&mut tree);
    assert!(tree.iter().all(|n| !n.is_selected));
    tree[3].is_selected = true;
    toggle_all(&mut tree);
    assert!(tree.iter().all(|n| !n.is_selected));
}

#[test]
fn tests_are_counted() {
    let mut tree = build_discovered_tree(&tests());
    assert_eq!(count_tests(&tree, false), 10);
    assert_eq!(checked_test_count(&tree), Some(10));
    toggle_row(&mut tree, 0);
    assert_eq!(count_tests(&tree, true), 5);
    tree[2].test_count = usize::MAX;
    assert_eq!(checked_test_count(&tree), None);
}

#[test]
fn selection_and_expansion_survive() {
    let mut tree = build_discovered_tree(&tests());
    toggle_row(&mut tree, 3);
    tree[0].is_expanded = true;
    tree[4].is_expanded = true;
    let kept = TreeState::capture(&tree);
    assert_eq!(kept.selected, vec!["Ns.A.B.One"]);
    assert_eq!(kept.expanded, vec!["A", "Z"]);
    let mut fresh = build_discovered_tree(&[
        DiscoveredTest::new("A.B.One", "Ns.A.B.One", 3),
        DiscoveredTest::new("A.C.New", "Ns.A.C.New", 1),
        DiscoveredTest::new("A.Z.Other", "Ns.A.Z.Other", 1),
    ]);
    kept.restore(&mut fresh);
    assert_eq!(collect_selected_tests(&fresh), vec!["Ns.A.B.One"]);
    assert!(fresh[0].is_expanded && fresh[0].is_partial);
    assert!(!fresh[1].is_expanded && fresh[1].is_selected);
    assert_eq!(fresh[5].label, "Z");
    assert!(!fresh[5].is_expanded);
}

#[test]
fn keys_are_selected_and_no_others() {
    let mut tree = build_discovered_tree(&tests());
    toggle_row(&mut tree, 4);
    select_keys(&mut tree, &vec!["Ns.A.B.Two".to_string(), "Ns.Missing".to_string()]);
    assert_eq!(collect_selected_tests(&tree), vec!["Ns.A.B.Two"]);
    assert!(!tree[4].is_selected);
}
