use dotest::domain::count::{
    checked_sum_for_query, resolve_short_segment_to_prefix, sum_for_count_query, tree_under_prefix,
};
use dotest::domain::discovery::DiscoveredTest;

#[test]
fn tree_under_prefix_boundary() {
    assert!(tree_under_prefix(
        "Tmly.Test.Groups.Foo.Bar",
        "Tmly.Test.Groups"
    ));
    assert!(!tree_under_prefix(
        "Tmly.Test.GroupsHelper.Foo",
        "Tmly.Test.Groups"
    ));
    assert!(tree_under_prefix("Tmly.Test.Groups", "Tmly.Test.Groups"));
}

#[test]
fn resolve_segment_finds_top_level_folder() {
    let tests = vec![
        DiscoveredTest::new("Groups.OrgTreeTests.X", "Tmly.Test.Groups.OrgTreeTests.X", 1),
        DiscoveredTest::new("Imports.A.M", "Tmly.Test.Imports.A.M", 1),
    ];
    let p = resolve_short_segment_to_prefix(&tests, "Groups").unwrap();
    assert_eq!(p, "Groups");
}

#[test]
fn sum_count_query_disk_vs_vstest() {
    let tests = vec![
        DiscoveredTest::new("Imports.M1", "Ns.Imports.C.M1", 3),
        DiscoveredTest::new("Imports.M2", "Ns.Imports.C.M2", 1),
        DiscoveredTest::new("Groups.G1", "Ns.Groups.G1", 10),
    ];
    assert_eq!(sum_for_count_query(&tests, "Imports"), 4);
    assert_eq!(sum_for_count_query(&tests, "Ns.Imports"), 4);
}

#[test]
fn only_what_a_query_counts_has_to_fit() {
    let tests = vec![
        DiscoveredTest::new("Imports.M1", "Ns.Imports.C.M1", usize::MAX),
        DiscoveredTest::new("Imports.M2", "Ns.Imports.C.M2", 1),
        DiscoveredTest::new("Groups.G1", "Ns.Groups.G1", 10),
    ];
    assert_eq!(checked_sum_for_query(&tests, "Groups"), Some(10));
    assert_eq!(checked_sum_for_query(&tests, "Imports"), None);
    assert_eq!(checked_sum_for_query(&tests, "Missing"), Some(0));
}
