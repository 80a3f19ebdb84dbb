use dotest::commands::config::{
    execute_exclude_add, execute_exclude_list, execute_exclude_remove,
};
use dotest::commands::preset;
use dotest::commands::run::execute;
use dotest::domain::discovery::DiscoveredTest;
use dotest::domain::runner::{compose_test_filter, dotnet_arguments};
use dotest::ui::startup::{cache_text, first_tree, tests_from_cache, use_list};

fn texts(list: &[&str]) -> Vec<String> {
    list.iter().map(|s| s.to_string()).collect()
}

#[test]
fn run_builds_a_filter() {
    let options = execute(Some("Foo"), false);
    assert_eq!(options.filter.as_deref(), Some("FullyQualifiedName~Foo"));
    assert!(options.no_build);
    let options = execute(None, true);
    assert_eq!(options.filter, None);
    assert!(!options.no_build);
}

#[test]
fn categories_are_left_out_of_runs() {
    let none = vec![];
    let slow = texts(&["Slow", "Db"]);
    assert_eq!(compose_test_filter(None, &none), None);
    assert_eq!(compose_test_filter(Some(""), &none), None);
    assert_eq!(compose_test_filter(Some("A"), &none).as_deref(), Some("A"));
    assert_eq!(
        compose_test_filter(None, &slow).as_deref(),
        Some("TestCategory!=Slow&TestCategory!=Db")
    );
    assert_eq!(
        compose_test_filter(Some("A|B"), &slow).as_deref(),
        Some("(A|B)&TestCategory!=Slow&TestCategory!=Db")
    );
    assert_eq!(
        dotnet_arguments(&execute(Some("Foo"), false), &none),
        vec!["test", "--filter", "FullyQualifiedName~Foo", "--no-build"]
    );
    assert_eq!(dotnet_arguments(&execute(None, true), &none), vec!["test"]);
}

#[test]
fn exclusions_are_added_and_removed() {
    let mut list = vec![];
    assert_eq!(execute_exclude_list(&list), vec!["No excluded categories."]);
    assert_eq!(execute_exclude_add(&mut list, "Slow"), "Category 'Slow' added to exclusions.");
    execute_exclude_add(&mut list, "Slow");
    execute_exclude_add(&mut list, "Db");
    assert_eq!(list, vec!["Slow", "Db"]);
    assert_eq!(
        execute_exclude_list(&list),
        vec!["Excluded Categories:", "  - Slow", "  - Db"]
    );
    assert_eq!(
        execute_exclude_remove(&mut list, "Slow"),
        "Category 'Slow' removed from exclusions."
    );
    assert_eq!(
        execute_exclude_remove(&mut list, "Slow"),
        "Category 'Slow' was not in exclusions."
    );
    assert_eq!(list, vec!["Db"]);
}

#[test]
fn presets_are_added_found_and_removed() {
    let mut presets = vec![];
    assert_eq!(
        preset::list(&presets),
        vec!["No presets found. Add one with `dotest preset add <name> <filter>`"]
    );
    assert_eq!(
        preset::add(&mut presets, "smoke", "Name~Smoke", false),
        "Preset 'smoke' added successfully."
    );
    preset::add(&mut presets, "all", "A", true);
    preset::add(&mut presets, "smoke", "Name~S", false);
    assert_eq!(presets.len(), 2);
    let (said, options) = preset::run(&presets, "smoke").unwrap();
    assert_eq!(said, "Running preset: smoke");
    assert_eq!(options.filter.as_deref(), Some("Name~S"));
    assert!(options.no_build);
    let rows = preset::list(&presets);
    assert_eq!(rows[0], format!("{:<20} | {:<40} | {}", "NAME", "FILTER", "NO-BUILD"));
    assert_eq!(rows[1], format!("{:-<20}-|-{:-<40}-|-{:-<8}", "", "", ""));
    assert_eq!(rows[2], format!("{:<20} | {:<40} | {}", "all", "A", false));
    assert_eq!(rows[3], format!("{:<20} | {:<40} | {}", "smoke", "Name~S", true));
    assert_eq!(preset::remove(&mut presets, "smoke"), "Preset 'smoke' removed successfully.");
    assert_eq!(preset::remove(&mut presets, "smoke"), "Preset 'smoke' not found.");
    assert_eq!(preset::run(&presets, "smoke").unwrap_err(), "Preset 'smoke' not found.");
}

#[test]
fn the_list_of_tests_comes_back() {
    let tests = vec![
        DiscoveredTest::new("A.\"B\".One", "Ns.A.One", 3),
        DiscoveredTest::new("Ü.Two", "Ns.Two", 1).with_target("lost.csproj"),
    ];
    let json = cache_text(&tests).unwrap();
    let back = tests_from_cache(true, Some(&json)).unwrap();
    assert_eq!(back.len(), 2);
    assert_eq!(back[0], tests[0]);
    assert_eq!(back[1], DiscoveredTest::new("Ü.Two", "Ns.Two", 1));
}

#[test]
fn a_list_that_is_not_usable_is_not_used() {
    let json = cache_text(&[DiscoveredTest::new("A", "A", 1)]).unwrap();
    assert!(tests_from_cache(false, Some(&json)).is_none());
    assert!(tests_from_cache(true, None).is_none());
    assert!(tests_from_cache(true, Some("nonsense")).is_none());
    assert!(tests_from_cache(true, Some("[]")).is_none());
    assert!(tests_from_cache(true, Some("[[\"A\",\"B\",-1]]")).is_none());
    assert!(use_list(true, None).is_none());
    assert!(use_list(false, Some(vec![("A".to_string(), "B".to_string(), 1)])).is_none());
    let used = use_list(true, Some(vec![("A".to_string(), "B".to_string(), 1)])).unwrap();
    assert_eq!(used, vec![DiscoveredTest::new("A", "B", 1)]);
}

#[test]
fn no_tests_make_no_tree() {
    assert!(first_tree(&[]).is_none());
    assert_eq!(first_tree(&[DiscoveredTest::new("A.B", "A.B", 1)]).unwrap().len(), 2);
}
