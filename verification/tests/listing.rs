use dotest::domain::discovery::DiscoveredTest;
use dotest::domain::listing::{list_names, tests_of_names};
use dotest::domain::sources::{parse_cs_content, MethodPlace};
use dotest::domain::table::Table;

fn texts(list: &[&str]) -> Vec<String> {
    list.iter().map(|s| s.to_string()).collect()
}

#[test]
fn names_stand_below_the_header() {
    let printed = texts(&[
        "Test run for a.dll",
        "    Not.A.Name",
        "The following Tests are available:",
        "    Ns.C.One",
        "",
        "    Ns.C.Two(1)",
    ]);
    assert_eq!(list_names(&printed), vec!["Ns.C.One", "Ns.C.Two(1)"]);
    assert!(list_names(&texts(&["Ns.C.One"])).is_empty());
    assert!(list_names(&vec![]).is_empty());
}

#[test]
fn cases_of_a_method_are_counted() {
    let mut methods: Table<MethodPlace> = Table::new();
    let mut classes: Table<String> = Table::new();
    parse_cs_content(
        "class C {\n[Test] public void One() {}\n}",
        "Unit",
        &mut methods,
        &mut classes,
    );
    let names = texts(&["Ns.C.Two(1)", "Ns.C.One", "Ns.C.Two(2)", "Ns.D.Three"]);
    let tests = tests_of_names(&names, &methods, &classes);
    assert_eq!(
        tests,
        vec![
            DiscoveredTest::new("Unit.C.Two", "Ns.C.Two", 2),
            DiscoveredTest::new("Unit.C.One", "Ns.C.One", 1),
            DiscoveredTest::new("Ns.D.Three", "Ns.D.Three", 1),
        ]
    );
    assert_eq!(tests.iter().map(|t| t.test_count).sum::<usize>(), names.len());
}
