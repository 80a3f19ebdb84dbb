//! One entry of the list of discovered tests.

use vstd::prelude::*;

use crate::text::opt_text;

verus! {

/// A discovered test method.
#[derive(Clone, Debug, PartialEq, Eq)]
pub struct DiscoveredTest {
    /// Dot-separated path in the tree, folders on disk first.
    pub tree_path: String,
    /// Name that a `FullyQualifiedName~` filter selects the test by.
    pub filter_key: String,
    /// How many test cases the method stands for.
    pub test_count: usize,
    /// Project that the test belongs to, where it is known.
    pub target_path: Option<String>,
}

/// What a [`DiscoveredTest`] says, as values.
pub struct DiscoveredTestView {
    pub tree_path: Seq<char>,
    pub filter_key: Seq<char>,
    pub test_count: nat,
    pub target_path: Option<Seq<char>>,
}

impl View for DiscoveredTest {
    type V = DiscoveredTestView;

    open spec fn view(&self) -> DiscoveredTestView {
        DiscoveredTestView {
            tree_path: self.tree_path@,
            filter_key: self.filter_key@,
            test_count: self.test_count as nat,
            target_path: opt_text(self.target_path),
        }
    }
}

/// What a list of discovered tests says, entry by entry.
pub open spec fn entries(tests: Seq<DiscoveredTest>) -> Seq<DiscoveredTestView> {
    tests.map_values(|t: DiscoveredTest| t@)
}

/// How many test cases the list stands for.
pub open spec fn case_total(tests: Seq<DiscoveredTestView>) -> nat
    decreases tests.len(),
{
    if tests.len() == 0 {
        0
    } else {
        case_total(tests.drop_last()) + tests.last().test_count
    }
}

impl DiscoveredTest {
    pub fn new(tree_path: &str, filter_key: &str, test_count: usize) -> (r: Self)
        ensures
            r@ == (DiscoveredTestView {
                tree_path: tree_path@,
                filter_key: filter_key@,
                test_count: test_count as nat,
                target_path: None,
            }),
    {
        DiscoveredTest {
            tree_path: tree_path.to_owned(),
            filter_key: filter_key.to_owned(),
            test_count,
            target_path: None,
        }
    }

    pub fn with_target(self, target_path: &str) -> (r: Self)
        ensures
            r@ == (DiscoveredTestView { target_path: Some(target_path@), ..self@ }),
    {
        DiscoveredTest { target_path: Some(target_path.to_owned()), ..self }
    }
}

} // verus!
