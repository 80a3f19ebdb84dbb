//! Where the list of tests comes from when a session begins.

use vstd::prelude::*;

use crate::domain::discovery::{entries, DiscoveredTest, DiscoveredTestView};
use crate::domain::tree::{build_discovered_tree, flat_tree, rows, TreeNode};

verus! {

/// The file that the list of tests is kept in.
pub const CACHE_PATH: &'static str = ".dotest_cache.json";

pub const NO_TESTS_FOUND: &'static str = "No tests found.";

pub const DISCOVERING: &'static str = "Discovering tests (this may take a moment)...";

/// A test as it is kept: its path in the tree, its key, and how many cases it
/// stands for.
pub type CachedTest = (String, String, u64);

pub open spec fn cached_view(c: CachedTest) -> (Seq<char>, Seq<char>, nat) {
    (c.0@, c.1@, c.2 as nat)
}

pub open spec fn cached_views(list: Seq<CachedTest>) -> Seq<(Seq<char>, Seq<char>, nat)> {
    list.map_values(|c: CachedTest| cached_view(c))
}

pub open spec fn opt_cached(list: Option<Vec<CachedTest>>) -> Option<
    Seq<(Seq<char>, Seq<char>, nat)>,
> {
    match list {
        Some(list) => Some(cached_views(list@)),
        None => None,
    }
}

/// The list that a JSON text holds, as `serde_json::from_str` reads it.
pub uninterp spec fn read_list(json: Seq<char>) -> Option<Seq<(Seq<char>, Seq<char>, nat)>>;

/// `serde_json::from_str` into a list of tests: the result depends on the text
/// alone. Which texts it reads, no contract here says, but for those that
/// [`write_cache`] gives.
#[verifier::external_body]
fn parse_cache(json: &str) -> (r: Option<Vec<CachedTest>>)
    ensures
        opt_cached(r) == read_list(json@),
{
    serde_json::from_str::<Vec<(String, String, u64)>>(json).ok()
}

/// `serde_json::to_string` of a list of tests. It fails for maps whose keys are
/// no texts and for types that refuse, and a list of tests has neither; reading
/// what it gives gives the list back. Nothing else is said of the text.
#[verifier::external_body]
fn write_cache(list: &Vec<CachedTest>) -> (r: Option<String>)
    ensures
        r is Some,
        read_list(r->0@) == Some(cached_views(list@)),
{
    serde_json::to_string(list).ok()
}

// ---------------------------------------------------------------------------
// Reading
// ---------------------------------------------------------------------------
/// The test that an entry of the list stands for.
pub open spec fn uncached(c: (Seq<char>, Seq<char>, nat)) -> DiscoveredTestView {
    DiscoveredTestView { tree_path: c.0, filter_key: c.1, test_count: c.2, target_path: None }
}

/// Every number of cases fits a machine word.
pub open spec fn fits(list: Seq<(Seq<char>, Seq<char>, nat)>) -> bool {
    forall|i: int| 0 <= i < list.len() ==> (#[trigger] list[i]).2 <= usize::MAX
}

/// The tests of a list that was kept: none where it is not to be used, could
/// not be read or is empty.
pub open spec fn usable_list(
    enabled: bool,
    parsed: Option<Seq<(Seq<char>, Seq<char>, nat)>>,
) -> Option<Seq<DiscoveredTestView>> {
    match parsed {
        Some(list) => if enabled && list.len() > 0 && fits(list) {
            Some(list.map_values(|c: (Seq<char>, Seq<char>, nat)| uncached(c)))
        } else {
            None
        },
        None => None,
    }
}

pub open spec fn opt_entries(tests: Option<Vec<DiscoveredTest>>) -> Option<
    Seq<DiscoveredTestView>,
> {
    match tests {
        Some(tests) => Some(entries(tests@)),
        None => None,
    }
}

/// The tests of a list that was read, if it is to be used.
pub fn use_list(enabled: bool, parsed: Option<Vec<CachedTest>>) -> (r: Option<
    Vec<DiscoveredTest>,
>)
    ensures
        opt_entries(r) == usable_list(enabled, opt_cached(parsed)),
{
    let list = match parsed {
        Some(list) => list,
        None => {
            return None;
        },
    };
    let ghost all = cached_views(list@);
    assert(all.len() == list@.len());
    if !enabled || list.len() == 0 {
        return None;
    }
    let ghost want = all.map_values(|c: (Seq<char>, Seq<char>, nat)| uncached(c));
    let mut out: Vec<DiscoveredTest> = Vec::new();
    let mut i: usize = 0;
    assert(entries(out@) =~= want.take(0));
    while i < list.len()
        invariant
            all == cached_views(list@),
            opt_cached(parsed) == Some(all),
            want == all.map_values(|c: (Seq<char>, Seq<char>, nat)| uncached(c)),
            i <= list@.len(),
            forall|j: int| 0 <= j < i ==> (#[trigger] all[j]).2 <= usize::MAX,
            entries(out@) == want.take(i as int),
        decreases list@.len() - i,
    {
        let entry = &list[i];
        assert(all[i as int] == cached_view(*entry));
        if entry.2 > usize::MAX as u64 {
            assert(!fits(all));
            return None;
        }
        let test = DiscoveredTest::new(entry.0.as_str(), entry.1.as_str(), entry.2 as usize);
        let ghost o = entries(out@);
        out.push(test);
        assert(test@ == want[i as int]);
        assert(entries(out@) =~= o.push(want[i as int]));
        assert(want.take(i + 1) =~= want.take(i as int).push(want[i as int]));
        i += 1;
    }
    assert(want.take(i as int) =~= want);
    Some(out)
}

/// The tests that the file holds, if it is to be used and there is one.
pub fn tests_from_cache(enabled: bool, file: Option<&str>) -> (r: Option<Vec<DiscoveredTest>>)
    ensures
        opt_entries(r) == match file {
            Some(json) => usable_list(enabled, read_list(json@)),
            None => None,
        },
{
    match file {
        Some(json) => use_list(enabled, parse_cache(json)),
        None => None,
    }
}

// ---------------------------------------------------------------------------
// Writing
// ---------------------------------------------------------------------------
/// A test as it is kept: the project that it belongs to is not.
pub open spec fn to_cached(t: DiscoveredTestView) -> (Seq<char>, Seq<char>, nat) {
    (t.tree_path, t.filter_key, t.test_count)
}

/// What the file is to hold for a list of tests: a text that reads as the list.
pub fn cache_text(tests: &[DiscoveredTest]) -> (r: Option<String>)
    ensures
        r is Some,
        read_list(r->0@) == Some(
            entries(tests@).map_values(|t: DiscoveredTestView| to_cached(t)),
        ),
{
    let ghost want = entries(tests@).map_values(|t: DiscoveredTestView| to_cached(t));
    let mut list: Vec<CachedTest> = Vec::new();
    let mut i: usize = 0;
    assert(cached_views(list@) =~= want.take(0));
    while i < tests.len()
        invariant
            want == entries(tests@).map_values(|t: DiscoveredTestView| to_cached(t)),
            i <= tests@.len(),
            cached_views(list@) == want.take(i as int),
        decreases tests@.len() - i,
    {
        let test = &tests[i];
        let entry: CachedTest = (
            test.tree_path.clone(),
            test.filter_key.clone(),
            test.test_count as u64,
        );
        assert(entries(tests@)[i as int] == test@);
        assert(cached_view(entry) == want[i as int]);
        let ghost o = cached_views(list@);
        list.push(entry);
        assert(cached_views(list@) =~= o.push(want[i as int]));
        assert(want.take(i + 1) =~= want.take(i as int).push(want[i as int]));
        i += 1;
    }
    assert(want.take(i as int) =~= want);
    write_cache(&list)
}

/// What is kept comes back: a list that is not empty is read as it was written,
/// but for the projects.
pub proof fn law_kept_tests_come_back(tests: Seq<DiscoveredTestView>, json: Seq<char>)
    requires
        tests.len() > 0,
        forall|i: int| 0 <= i < tests.len() ==> (#[trigger] tests[i]).test_count <= usize::MAX,
        read_list(json) == Some(tests.map_values(|t: DiscoveredTestView| to_cached(t))),
    ensures
        usable_list(true, read_list(json)) == Some(
            tests.map_values(
                |t: DiscoveredTestView| DiscoveredTestView { target_path: None, ..t },
            ),
        ),
{
    let list = read_list(json)->0;
    assert(fits(list)) by {
        assert forall|i: int| 0 <= i < list.len() implies (#[trigger] list[i]).2 <= usize::MAX by {
            assert(list[i].2 == tests[i].test_count);
        }
    }
    let back = list.map_values(|c: (Seq<char>, Seq<char>, nat)| uncached(c));
    let want = tests.map_values(
        |t: DiscoveredTestView| DiscoveredTestView { target_path: None, ..t },
    );
    assert(back =~= want);
}

/// The tree that a session begins with; none where there are no tests.
pub fn first_tree(tests: &[DiscoveredTest]) -> (r: Option<Vec<TreeNode>>)
    ensures
        r is None <==> tests@.len() == 0,
        r matches Some(tree) ==> rows(tree@) == flat_tree(entries(tests@)),
{
    if tests.len() == 0 {
        None
    } else {
        Some(build_discovered_tree(tests))
    }
}

/// A list is used only if it is wanted and holds a test. Each of its tests then
/// has the place, the key and the number of cases that stand in it.
pub proof fn law_lists_are_used_as_they_stand(
    enabled: bool,
    list: Seq<(Seq<char>, Seq<char>, nat)>,
    i: int,
)
    ensures
        !enabled || list.len() == 0 ==> usable_list(enabled, Some(list)) is None,
        usable_list(enabled, None) is None,
        usable_list(enabled, Some(list)) is Some && 0 <= i < list.len() ==> ({
            let tests = usable_list(enabled, Some(list))->0;
            &&& tests.len() == list.len()
            &&& tests[i].tree_path == list[i].0
            &&& tests[i].filter_key == list[i].1
            &&& tests[i].test_count == list[i].2
        }),
        enabled && list.len() > 0 && (forall|j: int|
            0 <= j < list.len() ==> (#[trigger] list[j]).2 <= usize::MAX) ==> usable_list(
            enabled,
            Some(list),
        ) is Some,
{
}

} // verus!
