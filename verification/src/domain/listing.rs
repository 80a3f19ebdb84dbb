//! The names that `dotnet test --list-tests` prints, and the tests they stand
//! for.

use vstd::prelude::*;

use crate::domain::discovery::{case_total, entries, DiscoveredTest, DiscoveredTestView};
use crate::domain::sources::{enrich, enriched, strip_params, without_params, MethodPlace};
use crate::domain::table::Table;
use crate::text::{contains, has_text, has_text_in, same_text, texts, trim, trimmed};

verus! {

/// The line that the names follow.
pub const LIST_HEADER: &'static str = "The following Tests are available:";

// ---------------------------------------------------------------------------
// Names
// ---------------------------------------------------------------------------
/// What was read of the list so far.
#[verifier::ext_equal]
pub struct Listing {
    /// The header has been seen.
    pub started: bool,
    pub names: Seq<Seq<char>>,
}

/// One line more: below the header, every line that is not blank is a name.
pub open spec fn listing_after(l: Listing, line: Seq<char>) -> Listing {
    let t = trimmed(line);
    if !l.started {
        Listing { started: has_text(t, LIST_HEADER@), ..l }
    } else if t.len() == 0 {
        l
    } else {
        Listing { names: l.names.push(t), ..l }
    }
}

pub open spec fn listing_of(lines: Seq<Seq<char>>) -> Listing
    decreases lines.len(),
{
    if lines.len() == 0 {
        Listing { started: false, names: Seq::empty() }
    } else {
        listing_after(listing_of(lines.drop_last()), lines.last())
    }
}

/// The names below the header.
pub fn list_names(lines: &Vec<String>) -> (r: Vec<String>)
    ensures
        texts(r@) == listing_of(texts(lines@)).names,
{
    let ghost all = texts(lines@);
    let mut started = false;
    let mut names: Vec<String> = Vec::new();
    let mut i: usize = 0;
    assert(all.take(0) =~= Seq::<Seq<char>>::empty());
    assert(texts(names@) =~= Seq::<Seq<char>>::empty());
    while i < lines.len()
        invariant
            all == texts(lines@),
            i <= lines@.len(),
            (Listing { started, names: texts(names@) }) == listing_of(all.take(i as int)),
        decreases lines@.len() - i,
    {
        let t = trim(lines[i].as_str());
        proof {
            assert(all.take(i + 1).drop_last() =~= all.take(i as int));
            assert(all.take(i + 1).last() == lines@[i as int]@);
        }
        if !started {
            started = contains(t, LIST_HEADER);
        } else if !t.is_empty() {
            let ghost o = texts(names@);
            names.push(t.to_owned());
            assert(texts(names@) =~= o.push(t@));
        }
        i += 1;
    }
    assert(all.take(i as int) =~= all);
    names
}

// ---------------------------------------------------------------------------
// Tests
// ---------------------------------------------------------------------------
/// The names without their parameters.
pub open spec fn name_keys(names: Seq<Seq<char>>) -> Seq<Seq<char>> {
    names.map_values(|n: Seq<char>| without_params(n))
}

/// Each text once, where it first stands.
pub open spec fn distinct(keys: Seq<Seq<char>>) -> Seq<Seq<char>>
    decreases keys.len(),
{
    if keys.len() == 0 {
        Seq::empty()
    } else {
        let before = distinct(keys.drop_last());
        if before.contains(keys.last()) {
            before
        } else {
            before.push(keys.last())
        }
    }
}

/// How often a text stands among the keys.
pub open spec fn occurrences(keys: Seq<Seq<char>>, key: Seq<char>) -> nat
    decreases keys.len(),
{
    if keys.len() == 0 {
        0
    } else {
        occurrences(keys.drop_last(), key) + (if keys.last() == key {
            1nat
        } else {
            0
        })
    }
}

/// The test that the names with one key stand for: a method, with as many cases
/// as there are names.
pub open spec fn listed_test(
    keys: Seq<Seq<char>>,
    key: Seq<char>,
    methods: Map<Seq<char>, MethodPlace>,
    classes: Map<Seq<char>, String>,
) -> DiscoveredTestView {
    DiscoveredTestView {
        tree_path: enriched(key, methods, classes),
        filter_key: key,
        test_count: occurrences(keys, key),
        target_path: None,
    }
}

/// The tests that the names stand for.
pub open spec fn listed_tests(
    names: Seq<Seq<char>>,
    methods: Map<Seq<char>, MethodPlace>,
    classes: Map<Seq<char>, String>,
) -> Seq<DiscoveredTestView> {
    let keys = name_keys(names);
    distinct(keys).map_values(|k: Seq<char>| listed_test(keys, k, methods, classes))
}

fn keys_of(names: &Vec<String>) -> (r: Vec<String>)
    ensures
        texts(r@) == name_keys(texts(names@)),
{
    let ghost all = name_keys(texts(names@));
    let mut keys: Vec<String> = Vec::new();
    let mut i: usize = 0;
    assert(texts(keys@) =~= all.take(0));
    while i < names.len()
        invariant
            all == name_keys(texts(names@)),
            i <= names@.len(),
            texts(keys@) == all.take(i as int),
        decreases names@.len() - i,
    {
        let ghost o = texts(keys@);
        let key = strip_params(names[i].as_str());
        assert(key@ == all[i as int]);
        keys.push(key);
        assert(texts(keys@) =~= o.push(all[i as int]));
        assert(all.take(i + 1) =~= all.take(i as int).push(all[i as int]));
        i += 1;
    }
    assert(all.take(i as int) =~= all);
    keys
}

fn distinct_keys(keys: &Vec<String>) -> (r: Vec<String>)
    ensures
        texts(r@) == distinct(texts(keys@)),
{
    let ghost all = texts(keys@);
    let mut found: Vec<String> = Vec::new();
    let mut i: usize = 0;
    assert(all.take(0) =~= Seq::<Seq<char>>::empty());
    assert(texts(found@) =~= Seq::<Seq<char>>::empty());
    while i < keys.len()
        invariant
            all == texts(keys@),
            i <= keys@.len(),
            texts(found@) == distinct(all.take(i as int)),
        decreases keys@.len() - i,
    {
        let key = &keys[i];
        proof {
            assert(all.take(i + 1).drop_last() =~= all.take(i as int));
            assert(all.take(i + 1).last() == key@);
        }
        if !has_text_in(&found, key.as_str()) {
            let ghost o = texts(found@);
            found.push(key.clone());
            assert(texts(found@) =~= o.push(key@));
        }
        i += 1;
    }
    assert(all.take(i as int) =~= all);
    found
}

fn count_key(keys: &Vec<String>, key: &str) -> (r: usize)
    ensures
        r == occurrences(texts(keys@), key@),
{
    let ghost all = texts(keys@);
    let mut n: usize = 0;
    let mut i: usize = 0;
    assert(all.take(0) =~= Seq::<Seq<char>>::empty());
    while i < keys.len()
        invariant
            all == texts(keys@),
            n <= i <= keys@.len(),
            n == occurrences(all.take(i as int), key@),
        decreases keys@.len() - i,
    {
        proof {
            assert(all.take(i + 1).drop_last() =~= all.take(i as int));
            assert(all.take(i + 1).last() == keys@[i as int]@);
        }
        if same_text(keys[i].as_str(), key) {
            n += 1;
        }
        i += 1;
    }
    assert(all.take(i as int) =~= all);
    n
}

pub fn tests_of_names(
    names: &Vec<String>,
    methods: &Table<MethodPlace>,
    classes: &Table<String>,
) -> (r: Vec<DiscoveredTest>)
    ensures
        entries(r@) == listed_tests(texts(names@), methods@, classes@),
{
    let keys = keys_of(names);
    let found = distinct_keys(&keys);
    let ghost all = name_keys(texts(names@));
    let ghost want = listed_tests(texts(names@), methods@, classes@);
    let mut out: Vec<DiscoveredTest> = Vec::new();
    let mut i: usize = 0;
    assert(entries(out@) =~= want.take(0));
    assert(want.len() == found@.len()) by {
        assert(distinct(all).len() == texts(found@).len());
    }
    while i < found.len()
        invariant
            all == name_keys(texts(names@)),
            texts(keys@) == all,
            texts(found@) == distinct(all),
            want == listed_tests(texts(names@), methods@, classes@),
            want.len() == found@.len(),
            i <= found@.len(),
            entries(out@) == want.take(i as int),
        decreases found@.len() - i,
    {
        let key = found[i].as_str();
        assert(distinct(all)[i as int] == key@);
        let path = enrich(key, methods, classes);
        let test = DiscoveredTest::new(path.as_str(), key, count_key(&keys, key));
        assert(test@ == want[i as int]);
        let ghost o = entries(out@);
        out.push(test);
        assert(entries(out@) =~= o.push(want[i as int]));
        assert(want.take(i + 1) =~= want.take(i as int).push(want[i as int]));
        i += 1;
    }
    assert(want.take(i as int) =~= want);
    out
}

/// Every listed name is a case of one of the tests: together they have as many
/// cases as there are names.
pub proof fn law_every_name_is_counted(
    names: Seq<Seq<char>>,
    methods: Map<Seq<char>, MethodPlace>,
    classes: Map<Seq<char>, String>,
)
    ensures
        case_total(listed_tests(names, methods, classes)) == names.len(),
{
    let keys = name_keys(names);
    let tests = listed_tests(names, methods, classes);
    lemma_cases(tests, distinct(keys), keys);
    lemma_counted(keys);
}

spec fn counted(among: Seq<Seq<char>>, keys: Seq<Seq<char>>) -> nat
    decreases among.len(),
{
    if among.len() == 0 {
        0
    } else {
        counted(among.drop_last(), keys) + occurrences(keys, among.last())
    }
}

proof fn lemma_cases(
    tests: Seq<DiscoveredTestView>,
    among: Seq<Seq<char>>,
    keys: Seq<Seq<char>>,
)
    requires
        tests.len() == among.len(),
        forall|i: int|
            0 <= i < tests.len() ==> (#[trigger] tests[i]).test_count == occurrences(keys, among[i]),
    ensures
        case_total(tests) == counted(among, keys),
    decreases tests.len(),
{
    if tests.len() > 0 {
        assert forall|i: int| 0 <= i < tests.len() - 1 implies (
        #[trigger] tests.drop_last()[i]).test_count == occurrences(keys, among.drop_last()[i]) by {
            assert(tests[i].test_count == occurrences(keys, among[i]));
        }
        lemma_cases(tests.drop_last(), among.drop_last(), keys);
        assert(tests[tests.len() - 1].test_count == occurrences(keys, among[tests.len() - 1]));
    }
}

pub proof fn lemma_distinct(keys: Seq<Seq<char>>)
    ensures
        distinct(keys).no_duplicates(),
        forall|k: Seq<char>| #[trigger] distinct(keys).contains(k) <==> keys.contains(k),
    decreases keys.len(),
{
    if keys.len() > 0 {
        lemma_distinct(keys.drop_last());
        let d = distinct(keys);
        let before = distinct(keys.drop_last());
        assert forall|k: Seq<char>| #[trigger] d.contains(k) <==> keys.contains(k) by {
            if keys.contains(k) {
                let i = keys.index_of(k);
                if i < keys.len() - 1 {
                    assert(keys.drop_last()[i] == k);
                    assert(before.contains(k));
                    assert(d[before.index_of(k)] == k);
                } else if !before.contains(k) {
                    assert(d[d.len() - 1] == k);
                }
            }
            if d.contains(k) {
                let i = d.index_of(k);
                if i < before.len() {
                    assert(before[i] == k);
                    assert(before.contains(k));
                    assert(keys[keys.drop_last().index_of(k)] == k);
                } else {
                    assert(keys[keys.len() - 1] == k);
                }
            }
        }
    }
}

proof fn lemma_one_more(among: Seq<Seq<char>>, keys: Seq<Seq<char>>)
    requires
        keys.len() > 0,
        among.no_duplicates(),
    ensures
        counted(among, keys) == counted(among, keys.drop_last()) + (if among.contains(keys.last()) {
            1nat
        } else {
            0
        }),
    decreases among.len(),
{
    if among.len() > 0 {
        let rest = among.drop_last();
        lemma_one_more(rest, keys);
        let k = keys.last();
        if rest.contains(k) {
            let i = rest.index_of(k);
            assert(among[i] == k);
            assert(among[i] != among[among.len() - 1]);
        }
        if among.contains(k) && among.last() != k {
            assert(rest[among.index_of(k)] == k);
        }
        if among.last() == k {
            assert(among[among.len() - 1] == k);
        }
    }
}

proof fn lemma_absent(keys: Seq<Seq<char>>, key: Seq<char>)
    requires
        !keys.contains(key),
    ensures
        occurrences(keys, key) == 0,
    decreases keys.len(),
{
    if keys.len() > 0 {
        assert(keys[keys.len() - 1] != key);
        assert(!keys.drop_last().contains(key)) by {
            if keys.drop_last().contains(key) {
                assert(keys[keys.drop_last().index_of(key)] == key);
            }
        }
        lemma_absent(keys.drop_last(), key);
    }
}

proof fn lemma_counted(keys: Seq<Seq<char>>)
    ensures
        counted(distinct(keys), keys) == keys.len(),
    decreases keys.len(),
{
    if keys.len() > 0 {
        let shorter = keys.drop_last();
        let before = distinct(shorter);
        let k = keys.last();
        lemma_counted(shorter);
        lemma_distinct(shorter);
        lemma_one_more(before, keys);
        if !before.contains(k) {
            assert(distinct(keys).drop_last() =~= before);
            assert(!shorter.contains(k));
            lemma_absent(shorter, k);
        }
    }
}

} // verus!
