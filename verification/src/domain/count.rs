//! Summing discovered tests for a folder or a name prefix.

use vstd::prelude::*;

use crate::domain::discovery::{entries, DiscoveredTest, DiscoveredTestView};
use crate::text::{
    ascii_lower, ascii_lowered, before_char, concat, contains_char, eq_ignore_ascii_case,
    first_segment, is_white_space, lemma_first_index, opt_text, same_text, segments, starts_with,
    trim, trim_end_char, trim_end_matches, trimmed,
};
use crate::text_laws::{
    is_blank, law_first_segment_is_split_off, law_plain_text_is_one_segment,
    law_trailing_run_is_taken_away, law_trimming_finds_the_text,
};

verus! {

/// `path` is `prefix` itself or lies below it, dot by dot.
pub open spec fn under_prefix(path: Seq<char>, prefix: Seq<char>) -> bool {
    path == prefix || (prefix + "."@).is_prefix_of(path)
}

/// The first segment of `path` is `folder`, letter case aside.
pub open spec fn in_top_level_folder(path: Seq<char>, folder: Seq<char>) -> bool {
    ascii_lowered(first_segment(path, '.')) == ascii_lowered(folder)
}

/// A query as it is matched: without white space around it and without dots
/// behind it.
pub open spec fn normal_query(query: Seq<char>) -> Seq<char> {
    trim_end_char(trimmed(query), '.')
}

/// Whether the query `q` counts the test: a qualified prefix is matched
/// against the filter column, a short name against the top-level folder.
pub open spec fn counted(test: DiscoveredTestView, q: Seq<char>) -> bool {
    if q.contains('.') {
        under_prefix(test.filter_key, q)
    } else {
        in_top_level_folder(test.tree_path, q)
    }
}

/// The test cases of all entries that `q` counts.
pub open spec fn counted_sum(tests: Seq<DiscoveredTestView>, q: Seq<char>) -> nat
    decreases tests.len(),
{
    if tests.len() == 0 {
        0
    } else {
        counted_sum(tests.drop_last(), q) + if counted(tests.last(), q) {
            tests.last().test_count
        } else {
            0
        }
    }
}

/// The answer to a count query: nothing is counted for an empty one.
pub open spec fn query_count(tests: Seq<DiscoveredTestView>, query: Seq<char>) -> nat {
    if normal_query(query).len() == 0 {
        0
    } else {
        counted_sum(tests, normal_query(query))
    }
}

proof fn lemma_counted_sum_grows(tests: Seq<DiscoveredTestView>, q: Seq<char>, n: int)
    requires
        0 <= n <= tests.len(),
    ensures
        counted_sum(tests.take(n), q) <= counted_sum(tests, q),
    decreases tests.len(),
{
    if n == tests.len() {
        assert(tests.take(n) =~= tests);
    } else {
        assert(tests.drop_last().take(n) =~= tests.take(n));
        lemma_counted_sum_grows(tests.drop_last(), q, n);
    }
}

/// Sum for a count query, if a machine word holds it.
pub fn checked_sum_for_query(tests: &[DiscoveredTest], query: &str) -> (r: Option<usize>)
    ensures
        r == if query_count(entries(tests@), query@) <= usize::MAX {
            Some(query_count(entries(tests@), query@) as usize)
        } else {
            None
        },
{
    let q = trim_end_matches(trim(query), '.');
    if q.is_empty() {
        return Some(0);
    }
    let dotted = contains_char(q, '.');
    let mut sum: usize = 0;
    let mut i: usize = 0;
    while i < tests.len()
        invariant
            i <= tests@.len(),
            dotted == q@.contains('.'),
            query_count(entries(tests@), query@) == counted_sum(entries(tests@), q@),
            sum == counted_sum(entries(tests@).take(i as int), q@),
        decreases tests@.len() - i,
    {
        let ghost next = entries(tests@).take(i + 1);
        assert(next.drop_last() =~= entries(tests@).take(i as int));
        assert(next.last() == tests@[i as int]@);
        proof {
            lemma_counted_sum_grows(entries(tests@), q@, i + 1);
        }
        let hit = if dotted {
            tree_under_prefix(tests[i].filter_key.as_str(), q)
        } else {
            tree_in_top_level_disk_folder(tests[i].tree_path.as_str(), q)
        };
        if hit {
            match sum.checked_add(tests[i].test_count) {
                Some(n) => {
                    sum = n;
                },
                None => {
                    return None;
                },
            }
        }
        i += 1;
    }
    assert(entries(tests@).take(i as int) =~= entries(tests@));
    Some(sum)
}

/// Sum for a count query. A short name (no dots) is matched against the
/// top-level folder of the tree path, a qualified prefix against the filter
/// column.
pub fn sum_for_count_query(tests: &[DiscoveredTest], query: &str) -> (r: usize)
    requires
        query_count(entries(tests@), query@) <= usize::MAX,
    ensures
        r == query_count(entries(tests@), query@),
{
    match checked_sum_for_query(tests, query) {
        Some(n) => n,
        None => 0,
    }
}

pub fn tree_in_top_level_disk_folder(tree: &str, folder: &str) -> (r: bool)
    ensures
        r == in_top_level_folder(tree@, folder@),
{
    eq_ignore_ascii_case(before_char(tree, '.'), folder)
}

pub fn tree_under_prefix(tree: &str, prefix: &str) -> (r: bool)
    ensures
        r == under_prefix(tree@, prefix@),
{
    same_text(tree, prefix) || starts_with(tree, concat(prefix, ".").as_str())
}

/// The top-level folder of the first test whose top-level folder is `want`,
/// letter case aside.
pub open spec fn first_folder_named(tests: Seq<DiscoveredTestView>, want: Seq<char>) -> Option<
    Seq<char>,
>
    decreases tests.len(),
{
    if tests.len() == 0 {
        None
    } else if in_top_level_folder(tests[0].tree_path, want) {
        Some(first_segment(tests[0].tree_path, '.'))
    } else {
        first_folder_named(tests.drop_first(), want)
    }
}

/// What a folder label resolves to: nothing if it is blank, itself if it is
/// qualified, else the label as the discovered tests spell it.
pub open spec fn resolved_segment(tests: Seq<DiscoveredTestView>, segment: Seq<char>) -> Option<
    Seq<char>,
> {
    let want = trimmed(segment);
    if want.len() == 0 {
        None
    } else if want.contains('.') {
        Some(want)
    } else {
        first_folder_named(tests, want)
    }
}

/// Resolves a short folder label to the first path segment from the data.
pub fn resolve_short_segment_to_prefix(tests: &[DiscoveredTest], segment: &str) -> (r: Option<
    String,
>)
    ensures
        opt_text(r) == resolved_segment(entries(tests@), segment@),
{
    let want = trim(segment);
    if want.is_empty() {
        return None;
    }
    if contains_char(want, '.') {
        return Some(want.to_owned());
    }
    let mut i: usize = 0;
    assert(entries(tests@).skip(0) =~= entries(tests@));
    while i < tests.len()
        invariant
            i <= tests@.len(),
            want@ == trimmed(segment@),
            want@.len() > 0,
            !want@.contains('.'),
            first_folder_named(entries(tests@), want@) == first_folder_named(
                entries(tests@).skip(i as int),
                want@,
            ),
        decreases tests@.len() - i,
    {
        let ghost rest = entries(tests@).skip(i as int);
        assert(rest[0] == tests@[i as int]@);
        let first = before_char(tests[i].tree_path.as_str(), '.');
        if eq_ignore_ascii_case(first, want) {
            return Some(first.to_owned());
        }
        assert(rest.drop_first() =~= entries(tests@).skip(i + 1));
        i += 1;
    }
    None
}

/// A path that only continues the last segment of a prefix does not lie below
/// it.
pub proof fn law_prefix_ends_at_a_dot(prefix: Seq<char>, c: char, rest: Seq<char>)
    requires
        c != '.',
    ensures
        !under_prefix(prefix + seq![c] + rest, prefix),
        under_prefix(prefix + seq!['.'] + rest, prefix),
        under_prefix(prefix, prefix),
{
    reveal_strlit(".");
    let n = prefix.len() as int;
    let other = prefix + seq![c] + rest;
    assert(other[n] == c);
    assert((prefix + "."@)[n] == '.');
    if (prefix + "."@).is_prefix_of(other) {
        assert(other.subrange(0, n + 1)[n] == '.');
    }
    let below = prefix + seq!['.'] + rest;
    assert(below.subrange(0, n + 1) =~= prefix + "."@);
}

/// Lying below a prefix is transitive.
pub proof fn law_prefixes_nest(path: Seq<char>, middle: Seq<char>, prefix: Seq<char>)
    requires
        under_prefix(path, middle),
        under_prefix(middle, prefix),
    ensures
        under_prefix(path, prefix),
{
    if path != middle && middle != prefix {
        let p = prefix + "."@;
        let m = middle + "."@;
        assert(path.subrange(0, m.len() as int) == m);
        assert(middle.subrange(0, p.len() as int) == p);
        assert forall|i: int| 0 <= i < p.len() implies p[i] == path[i] by {
            assert(middle.subrange(0, p.len() as int)[i] == middle[i]);
            assert(path.subrange(0, m.len() as int)[i] == m[i]);
        }
        assert(p =~= path.subrange(0, p.len() as int));
    }
}

/// The sum over a list is the sum over its parts.
pub proof fn law_count_is_additive(
    a: Seq<DiscoveredTestView>,
    b: Seq<DiscoveredTestView>,
    query: Seq<char>,
)
    ensures
        query_count(a + b, query) == query_count(a, query) + query_count(b, query),
    decreases b.len(),
{
    if b.len() == 0 {
        assert(a + b =~= a);
    } else {
        law_count_is_additive(a, b.drop_last(), query);
        assert((a + b).drop_last() =~= a + b.drop_last());
    }
}

proof fn lemma_same_folder_same_sum(
    tests: Seq<DiscoveredTestView>,
    p: Seq<char>,
    q: Seq<char>,
)
    requires
        !p.contains('.'),
        !q.contains('.'),
        ascii_lowered(p) == ascii_lowered(q),
    ensures
        counted_sum(tests, p) == counted_sum(tests, q),
    decreases tests.len(),
{
    if tests.len() > 0 {
        lemma_same_folder_same_sum(tests.drop_last(), p, q);
    }
}

/// A short label and the folder that it resolves to count the same tests.
pub proof fn law_resolved_folder_counts_the_same(
    tests: Seq<DiscoveredTestView>,
    segment: Seq<char>,
)
    requires
        !trimmed(segment).contains('.'),
        resolved_segment(tests, segment) is Some,
    ensures
        counted_sum(tests, trimmed(segment)) == counted_sum(
            tests,
            resolved_segment(tests, segment)->0,
        ),
{
    lemma_folder_found(tests, trimmed(segment));
    lemma_same_folder_same_sum(tests, trimmed(segment), resolved_segment(tests, segment)->0);
}

proof fn lemma_folder_found(tests: Seq<DiscoveredTestView>, want: Seq<char>)
    requires
        first_folder_named(tests, want) is Some,
    ensures
        ascii_lowered(first_folder_named(tests, want)->0) == ascii_lowered(want),
        !(first_folder_named(tests, want)->0).contains('.'),
    decreases tests.len(),
{
    if in_top_level_folder(tests[0].tree_path, want) {
        lemma_first_index(tests[0].tree_path, '.');
    } else {
        lemma_folder_found(tests.drop_first(), want);
    }
}

// ---------------------------------------------------------------------------
// What a query counts
// ---------------------------------------------------------------------------
/// A query as it is looked for: nothing blank around it and no dot behind it.
pub open spec fn is_plain_query(q: Seq<char>) -> bool {
    &&& q.len() > 0
    &&& !is_white_space(q[0])
    &&& !is_white_space(q.last())
    &&& q.last() != '.'
}

proof fn lemma_plain_query(q: Seq<char>)
    requires
        is_plain_query(q),
    ensures
        normal_query(q) == q,
{
    let none = Seq::<char>::empty();
    assert(none + q + none =~= q);
    law_trimming_finds_the_text(none, q, none);
}

/// A query with a dot counts a test exactly if the key of the test is the query
/// or goes on behind it with a dot.
pub proof fn law_qualified_query_counts_what_lies_below(
    test: DiscoveredTestView,
    query: Seq<char>,
)
    requires
        is_plain_query(query),
        query.contains('.'),
    ensures
        ({
            let key = test.filter_key;
            let n = query.len() as int;
            query_count(seq![test], query) == if key.len() >= n && (forall|i: int|
                0 <= i < n ==> key[i] == #[trigger] query[i]) && (key.len() == n || key[n]
                == '.') {
                test.test_count
            } else {
                0
            }
        }),
{
    lemma_plain_query(query);
    lemma_one_test(test, query);
    reveal_strlit(".");
    let key = test.filter_key;
    let n = query.len() as int;
    let dotted = query + "."@;
    if dotted.is_prefix_of(key) {
        let begin = key.subrange(0, n + 1);
        assert(begin == dotted);
        assert(begin[n] == '.');
        assert forall|i: int| 0 <= i < n implies key[i] == #[trigger] query[i] by {
            assert(begin[i] == dotted[i]);
        }
    }
    if key.len() >= n && (forall|i: int| 0 <= i < n ==> key[i] == #[trigger] query[i]) {
        if key.len() == n {
            assert(key =~= query);
        } else if key[n] == '.' {
            assert(key.subrange(0, n + 1) =~= dotted);
        }
    }
}

/// A query without a dot counts a test exactly if the first part of its path in
/// the tree is the query, letter case aside.
pub proof fn law_short_query_counts_a_folder(
    test: DiscoveredTestView,
    folder: Seq<char>,
    below: Seq<char>,
    query: Seq<char>,
)
    requires
        is_plain_query(query),
        !query.contains('.'),
        !folder.contains('.'),
        test.tree_path == folder || test.tree_path == folder + "."@ + below,
    ensures
        query_count(seq![test], query) == if folder.len() == query.len() && (forall|i: int|
            0 <= i < folder.len() ==> ascii_lower(#[trigger] folder[i]) == ascii_lower(query[i])) {
            test.test_count
        } else {
            0
        },
{
    lemma_plain_query(query);
    lemma_one_test(test, query);
    reveal_strlit(".");
    law_plain_text_is_one_segment(folder, '.');
    assert(folder + "."@ + below =~= folder + seq!['.'] + below);
    law_first_segment_is_split_off(folder, '.', below);
    assert(first_segment(test.tree_path, '.') == folder);
    let a = ascii_lowered(folder);
    let b = ascii_lowered(query);
    if a == b {
        assert(a.len() == b.len());
        assert forall|i: int| 0 <= i < folder.len() implies ascii_lower(#[trigger] folder[i])
            == ascii_lower(query[i]) by {
            assert(a[i] == b[i]);
        }
    }
    if folder.len() == query.len() && (forall|i: int|
        0 <= i < folder.len() ==> ascii_lower(#[trigger] folder[i]) == ascii_lower(query[i])) {
        assert(a =~= b);
    }
}

proof fn lemma_one_test(test: DiscoveredTestView, q: Seq<char>)
    ensures
        counted_sum(seq![test], q) == if counted(test, q) {
            test.test_count
        } else {
            0
        },
{
    assert(seq![test].drop_last() =~= Seq::<DiscoveredTestView>::empty());
    assert(counted_sum(seq![test].drop_last(), q) == 0);
}

/// White space around a query and dots behind it make no difference, and a
/// query of nothing else counts nothing.
pub proof fn law_query_is_cleaned(
    tests: Seq<DiscoveredTestView>,
    a: Seq<char>,
    query: Seq<char>,
    dots: nat,
    b: Seq<char>,
)
    requires
        is_blank(a),
        is_blank(b),
        is_plain_query(query) || query.len() == 0,
    ensures
        query_count(tests, a + (query + Seq::new(dots, |i: int| '.')) + b) == if query.len() == 0 {
            0
        } else {
            query_count(tests, query)
        },
{
    let run = Seq::new(dots, |i: int| '.');
    let q = query + run;
    if query.len() > 0 {
        lemma_plain_query(query);
        assert(q[0] == query[0]);
    }
    if dots > 0 {
        assert(q.last() == '.');
        if query.len() == 0 {
            assert(q[0] == '.');
        }
    } else {
        assert(q =~= query);
    }
    law_trimming_finds_the_text(a, q, b);
    law_trailing_run_is_taken_away(query, '.', dots);
}

/// No test, no cases.
pub proof fn law_nothing_counts_nothing(query: Seq<char>)
    ensures
        query_count(Seq::empty(), query) == 0,
{
}

/// A short label resolves to the first part of the path of a test, spelled as
/// there; the first such test decides. It resolves to nothing if no path begins
/// with it.
pub proof fn law_label_resolves_to_a_folder(
    tests: Seq<DiscoveredTestView>,
    label: Seq<char>,
    i: int,
)
    requires
        is_plain_query(label),
        !label.contains('.'),
        0 <= i <= tests.len(),
        forall|j: int|
            0 <= j < i ==> ascii_lowered(segments((#[trigger] tests[j]).tree_path, '.')[0])
                != ascii_lowered(label),
        i < tests.len() ==> ascii_lowered(segments(tests[i].tree_path, '.')[0]) == ascii_lowered(
            label,
        ),
    ensures
        resolved_segment(tests, label) == if i < tests.len() {
            Some(segments(tests[i].tree_path, '.')[0])
        } else {
            None
        },
{
    let none = Seq::<char>::empty();
    assert(none + label + none =~= label);
    law_trimming_finds_the_text(none, label, none);
    lemma_first_folder(tests, label, i);
}

proof fn lemma_first_folder(tests: Seq<DiscoveredTestView>, label: Seq<char>, i: int)
    requires
        0 <= i <= tests.len(),
        forall|j: int|
            0 <= j < i ==> ascii_lowered(segments((#[trigger] tests[j]).tree_path, '.')[0])
                != ascii_lowered(label),
        i < tests.len() ==> ascii_lowered(segments(tests[i].tree_path, '.')[0]) == ascii_lowered(
            label,
        ),
    ensures
        first_folder_named(tests, label) == if i < tests.len() {
            Some(segments(tests[i].tree_path, '.')[0])
        } else {
            None
        },
    decreases tests.len(),
{
    if tests.len() > 0 {
        let path = tests[0].tree_path;
        lemma_first_index(path, '.');
        assert(path.take(path.len() as int) =~= path);
        assert(segments(path, '.')[0] == first_segment(path, '.'));
        if i > 0 {
            assert forall|j: int| 0 <= j < i - 1 implies ascii_lowered(
                segments((#[trigger] tests.drop_first()[j]).tree_path, '.')[0],
            ) != ascii_lowered(label) by {
                assert(tests.drop_first()[j] == tests[j + 1]);
            }
            lemma_first_folder(tests.drop_first(), label, i - 1);
        }
    }
}

} // verus!
