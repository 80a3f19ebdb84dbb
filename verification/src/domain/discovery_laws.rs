//! What discovering tests comes to: which names a listing holds, which tests
//! they stand for, and where these stand in the tree.

use vstd::prelude::*;

use crate::domain::listing::{
    distinct, lemma_distinct, listed_tests, listing_of, name_keys, occurrences, Listing,
};
use crate::domain::runner::{composed_filter, option_arguments, RunOptionsView};
use crate::domain::sources::{enriched, without_params, MethodPlace};
use crate::text::{has_text, is_white_space, joined, segments, trimmed};
use crate::text_laws::{
    law_first_segment_is_split_off, law_plain_text_is_one_segment, law_segments_of_both,
    law_trimming_finds_the_text,
};

verus! {

// ---------------------------------------------------------------------------
// The listing
// ---------------------------------------------------------------------------
/// A line that says that the names follow.
pub open spec fn announces_names(line: Seq<char>) -> bool {
    has_text(trimmed(line), "The following Tests are available:"@)
}

/// The lines that are not blank, trimmed.
pub open spec fn filled_lines(lines: Seq<Seq<char>>) -> Seq<Seq<char>> {
    lines.map_values(|l: Seq<char>| trimmed(l)).filter(|l: Seq<char>| l.len() > 0)
}

proof fn lemma_nothing_announced(lines: Seq<Seq<char>>)
    requires
        forall|i: int| 0 <= i < lines.len() ==> !announces_names(#[trigger] lines[i]),
    ensures
        listing_of(lines) == (Listing { started: false, names: Seq::empty() }),
    decreases lines.len(),
{
    if lines.len() > 0 {
        assert forall|i: int| 0 <= i < lines.drop_last().len() implies !announces_names(
            #[trigger] lines.drop_last()[i],
        ) by {
            assert(!announces_names(lines[i]));
        }
        lemma_nothing_announced(lines.drop_last());
        assert(!announces_names(lines[lines.len() - 1]));
    }
}

/// The names of a listing are the lines below the first that announces them,
/// trimmed and without the blank ones, in order.
pub proof fn law_names_follow_the_header(
    before: Seq<Seq<char>>,
    header: Seq<char>,
    after: Seq<Seq<char>>,
)
    requires
        forall|i: int| 0 <= i < before.len() ==> !announces_names(#[trigger] before[i]),
        announces_names(header),
    ensures
        listing_of(before + seq![header] + after).names == filled_lines(after),
        listing_of(before + seq![header] + after).started,
    decreases after.len(),
{
    reveal(Seq::filter);
    let lines = before + seq![header] + after;
    let trim_all = |l: Seq<char>| trimmed(l);
    if after.len() == 0 {
        assert(lines.drop_last() =~= before);
        assert(lines.last() == header);
        lemma_nothing_announced(before);
        assert(filled_lines(after) =~= Seq::<Seq<char>>::empty());
    } else {
        let init = after.drop_last();
        assert(lines.drop_last() =~= before + seq![header] + init);
        assert(lines.last() == after.last());
        law_names_follow_the_header(before, header, init);
        assert(after.map_values(trim_all).drop_last() =~= init.map_values(trim_all));
        assert(after.map_values(trim_all).last() == trimmed(after.last()));
    }
}

/// A listing without such a line has no names.
pub proof fn law_no_header_no_names(lines: Seq<Seq<char>>)
    requires
        forall|i: int| 0 <= i < lines.len() ==> !announces_names(#[trigger] lines[i]),
    ensures
        listing_of(lines).names.len() == 0,
{
    lemma_nothing_announced(lines);
}

// ---------------------------------------------------------------------------
// The tests
// ---------------------------------------------------------------------------
/// The key of a listed name is the name without its parameters and without the
/// blanks around it.
pub proof fn law_listed_parameters_are_dropped(name: Seq<char>, parameters: Seq<char>)
    requires
        name.len() > 0,
        !is_white_space(name[0]),
        !is_white_space(name.last()),
        !name.contains('('),
    ensures
        without_params(name) == name,
        without_params(name + "("@ + parameters) == name,
{
    reveal_strlit("(");
    law_plain_text_is_one_segment(name, '(');
    assert(name + "("@ + parameters =~= name + seq!['('] + parameters);
    law_first_segment_is_split_off(name, '(', parameters);
    let none = Seq::<char>::empty();
    assert(none + name + none =~= name);
    law_trimming_finds_the_text(none, name, none);
}

proof fn lemma_occurrences(names: Seq<Seq<char>>, key: Seq<char>)
    ensures
        occurrences(name_keys(names), key) == names.filter(
            |n: Seq<char>| without_params(n) == key,
        ).len(),
    decreases names.len(),
{
    reveal(Seq::filter);
    if names.len() > 0 {
        lemma_occurrences(names.drop_last(), key);
        assert(name_keys(names).drop_last() =~= name_keys(names.drop_last()));
        assert(name_keys(names).last() == without_params(names.last()));
    }
}

/// The tests of a listing have the keys of its names, each once, and each test
/// has as many cases as there are names with its key.
pub proof fn law_listed_tests_stand_for_the_names(
    names: Seq<Seq<char>>,
    methods: Map<Seq<char>, MethodPlace>,
    classes: Map<Seq<char>, String>,
    i: int,
    n: int,
)
    requires
        0 <= n < names.len(),
        0 <= i < listed_tests(names, methods, classes).len(),
    ensures
        ({
            let tests = listed_tests(names, methods, classes);
            let test = tests[i];
            &&& test.test_count == names.filter(
                |n: Seq<char>| without_params(n) == test.filter_key,
            ).len()
            &&& test.test_count > 0
            &&& test.tree_path == enriched(test.filter_key, methods, classes)
            &&& test.target_path is None
            &&& forall|j: int|
                0 <= j < tests.len() && j != i ==> (#[trigger] tests[j]).filter_key
                    != test.filter_key
            &&& exists|j: int|
                0 <= j < tests.len() && (#[trigger] tests[j]).filter_key == without_params(names[n])
        }),
{
    let keys = name_keys(names);
    let tests = listed_tests(names, methods, classes);
    let d = distinct(keys);
    lemma_distinct(keys);
    lemma_occurrences(names, tests[i].filter_key);
    assert forall|j: int| 0 <= j < tests.len() && j != i implies (#[trigger] tests[j]).filter_key
        != tests[i].filter_key by {
        assert(d[j] != d[i]);
    }
    assert(keys[n] == without_params(names[n]));
    assert(keys.contains(keys[n]));
    assert(d.contains(keys[n]));
    let j = choose|j: int| 0 <= j < d.len() && d[j] == keys[n];
    assert(tests[j].filter_key == keys[n]);
    assert(d.contains(d[i]));
    assert(keys.contains(d[i]));
    let m = choose|m: int| 0 <= m < keys.len() && keys[m] == d[i];
    lemma_present(keys, d[i], m);
}

proof fn lemma_present(keys: Seq<Seq<char>>, key: Seq<char>, m: int)
    requires
        0 <= m < keys.len(),
        keys[m] == key,
    ensures
        occurrences(keys, key) > 0,
    decreases keys.len(),
{
    if m < keys.len() - 1 {
        lemma_present(keys.drop_last(), key, m);
    }
}

/// The tests come in the order in which their keys are first listed.
pub proof fn law_listed_tests_keep_the_order(
    names: Seq<Seq<char>>,
    more: Seq<Seq<char>>,
    methods: Map<Seq<char>, MethodPlace>,
    classes: Map<Seq<char>, String>,
    i: int,
)
    requires
        0 <= i < listed_tests(names, methods, classes).len(),
    ensures
        i < listed_tests(names + more, methods, classes).len(),
        listed_tests(names + more, methods, classes)[i].filter_key == listed_tests(
            names,
            methods,
            classes,
        )[i].filter_key,
    decreases more.len(),
{
    if more.len() == 0 {
        assert(names + more =~= names);
    } else {
        let init = more.drop_last();
        law_listed_tests_keep_the_order(names, init, methods, classes, i);
        let keys = name_keys(names + more);
        assert(keys.drop_last() =~= name_keys(names + init));
    }
}

// ---------------------------------------------------------------------------
// Places in the tree
// ---------------------------------------------------------------------------
/// A test whose class was found stands in the tree below the folder of the
/// class; nothing of the namespace is left.
pub proof fn law_known_classes_place_their_tests(
    namespace: Seq<char>,
    class: Seq<char>,
    method: Seq<char>,
    methods: Map<Seq<char>, MethodPlace>,
    classes: Map<Seq<char>, String>,
)
    requires
        !class.contains('.'),
        !method.contains('.'),
        classes.dom().contains(class),
    ensures
        ({
            let path = enriched(namespace + "."@ + class + "."@ + method, methods, classes);
            let folder = classes[class]@;
            &&& folder.len() == 0 ==> path == class + "."@ + method
            &&& folder.len() > 0 ==> path == folder + "."@ + class + "."@ + method
            &&& enriched(class + "."@ + method, methods, classes) == path
        }),
{
    lemma_last_two(namespace, class, method);
}

proof fn lemma_last_two(namespace: Seq<char>, class: Seq<char>, method: Seq<char>)
    requires
        !class.contains('.'),
        !method.contains('.'),
    ensures
        ({
            let long = segments(namespace + "."@ + class + "."@ + method, '.');
            let short = segments(class + "."@ + method, '.');
            &&& long.len() >= 2 && short.len() >= 2
            &&& long.last() == method && short.last() == method
            &&& long[long.len() - 2] == class && short[short.len() - 2] == class
        }),
{
    reveal_strlit(".");
    assert("."@ =~= seq!['.']);
    law_plain_text_is_one_segment(class, '.');
    law_plain_text_is_one_segment(method, '.');
    law_segments_of_both(class, '.', method);
    law_segments_of_both(namespace, '.', class + "."@ + method);
    assert(namespace + "."@ + class + "."@ + method =~= namespace + "."@ + (class + "."@
        + method));
}

/// A test whose class is not known stands where its method was found; where that
/// is not known either, its name is its path.
pub proof fn law_known_methods_place_their_tests(
    namespace: Seq<char>,
    class: Seq<char>,
    method: Seq<char>,
    methods: Map<Seq<char>, MethodPlace>,
    classes: Map<Seq<char>, String>,
)
    requires
        !class.contains('.'),
        !method.contains('.'),
        !classes.dom().contains(class),
    ensures
        ({
            let name = namespace + "."@ + class + "."@ + method;
            let path = enriched(name, methods, classes);
            if methods.dom().contains(method) {
                let folder = methods[method].folder@;
                &&& folder.len() == 0 ==> path == methods[method].class@ + "."@ + method
                &&& folder.len() > 0 ==> path == folder + "."@ + methods[method].class@ + "."@
                    + method
            } else {
                path == name
            }
        }),
{
    lemma_last_two(namespace, class, method);
}

// ---------------------------------------------------------------------------
// Runs from the command line
// ---------------------------------------------------------------------------
/// One category after the other is left out, and the filter stays what it was:
/// it is put in brackets, so that no alternative of it escapes the categories.
pub proof fn law_categories_are_left_out(
    filter: Seq<char>,
    categories: Seq<Seq<char>>,
    category: Seq<char>,
)
    ensures
        filter.len() > 0 ==> composed_filter(Some(filter), seq![category]) == Some(
            "("@ + filter + ")&TestCategory!="@ + category,
        ),
        composed_filter(None, seq![category]) == Some("TestCategory!="@ + category),
        composed_filter(None, Seq::empty()) is None,
        filter.len() > 0 ==> composed_filter(Some(filter), Seq::empty()) == Some(filter),
        filter.len() == 0 ==> composed_filter(Some(filter), categories) == composed_filter(
            None,
            categories,
        ),
        categories.len() > 0 ==> {
            let more = categories.push(category);
            let end = "&TestCategory!="@ + category;
            &&& composed_filter(None, more) == Some(composed_filter(None, categories)->0 + end)
            &&& filter.len() > 0 ==> composed_filter(Some(filter), more) == Some(
                composed_filter(Some(filter), categories)->0 + end,
            )
        },
{
    reveal_strlit(")&TestCategory!=");
    reveal_strlit(")&");
    reveal_strlit("&TestCategory!=");
    reveal_strlit("&");
    reveal_strlit("TestCategory!=");
    let clause = |c: Seq<char>| "TestCategory!="@ + c;
    let one = seq![category].map_values(clause);
    assert(one =~= seq!["TestCategory!="@ + category]);
    assert(joined(one, "&"@) == "TestCategory!="@ + category);
    assert("("@ + filter + ")&"@ + ("TestCategory!="@ + category) =~= "("@ + filter
        + ")&TestCategory!="@ + category);
    if categories.len() > 0 {
        let more = categories.push(category);
        let all = more.map_values(clause);
        let end = "&TestCategory!="@ + category;
        assert(all.drop_last() =~= categories.map_values(clause));
        assert(all.last() == "TestCategory!="@ + category);
        let l = joined(categories.map_values(clause), "&"@);
        assert(joined(all, "&"@) == l + "&"@ + all.last());
        assert(l + "&"@ + all.last() =~= l + end);
        assert("("@ + filter + ")&"@ + (l + end) =~= "("@ + filter + ")&"@ + l + end);
    }
}

/// The filter stands right behind `--filter` if there is one, and the flag is
/// there exactly if it is asked for.
pub proof fn law_options_are_handed_on(o: RunOptionsView, categories: Seq<Seq<char>>)
    ensures
        ({
            let a = option_arguments(o, categories);
            let f = composed_filter(o.filter, categories);
            &&& a[0] == "test"@
            &&& f is Some ==> a.len() >= 3 && a[1] == "--filter"@ && a[2] == f->0
            &&& a.len() == 1 + (if f is Some {
                2int
            } else {
                0
            }) + (if o.no_build {
                1int
            } else {
                0
            })
            &&& o.no_build ==> a.last() == "--no-build"@
        }),
{
}

} // verus!
