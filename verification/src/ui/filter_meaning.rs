//! What the filters that are handed to the test runner say of a test.
//!
//! A filter is read as the runner reads it: alternatives between bars, in each
//! of them conditions between ampersands, and each condition asks whether a
//! text occurs in the name of the test.

use vstd::prelude::*;
use vstd::utf8::encode_utf8;

use crate::domain::discovery::DiscoveredTestView;
use crate::domain::filter::filter_for_input;
use crate::domain::selection::{is_selected_leaf, lemma_selected_keys, same_shape, selected_keys};
use crate::domain::tree::{
    flat_tree, law_flat_tree_is_in_pre_order, law_only_leaves_have_keys, row_in_order, NodeView,
};
use crate::order::{
    ascending, ascending_list, law_ascending_lists_hold_each_once, lemma_ascending_list,
};
use crate::text::{has_text, joined, occurs_at, segments};
use crate::text_laws::{law_plain_text_is_one_segment, law_splitting_undoes_joining};
use crate::ui::failed_tests::{name_clauses, name_key, names_filter};
use crate::ui::filter::{
    all_selected_in, exclude_filter, exclude_patterns, excludes, include_filter, include_patterns,
    lemma_exclude_from, lemma_exclude_has, lemma_include_from, lemma_include_has, pattern,
    run_request, selection_filter,
};

verus! {

/// One condition: `FullyQualifiedName~p` holds of the names in which `p` occurs,
/// `FullyQualifiedName!~p` of the others.
pub open spec fn condition_holds(condition: Seq<char>, name: Seq<char>) -> bool {
    if "FullyQualifiedName!~"@.is_prefix_of(condition) {
        !has_text(name, condition.skip("FullyQualifiedName!~"@.len() as int))
    } else {
        "FullyQualifiedName~"@.is_prefix_of(condition) && has_text(
            name,
            condition.skip("FullyQualifiedName~"@.len() as int),
        )
    }
}

/// All conditions of an alternative hold.
pub open spec fn alternative_holds(alternative: Seq<char>, name: Seq<char>) -> bool {
    forall|i: int|
        0 <= i < segments(alternative, '&').len() ==> condition_holds(
            #[trigger] segments(alternative, '&')[i],
            name,
        )
}

/// The runner runs the test of this name under the filter: one of the
/// alternatives holds. An empty filter is none.
pub open spec fn runs(filter: Seq<char>, name: Seq<char>) -> bool {
    filter.len() == 0 || exists|i: int|
        0 <= i < segments(filter, '|').len() && alternative_holds(
            #[trigger] segments(filter, '|')[i],
            name,
        )
}

/// The filter says what is not to run.
pub open spec fn is_exclusion(filter: Seq<char>) -> bool {
    "FullyQualifiedName!~"@.is_prefix_of(filter)
}

/// A text that can stand in a condition: it holds no operator.
pub open spec fn is_operand(s: Seq<char>) -> bool {
    !s.contains('|') && !s.contains('&')
}

proof fn lemma_text_holds_itself(s: Seq<char>)
    ensures
        has_text(s, s),
{
    assert(s.subrange(0, s.len() as int) =~= s);
    assert(occurs_at(s, s, 0));
}

proof fn lemma_condition(p: Seq<char>, name: Seq<char>)
    requires
        is_operand(p),
    ensures
        ({
            let wanted = "FullyQualifiedName~"@ + p;
            let unwanted = "FullyQualifiedName!~"@ + p;
            &&& wanted.len() > 0 && is_operand(wanted)
            &&& unwanted.len() > 0 && is_operand(unwanted)
            &&& condition_holds(wanted, name) <==> has_text(name, p)
            &&& condition_holds(unwanted, name) <==> !has_text(name, p)
        }),
{
    reveal_strlit("FullyQualifiedName~");
    reveal_strlit("FullyQualifiedName!~");
    let yes = "FullyQualifiedName~"@;
    let no = "FullyQualifiedName!~"@;
    let wanted = yes + p;
    let unwanted = no + p;
    assert(wanted.skip(yes.len() as int) =~= p);
    assert(unwanted.skip(no.len() as int) =~= p);
    assert(wanted.subrange(0, yes.len() as int) =~= yes);
    assert(unwanted.subrange(0, no.len() as int) =~= no);
    assert(wanted[18] == '~' && no[18] == '!');
    if no.is_prefix_of(wanted) {
        assert(wanted.subrange(0, no.len() as int)[18] == no[18]);
    }
    assert forall|i: int| 0 <= i < wanted.len() implies wanted[i] != '|' && wanted[i] != '&' by {
        if i >= yes.len() {
            assert(p.contains(p[i - yes.len()]));
        }
    }
    assert forall|i: int| 0 <= i < unwanted.len() implies unwanted[i] != '|' && unwanted[i]
        != '&' by {
        if i >= no.len() {
            assert(p.contains(p[i - no.len()]));
        }
    }
}

proof fn lemma_first_part_is_there(parts: Seq<Seq<char>>, sep: Seq<char>)
    requires
        parts.len() > 0,
    ensures
        joined(parts, sep).len() >= parts[0].len(),
        forall|i: int| 0 <= i < parts[0].len() ==> joined(parts, sep)[i] == parts[0][i],
    decreases parts.len(),
{
    if parts.len() > 1 {
        assert(parts.drop_last()[0] == parts[0]);
        lemma_first_part_is_there(parts.drop_last(), sep);
    }
}

proof fn lemma_beginnings(text: Seq<char>, p: Seq<char>)
    ensures
        ({
            let wanted = "FullyQualifiedName~"@ + p;
            let unwanted = "FullyQualifiedName!~"@ + p;
            &&& text.len() >= wanted.len() && (forall|i: int|
                0 <= i < wanted.len() ==> text[i] == wanted[i]) ==> !is_exclusion(text)
            &&& text.len() >= unwanted.len() && (forall|i: int|
                0 <= i < unwanted.len() ==> text[i] == unwanted[i]) ==> is_exclusion(text)
        }),
{
    reveal_strlit("FullyQualifiedName~");
    reveal_strlit("FullyQualifiedName!~");
    let no = "FullyQualifiedName!~"@;
    let wanted = "FullyQualifiedName~"@ + p;
    let unwanted = no + p;
    if text.len() >= wanted.len() && (forall|i: int|
        0 <= i < wanted.len() ==> text[i] == wanted[i]) && is_exclusion(text) {
        assert(text.subrange(0, no.len() as int)[18] == no[18]);
        assert(text[18] == wanted[18]);
        assert(false);
    }
    if text.len() >= unwanted.len() && (forall|i: int|
        0 <= i < unwanted.len() ==> text[i] == unwanted[i]) {
        assert forall|i: int| 0 <= i < no.len() implies text.subrange(
            0,
            no.len() as int,
        )[i] == no[i] by {
            assert(text[i] == unwanted[i]);
        }
        assert(text.subrange(0, no.len() as int) =~= no);
    }
}

/// Conditions with bars between them let a name run that one of the patterns
/// occurs in.
proof fn lemma_bars(patterns: Seq<Seq<char>>, conditions: Seq<Seq<char>>, name: Seq<char>)
    requires
        patterns.len() > 0,
        conditions.len() == patterns.len(),
        forall|i: int| 0 <= i < patterns.len() ==> is_operand(#[trigger] patterns[i]),
        forall|i: int|
            0 <= i < patterns.len() ==> #[trigger] conditions[i] == "FullyQualifiedName~"@
                + patterns[i],
    ensures
        joined(conditions, "|"@).len() > 0,
        !is_exclusion(joined(conditions, "|"@)),
        runs(joined(conditions, "|"@), name) <==> exists|i: int|
            0 <= i < patterns.len() && has_text(name, #[trigger] patterns[i]),
{
    reveal_strlit("|");
    assert("|"@ =~= seq!['|']);
    let text = joined(conditions, "|"@);
    assert forall|i: int| 0 <= i < conditions.len() implies !(#[trigger] conditions[i]).contains(
        '|',
    ) by {
        lemma_condition(patterns[i], name);
    }
    law_splitting_undoes_joining(conditions, '|');
    assert(segments(text, '|') == conditions);
    lemma_condition(patterns[0], name);
    lemma_first_part_is_there(conditions, "|"@);
    lemma_beginnings(text, patterns[0]);
    assert forall|i: int| 0 <= i < conditions.len() implies alternative_holds(
        #[trigger] conditions[i],
        name,
    ) == has_text(name, patterns[i]) by {
        lemma_condition(patterns[i], name);
        law_plain_text_is_one_segment(conditions[i], '&');
        let only = segments(conditions[i], '&');
        assert(only[0] == conditions[i]);
        if alternative_holds(conditions[i], name) {
            assert(condition_holds(only[0], name));
        }
    }
    if runs(text, name) {
        let i = choose|i: int|
            0 <= i < segments(text, '|').len() && alternative_holds(
                #[trigger] segments(text, '|')[i],
                name,
            );
        assert(alternative_holds(conditions[i], name));
        assert(has_text(name, patterns[i]));
    }
    if exists|i: int| 0 <= i < patterns.len() && has_text(name, #[trigger] patterns[i]) {
        let i = choose|i: int| 0 <= i < patterns.len() && has_text(name, #[trigger] patterns[i]);
        assert(alternative_holds(conditions[i], name));
        assert(alternative_holds(segments(text, '|')[i], name));
    }
}

/// Conditions against patterns with ampersands between them let a name run that
/// none of the patterns occurs in.
proof fn lemma_ampersands(patterns: Seq<Seq<char>>, conditions: Seq<Seq<char>>, name: Seq<char>)
    requires
        patterns.len() > 0,
        conditions.len() == patterns.len(),
        forall|i: int| 0 <= i < patterns.len() ==> is_operand(#[trigger] patterns[i]),
        forall|i: int|
            0 <= i < patterns.len() ==> #[trigger] conditions[i] == "FullyQualifiedName!~"@
                + patterns[i],
    ensures
        joined(conditions, "&"@).len() > 0,
        is_exclusion(joined(conditions, "&"@)),
        runs(joined(conditions, "&"@), name) <==> forall|i: int|
            0 <= i < patterns.len() ==> !has_text(name, #[trigger] patterns[i]),
{
    reveal_strlit("&");
    assert("&"@ =~= seq!['&']);
    let text = joined(conditions, "&"@);
    assert forall|i: int| 0 <= i < conditions.len() implies is_operand(
        #[trigger] conditions[i],
    ) by {
        lemma_condition(patterns[i], name);
    }
    law_splitting_undoes_joining(conditions, '&');
    assert(segments(text, '&') == conditions);
    lemma_condition(patterns[0], name);
    lemma_first_part_is_there(conditions, "&"@);
    lemma_beginnings(text, patterns[0]);
    lemma_no_bar(conditions, "&"@);
    law_plain_text_is_one_segment(text, '|');
    assert(segments(text, '|')[0] == text);
    assert forall|i: int| 0 <= i < conditions.len() implies condition_holds(
        #[trigger] conditions[i],
        name,
    ) == !has_text(name, patterns[i]) by {
        lemma_condition(patterns[i], name);
    }
    if runs(text, name) {
        assert(alternative_holds(text, name));
        assert forall|i: int| 0 <= i < patterns.len() implies !has_text(
            name,
            #[trigger] patterns[i],
        ) by {
            assert(condition_holds(segments(text, '&')[i], name));
            assert(condition_holds(conditions[i], name));
        }
    }
    if forall|i: int| 0 <= i < patterns.len() ==> !has_text(name, #[trigger] patterns[i]) {
        assert forall|i: int| 0 <= i < segments(text, '&').len() implies condition_holds(
            #[trigger] segments(text, '&')[i],
            name,
        ) by {
            assert(!has_text(name, patterns[i]));
            assert(condition_holds(conditions[i], name));
        }
        assert(alternative_holds(segments(text, '|')[0], name));
    }
}

proof fn lemma_no_bar(parts: Seq<Seq<char>>, sep: Seq<char>)
    requires
        !sep.contains('|'),
        forall|i: int| 0 <= i < parts.len() ==> is_operand(#[trigger] parts[i]),
    ensures
        !joined(parts, sep).contains('|'),
    decreases parts.len(),
{
    if parts.len() == 1 {
        assert(is_operand(parts[0]));
    } else if parts.len() > 1 {
        let init = parts.drop_last();
        assert forall|i: int| 0 <= i < init.len() implies is_operand(#[trigger] init[i]) by {
            assert(init[i] == parts[i]);
        }
        lemma_no_bar(init, sep);
        assert(is_operand(parts[parts.len() - 1]));
        let a = joined(init, sep);
        let all = a + sep + parts.last();
        assert forall|i: int| 0 <= i < all.len() implies all[i] != '|' by {
            if i < a.len() {
                assert(a.contains(a[i]));
            } else if i < a.len() + sep.len() {
                assert(sep.contains(sep[i - a.len()]));
            } else {
                let k = i - a.len() - sep.len();
                assert(parts.last().contains(parts.last()[k]));
            }
        }
    }
}

// ---------------------------------------------------------------------------
// The filter for what is checked in the tree
// ---------------------------------------------------------------------------
/// No key in the tree holds an operator of filters.
pub open spec fn keys_are_operands(t: Seq<NodeView>) -> bool {
    forall|i: int|
        0 <= i < t.len() && (#[trigger] t[i]).fqn is Some ==> is_operand(t[i].fqn->0)
}

/// The key of a row that is checked, or of the checked folder that it stands
/// for, occurs in the name.
pub open spec fn names_it(n: NodeView, name: Seq<char>) -> bool {
    n.is_selected && n.fqn is Some && if n.is_leaf {
        has_text(name, n.fqn->0)
    } else {
        has_text(name, n.fqn->0 + "."@) || (n.fqn->0.len() > 0 && n.fqn->0.last() == '.'
            && has_text(name, n.fqn->0))
    }
}

/// Row `i` is checked and has a key, and no checked folder with a key stands
/// right above it.
pub open spec fn speaks_for_itself(t: Seq<NodeView>, i: int) -> bool {
    &&& 0 <= i < t.len()
    &&& t[i].is_selected
    &&& t[i].fqn is Some
    &&& t[i].parent_idx matches Some(p) ==> !t[p].is_selected || t[p].fqn is None
}

proof fn lemma_inclusion(t: Seq<NodeView>, name: Seq<char>, i: int)
    requires
        keys_are_operands(t),
        speaks_for_itself(t, i),
    ensures
        ({
            let text = include_filter(include_patterns(t, t.len() as int));
            &&& text.len() > 0
            &&& !is_exclusion(text)
            &&& runs(text, name) ==> exists|k: int|
                0 <= k < t.len() && names_it(#[trigger] t[k], name)
            &&& has_text(name, pattern(t[i])) ==> runs(text, name)
        }),
{
    let n = t.len() as int;
    let patterns = include_patterns(t, n);
    let conditions = patterns.map_values(|p: Seq<char>| "FullyQualifiedName~"@ + p);
    lemma_include_has(t, i, n);
    let at = choose|k: int| 0 <= k < patterns.len() && patterns[k] == pattern(t[i]);
    assert(patterns[at] == pattern(t[i]));
    reveal_strlit(".");
    assert forall|k: int| 0 <= k < patterns.len() implies is_operand(#[trigger] patterns[k]) by {
        let j = lemma_include_from(t, n, k);
        let key = t[j].fqn->0;
        assert(is_operand(key));
        let p = patterns[k];
        assert forall|c: int| 0 <= c < p.len() implies p[c] != '|' && p[c] != '&' by {
            if c < key.len() {
                assert(key.contains(key[c]));
            }
        }
    }
    lemma_bars(patterns, conditions, name);
    if runs(joined(conditions, "|"@), name) {
        let k = choose|k: int| 0 <= k < patterns.len() && has_text(name, #[trigger] patterns[k]);
        let j = lemma_include_from(t, n, k);
        assert(names_it(t[j], name));
    }
}

proof fn lemma_exclusion(t: Seq<NodeView>, name: Seq<char>)
    requires
        keys_are_operands(t),
        exclude_filter(exclude_patterns(t, t.len() as int)).len() > 0,
    ensures
        ({
            let text = exclude_filter(exclude_patterns(t, t.len() as int));
            &&& is_exclusion(text)
            &&& runs(text, name) <==> forall|j: int|
                0 <= j < t.len() && (#[trigger] t[j]).is_leaf && !t[j].is_selected && t[j].fqn
                    is Some ==> !has_text(name, t[j].fqn->0)
        }),
{
    let n = t.len() as int;
    let patterns = exclude_patterns(t, n);
    let conditions = patterns.map_values(|p: Seq<char>| "FullyQualifiedName!~"@ + p);
    assert forall|k: int| 0 <= k < patterns.len() implies is_operand(#[trigger] patterns[k]) by {
        let j = lemma_exclude_from(t, n, k);
        assert(is_operand(t[j].fqn->0));
    }
    lemma_ampersands(patterns, conditions, name);
    let text = joined(conditions, "&"@);
    if runs(text, name) {
        assert forall|j: int|
            0 <= j < t.len() && (#[trigger] t[j]).is_leaf && !t[j].is_selected && t[j].fqn
                is Some implies !has_text(name, t[j].fqn->0) by {
            lemma_exclude_has(t, j, n);
            let k = choose|k: int| 0 <= k < patterns.len() && patterns[k] == t[j].fqn->0;
            assert(!has_text(name, patterns[k]));
        }
    } else {
        let k = choose|k: int| 0 <= k < patterns.len() && has_text(name, #[trigger] patterns[k]);
        let j = lemma_exclude_from(t, n, k);
        assert(has_text(name, t[j].fqn->0));
    }
}

/// There is a filter exactly if a test is checked, and it is empty, so that
/// everything runs, if all tests are.
pub proof fn law_filter_is_there(t: Seq<NodeView>)
    ensures
        selection_filter(t) is Some <==> exists|i: int|
            0 <= i < t.len() && (#[trigger] t[i]).is_leaf && t[i].is_selected,
        (forall|i: int| 0 <= i < t.len() && (#[trigger] t[i]).is_leaf ==> t[i].is_selected)
            && selection_filter(t) is Some ==> selection_filter(t)->0.len() == 0,
{
    if selection_filter(t) is Some {
        let i = choose|i: int| 0 <= i < t.len() && is_selected_leaf(#[trigger] t[i]);
        assert(t[i].is_leaf && t[i].is_selected);
    }
    if exists|i: int| 0 <= i < t.len() && (#[trigger] t[i]).is_leaf && t[i].is_selected {
        let i = choose|i: int| 0 <= i < t.len() && (#[trigger] t[i]).is_leaf && t[i].is_selected;
        assert(is_selected_leaf(t[i]));
    }
}

/// The text that the runner gets lets every checked test run. Where it says what
/// is not to run, the key of no unchecked test may occur in that of the test.
pub proof fn law_filter_runs_checked_tests(t: Seq<NodeView>, i: int)
    requires
        keys_are_operands(t),
        speaks_for_itself(t, i),
        t[i].is_leaf,
        is_exclusion(selection_filter(t)->0) ==> forall|j: int|
            0 <= j < t.len() && (#[trigger] t[j]).is_leaf && !t[j].is_selected && t[j].fqn is Some
                ==> !has_text(t[i].fqn->0, t[j].fqn->0),
    ensures
        selection_filter(t) is Some,
        runs(selection_filter(t)->0, t[i].fqn->0),
{
    assert(is_selected_leaf(t[i]));
    let key = t[i].fqn->0;
    lemma_text_holds_itself(key);
    lemma_inclusion(t, key, i);
    if excludes(t) {
        lemma_exclusion(t, key);
    }
}

/// The text that the runner gets stops unchecked tests: all of them where it
/// says what is not to run, and else all whose key holds the key of nothing
/// that is checked. With an unchecked test in the tree it is never empty.
pub proof fn law_filter_stops_unchecked_tests(t: Seq<NodeView>, i: int, j: int)
    requires
        keys_are_operands(t),
        speaks_for_itself(t, i),
        t[i].is_leaf,
        0 <= j < t.len(),
        t[j].is_leaf,
        !t[j].is_selected,
        t[j].fqn is Some,
    ensures
        selection_filter(t)->0.len() > 0,
        is_exclusion(selection_filter(t)->0) ==> !runs(selection_filter(t)->0, t[j].fqn->0),
        runs(selection_filter(t)->0, t[j].fqn->0) ==> exists|k: int|
            0 <= k < t.len() && names_it(#[trigger] t[k], t[j].fqn->0),
{
    assert(is_selected_leaf(t[i]));
    let key = t[j].fqn->0;
    lemma_text_holds_itself(key);
    lemma_inclusion(t, key, i);
    if excludes(t) {
        lemma_exclusion(t, key);
    }
}

/// A checked folder with a key lets run what lies below it, name by name.
pub proof fn law_filter_runs_below_checked_folders(t: Seq<NodeView>, i: int, rest: Seq<char>)
    requires
        keys_are_operands(t),
        speaks_for_itself(t, i),
        !t[i].is_leaf,
        selection_filter(t) is Some,
        !is_exclusion(selection_filter(t)->0),
    ensures
        runs(selection_filter(t)->0, t[i].fqn->0 + "."@ + rest),
{
    let key = t[i].fqn->0;
    let name = key + "."@ + rest;
    let p = pattern(t[i]);
    assert(name.subrange(0, p.len() as int) =~= p);
    assert(occurs_at(name, p, 0));
    lemma_inclusion(t, name, i);
    if excludes(t) {
        lemma_exclusion(t, name);
    }
}

/// In a tree made from tests, whatever is checked in it, the text that the
/// runner gets lets every checked test run.
pub proof fn law_checked_tests_of_a_tree_run(
    tests: Seq<DiscoveredTestView>,
    t: Seq<NodeView>,
    i: int,
)
    requires
        same_shape(flat_tree(tests), t),
        keys_are_operands(t),
        0 <= i < t.len(),
        t[i].is_leaf,
        t[i].is_selected,
        is_exclusion(selection_filter(t)->0) ==> forall|j: int|
            0 <= j < t.len() && (#[trigger] t[j]).is_leaf && !t[j].is_selected && t[j].fqn is Some
                ==> !has_text(t[i].fqn->0, t[j].fqn->0),
    ensures
        t[i].fqn is Some,
        selection_filter(t) is Some,
        runs(selection_filter(t)->0, t[i].fqn->0),
{
    lemma_leaves_speak_for_themselves(tests, t, i);
    law_filter_runs_checked_tests(t, i);
}

proof fn lemma_leaves_speak_for_themselves(
    tests: Seq<DiscoveredTestView>,
    t: Seq<NodeView>,
    i: int,
)
    requires
        same_shape(flat_tree(tests), t),
        0 <= i < t.len(),
        t[i].is_leaf,
        t[i].is_selected,
    ensures
        speaks_for_itself(t, i),
{
    let f = flat_tree(tests);
    assert(f[i].fqn == t[i].fqn && f[i].is_leaf == t[i].is_leaf);
    assert(f[i].parent_idx == t[i].parent_idx);
    law_only_leaves_have_keys(tests, i);
    law_flat_tree_is_in_pre_order(tests);
    if let Some(p) = t[i].parent_idx {
        assert(row_in_order(f, i));
        law_only_leaves_have_keys(tests, p);
        assert(f[p].fqn == t[p].fqn);
    }
}

/// Of the two ways to say what is to run, naming it or naming the rest, the
/// shorter text is taken.
pub proof fn law_filter_is_the_shorter_text(t: Seq<NodeView>)
    requires
        selection_filter(t) is Some,
        encode_utf8(include_filter(include_patterns(t, t.len() as int))).len() <= usize::MAX,
        encode_utf8(exclude_filter(exclude_patterns(t, t.len() as int))).len() <= usize::MAX,
    ensures
        ({
            let text = encode_utf8(selection_filter(t)->0);
            let wanted = encode_utf8(include_filter(include_patterns(t, t.len() as int)));
            let unwanted = exclude_filter(exclude_patterns(t, t.len() as int));
            &&& text.len() <= wanted.len()
            &&& unwanted.len() > 0 ==> text.len() <= encode_utf8(unwanted).len()
            &&& wanted.len() <= encode_utf8(unwanted).len() ==> text.len() == wanted.len()
                || text.len() == 0
        }),
{
    assert(encode_utf8(Seq::<char>::empty()).len() == 0);
}

// ---------------------------------------------------------------------------
// Filters by names
// ---------------------------------------------------------------------------
/// A filter by names runs exactly the tests whose names hold one of the keys.
pub proof fn law_names_filter_runs_the_named(names: Seq<Seq<char>>, name: Seq<char>)
    requires
        names.len() > 0,
        forall|i: int| 0 <= i < names.len() ==> is_operand(name_key(#[trigger] names[i])),
    ensures
        names_filter(names).len() > 0,
        runs(names_filter(names), name) <==> exists|i: int|
            0 <= i < names.len() && has_text(name, name_key(#[trigger] names[i])),
{
    let keys = names.map_values(|n: Seq<char>| name_key(n));
    assert forall|i: int| 0 <= i < keys.len() implies is_operand(#[trigger] keys[i]) by {
        assert(is_operand(name_key(names[i])));
    }
    lemma_bars(keys, name_clauses(names), name);
    if exists|i: int| 0 <= i < names.len() && has_text(name, name_key(#[trigger] names[i])) {
        let i = choose|i: int|
            0 <= i < names.len() && has_text(name, name_key(#[trigger] names[i]));
        assert(has_text(name, keys[i]));
    }
    if exists|i: int| 0 <= i < keys.len() && has_text(name, #[trigger] keys[i]) {
        let i = choose|i: int| 0 <= i < keys.len() && has_text(name, #[trigger] keys[i]);
        assert(has_text(name, name_key(names[i])));
    }
}

/// A word that is typed as a filter runs exactly the tests whose names hold it.
pub proof fn law_typed_words_run_what_holds_them(word: Seq<char>, name: Seq<char>)
    requires
        word.len() > 0,
        is_operand(word),
        !word.contains('='),
        !word.contains('~'),
    ensures
        filter_for_input(Some(word)) is Some,
        runs(filter_for_input(Some(word))->0, name) <==> has_text(name, word),
{
    let patterns = seq![word];
    let conditions = seq!["FullyQualifiedName~"@ + word];
    lemma_bars(patterns, conditions, name);
    assert(joined(conditions, "|"@) == conditions[0]);
    assert(patterns[0] == word);
}

/// A request names exactly the checked tests, each once and in order, and is
/// made exactly if a test with a key is checked.
pub proof fn law_request_names_the_checked_tests(t: Seq<NodeView>, key: Seq<char>)
    ensures
        run_request(t) is Some <==> exists|i: int|
            0 <= i < t.len() && (#[trigger] t[i]).is_leaf && t[i].is_selected && t[i].fqn is Some,
        run_request(t) matches Some(r) ==> {
            &&& r.test_names.no_duplicates()
            &&& ascending(r.test_names)
            &&& r.test_names.contains(key) <==> exists|i: int|
                0 <= i < t.len() && (#[trigger] t[i]).is_leaf && t[i].is_selected && t[i].fqn
                    == Some(key)
            &&& r.sidecar_filter == names_filter(r.test_names)
            &&& Some(r.filter) == selection_filter(t)
        },
{
    let n = t.len() as int;
    let keys = selected_keys(t, n);
    lemma_selected_keys(t, n, key);
    lemma_ascending_list(keys);
    law_ascending_lists_hold_each_once(ascending_list(keys));
    if exists|i: int|
        0 <= i < t.len() && (#[trigger] t[i]).is_leaf && t[i].is_selected && t[i].fqn is Some {
        let i = choose|i: int|
            0 <= i < t.len() && (#[trigger] t[i]).is_leaf && t[i].is_selected && t[i].fqn is Some;
        assert(is_selected_leaf(t[i]));
        lemma_selected_keys(t, n, t[i].fqn->0);
        assert(keys.contains(t[i].fqn->0));
    }
    if keys.len() > 0 {
        lemma_selected_keys(t, n, keys[0]);
        assert(keys.contains(keys[0]));
        let i = choose|i: int|
            0 <= i < n && is_selected_leaf(#[trigger] t[i]) && t[i].fqn == Some(keys[0]);
        assert(t[i].is_leaf && t[i].is_selected && t[i].fqn is Some);
    }
    if keys.contains(key) {
        let i = choose|i: int|
            0 <= i < n && is_selected_leaf(#[trigger] t[i]) && t[i].fqn == Some(key);
        assert(t[i].is_leaf && t[i].is_selected && t[i].fqn == Some(key));
    }
    if exists|i: int|
        0 <= i < t.len() && (#[trigger] t[i]).is_leaf && t[i].is_selected && t[i].fqn
            == Some(key) {
        let i = choose|i: int|
            0 <= i < t.len() && (#[trigger] t[i]).is_leaf && t[i].is_selected && t[i].fqn == Some(
                key,
            );
        assert(is_selected_leaf(t[i]));
    }
}

/// The request runs in the one project of all checked tests, and in none where
/// they lie in several or one lies in none.
pub proof fn law_request_keeps_a_shared_project(t: Seq<NodeView>, project: Seq<char>)
    requires
        run_request(t) is Some,
    ensures
        run_request(t)->0.target_path == Some(project) <==> forall|i: int|
            0 <= i < t.len() && (#[trigger] t[i]).is_leaf && t[i].is_selected ==> t[i].target_path
                == Some(project),
{
    let i = choose|i: int| 0 <= i < t.len() && is_selected_leaf(#[trigger] t[i]);
    assert(is_selected_leaf(t[i]));
    if forall|i: int|
        0 <= i < t.len() && (#[trigger] t[i]).is_leaf && t[i].is_selected ==> t[i].target_path
            == Some(project) {
        assert(all_selected_in(t, project));
        let p = choose|p: Seq<char>| all_selected_in(t, p);
        assert(t[i].target_path == Some(p));
    }
    if run_request(t)->0.target_path == Some(project) {
        assert(all_selected_in(t, project));
        assert forall|k: int|
            0 <= k < t.len() && (#[trigger] t[k]).is_leaf && t[k].is_selected implies t[k].target_path
            == Some(project) by {
            assert(is_selected_leaf(t[k]));
        }
    }
}

} // verus!
