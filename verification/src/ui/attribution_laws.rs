//! Which test a line of the output is taken to speak of.

use vstd::prelude::*;

use crate::domain::tree::NodeView;
use crate::seqs::{
    lemma_filter_begins, lemma_filter_keeps, lemma_filter_member, lemma_filter_next,
    lemma_filter_nothing, lemma_filter_single, lemma_filter_two,
};
use crate::text::{is_white_space, segments, trimmed};
use crate::text_laws::{
    law_first_segment_is_split_off, law_last_segment_stands_behind_the_last,
    law_plain_text_is_one_segment, law_trimming_finds_the_text,
};
use crate::ui::attribution::{
    first_open, has_leaf_named, is_label_match, is_leaf_named, is_suffix_match,
    law_homonyms_fill_up, lemma_key_among_is_member, resolved_key,
};
use crate::ui::failed_tests::name_key;
use crate::ui::leaf_results::LeafResultView;

verus! {

/// A name without parameters and without white space around it.
pub open spec fn is_bare_name(name: Seq<char>) -> bool {
    &&& name.len() > 0
    &&& !is_white_space(name[0])
    &&& !is_white_space(name.last())
    &&& !name.contains('(')
}

proof fn lemma_bare(name: Seq<char>)
    requires
        is_bare_name(name),
    ensures
        trimmed(name) == name,
{
    let none = Seq::<char>::empty();
    assert(none + name + none =~= name);
    law_trimming_finds_the_text(none, name, none);
}

/// The key of a reported name is the name without its parameters and without
/// the blanks before them.
pub proof fn law_parameters_are_dropped(name: Seq<char>, parameters: Seq<char>)
    requires
        is_bare_name(name),
    ensures
        name_key(name) == name,
        name_key(name + "("@ + parameters) == name,
        name_key(name + " ("@ + parameters) == name,
{
    reveal_strlit("(");
    reveal_strlit(" (");
    law_plain_text_is_one_segment(name, '(');
    lemma_bare(name);
    assert(name + "("@ + parameters =~= name + seq!['('] + parameters);
    law_first_segment_is_split_off(name, '(', parameters);
    let spaced = name + seq![' '];
    assert forall|i: int| 0 <= i < spaced.len() implies spaced[i] != '(' by {
        if i < name.len() {
            assert(name.contains(name[i]));
        }
    }
    assert(name + " ("@ + parameters =~= spaced + seq!['('] + parameters);
    law_first_segment_is_split_off(spaced, '(', parameters);
    let none = Seq::<char>::empty();
    assert(none + name + seq![' '] =~= spaced);
    law_trimming_finds_the_text(none, name, seq![' ']);
}

/// The last part of the key of a leaf, behind its last dot, is the name.
pub open spec fn has_short_name(n: NodeView, name: Seq<char>) -> bool {
    n.is_leaf && n.fqn is Some && segments(n.fqn->0, '.').last() == name
}

/// The key of a leaf is the name, or ends in it right behind a dot.
pub open spec fn ends_in_name(n: NodeView, name: Seq<char>) -> bool {
    n.is_leaf && n.fqn is Some && {
        let key = n.fqn->0;
        let at = key.len() - name.len();
        &&& at >= 0
        &&& forall|i: int| 0 <= i < name.len() ==> key[at + i] == #[trigger] name[i]
        &&& at > 0 ==> key[at - 1] == '.'
    }
}

proof fn lemma_suffix_match(n: NodeView, name: Seq<char>)
    ensures
        is_suffix_match(n, name) == ends_in_name(n, name),
        !name.contains('.') ==> is_suffix_match(n, name) == has_short_name(n, name),
{
    reveal_strlit(".");
    assert("."@ =~= seq!['.']);
    if n.fqn is Some {
        let key = n.fqn->0;
        let tail = "."@ + name;
        let at = key.len() - name.len();
        if !name.contains('.') {
            law_last_segment_stands_behind_the_last(key, '.', name);
        }
        if tail.is_suffix_of(key) {
            let end = key.subrange(key.len() - tail.len(), key.len() as int);
            assert(end == tail);
            assert(end[0] == '.');
            assert forall|i: int| 0 <= i < name.len() implies key[at + i] == #[trigger] name[i] by {
                assert(end[i + 1] == name[i]);
            }
        }
        if ends_in_name(n, name) {
            if at == 0 {
                assert forall|i: int| 0 <= i < name.len() implies key[i] == name[i] by {
                    assert(key[at + i] == name[i]);
                }
                assert(key =~= name);
            } else {
                let end = key.subrange(at - 1, key.len() as int);
                assert forall|i: int| 0 <= i < tail.len() implies end[i] == tail[i] by {
                    if i > 0 {
                        assert(key[at + (i - 1)] == name[i - 1]);
                    }
                }
                assert(end =~= tail);
            }
        }
    }
}

/// A name is attributed to a leaf whose key is the name or ends in it behind a
/// dot; only where no leaf has such a key, to one with this label.
pub proof fn law_lines_go_to_leaves_of_that_name(
    t: Seq<NodeView>,
    name: Seq<char>,
    existing: Map<Seq<char>, LeafResultView>,
) -> (i: int)
    requires
        is_bare_name(name),
        resolved_key(t, name, existing) is Some,
    ensures
        0 <= i < t.len(),
        t[i].is_leaf,
        t[i].fqn == resolved_key(t, name, existing),
        ends_in_name(t[i], name) || (t[i].label == name && forall|j: int|
            0 <= j < t.len() ==> !ends_in_name(#[trigger] t[j], name)),
        !name.contains('.') ==> has_short_name(t[i], name) || (t[i].label == name && forall|j: int|
            0 <= j < t.len() ==> !has_short_name(#[trigger] t[j], name)),
{
    law_parameters_are_dropped(name, Seq::empty());
    assert forall|j: int| 0 <= j < t.len() implies is_suffix_match(#[trigger] t[j], name)
        == ends_in_name(t[j], name) && (!name.contains('.') ==> is_suffix_match(t[j], name)
        == has_short_name(t[j], name)) by {
        lemma_suffix_match(t[j], name);
    }
    let suffix = |n: NodeView| is_suffix_match(n, name);
    let label = |n: NodeView| is_label_match(n, name);
    if has_leaf_named(t, name) {
        let i = choose|i: int| 0 <= i < t.len() && is_leaf_named(#[trigger] t[i], name);
        assert(is_suffix_match(t[i], name));
        i
    } else if t.filter(suffix).len() > 0 {
        let k = lemma_key_among_is_member(t.filter(suffix), existing);
        lemma_filter_member(t, suffix, k)
    } else {
        assert forall|j: int| 0 <= j < t.len() implies !ends_in_name(#[trigger] t[j], name) by {
            if is_suffix_match(t[j], name) {
                let k = lemma_filter_keeps(t, suffix, j);
            }
        }
        assert forall|j: int|
            !name.contains('.') && 0 <= j < t.len() implies !has_short_name(
            #[trigger] t[j],
            name,
        ) by {
            assert(!ends_in_name(t[j], name));
        }
        let k = lemma_key_among_is_member(t.filter(label), existing);
        lemma_filter_member(t, label, k)
    }
}

/// If exactly one leaf has a key that is the name or ends in it, it gets the
/// line, whatever is selected and whatever has an outcome.
pub proof fn law_the_only_leaf_of_that_name_gets_the_line(
    t: Seq<NodeView>,
    name: Seq<char>,
    existing: Map<Seq<char>, LeafResultView>,
    i: int,
)
    requires
        is_bare_name(name),
        0 <= i < t.len(),
        ends_in_name(t[i], name) || (!name.contains('.') && has_short_name(t[i], name)),
        forall|j: int| 0 <= j < t.len() && j != i ==> !ends_in_name(#[trigger] t[j], name),
    ensures
        resolved_key(t, name, existing) == t[i].fqn,
{
    law_parameters_are_dropped(name, Seq::empty());
    let suffix = |n: NodeView| is_suffix_match(n, name);
    assert forall|j: int| 0 <= j < t.len() implies suffix(#[trigger] t[j]) == ends_in_name(
        t[j],
        name,
    ) by {
        lemma_suffix_match(t[j], name);
    }
    lemma_suffix_match(t[i], name);
    if has_leaf_named(t, name) {
        let k = choose|k: int| 0 <= k < t.len() && is_leaf_named(#[trigger] t[k], name);
        assert(suffix(t[k]));
        assert(k == i);
    } else {
        lemma_filter_single(t, suffix, i);
    }
}

/// If no key is the name or ends in it and exactly one leaf is labelled so, that
/// one gets the line.
pub proof fn law_the_only_leaf_of_that_label_gets_the_line(
    t: Seq<NodeView>,
    name: Seq<char>,
    existing: Map<Seq<char>, LeafResultView>,
    i: int,
)
    requires
        is_bare_name(name),
        0 <= i < t.len(),
        t[i].is_leaf,
        t[i].label == name,
        forall|j: int| 0 <= j < t.len() ==> !ends_in_name(#[trigger] t[j], name),
        forall|j: int|
            0 <= j < t.len() && j != i && (#[trigger] t[j]).is_leaf ==> t[j].label != name,
    ensures
        resolved_key(t, name, existing) == t[i].fqn,
{
    law_parameters_are_dropped(name, Seq::empty());
    lemma_no_suffix(t, name);
    let label = |n: NodeView| is_label_match(n, name);
    lemma_filter_single(t, label, i);
}

proof fn lemma_no_suffix(t: Seq<NodeView>, name: Seq<char>)
    requires
        forall|j: int| 0 <= j < t.len() ==> !ends_in_name(#[trigger] t[j], name),
    ensures
        !has_leaf_named(t, name),
        t.filter(|n: NodeView| is_suffix_match(n, name)).len() == 0,
{
    let suffix = |n: NodeView| is_suffix_match(n, name);
    assert forall|j: int| 0 <= j < t.len() implies !suffix(#[trigger] t[j]) by {
        lemma_suffix_match(t[j], name);
        assert(!ends_in_name(t[j], name));
    }
    lemma_filter_nothing(t, suffix);
    if has_leaf_named(t, name) {
        let k = choose|k: int| 0 <= k < t.len() && is_leaf_named(#[trigger] t[k], name);
        assert(suffix(t[k]));
    }
}

/// A name that no leaf has, neither in its key nor as its label, is attributed
/// to none.
pub proof fn law_unknown_names_go_nowhere(
    t: Seq<NodeView>,
    name: Seq<char>,
    existing: Map<Seq<char>, LeafResultView>,
)
    requires
        is_bare_name(name),
        forall|j: int| 0 <= j < t.len() ==> !ends_in_name(#[trigger] t[j], name),
        forall|j: int| 0 <= j < t.len() && (#[trigger] t[j]).is_leaf ==> t[j].label != name,
    ensures
        resolved_key(t, name, existing) is None,
{
    law_parameters_are_dropped(name, Seq::empty());
    lemma_no_suffix(t, name);
    lemma_filter_nothing(t, |n: NodeView| is_label_match(n, name));
}

/// If several leaves share the name and exactly one of them is selected, that
/// one gets the line.
pub proof fn law_the_selected_leaf_of_that_name_gets_the_line(
    t: Seq<NodeView>,
    name: Seq<char>,
    existing: Map<Seq<char>, LeafResultView>,
    i: int,
)
    requires
        is_bare_name(name),
        0 <= i < t.len(),
        ends_in_name(t[i], name),
        t[i].is_selected,
        forall|j: int|
            0 <= j < t.len() && j != i && ends_in_name(#[trigger] t[j], name)
                ==> !t[j].is_selected,
        forall|j: int| 0 <= j < t.len() && (#[trigger] t[j]).is_leaf ==> t[j].fqn != Some(name),
    ensures
        resolved_key(t, name, existing) == t[i].fqn,
{
    law_parameters_are_dropped(name, Seq::empty());
    let suffix = |n: NodeView| is_suffix_match(n, name);
    let keep = |n: NodeView| n.is_selected;
    assert forall|j: int| 0 <= j < t.len() implies suffix(#[trigger] t[j]) == ends_in_name(
        t[j],
        name,
    ) by {
        lemma_suffix_match(t[j], name);
    }
    assert(!has_leaf_named(t, name));
    let c = t.filter(suffix);
    let k = lemma_filter_keeps(t, suffix, i);
    assert(c.len() > 0);
    if c.len() == 1 {
        assert(c[0] == t[i]);
    } else {
        let s = c.filter(keep);
        let a = lemma_filter_keeps(c, keep, k);
        if s.len() >= 2 {
            lemma_selected_are_distinct(t, suffix, keep, i);
        }
        assert(s.len() == 1);
        assert(s[0] == t[i]);
    }
}

proof fn lemma_selected_are_distinct(
    t: Seq<NodeView>,
    first: spec_fn(NodeView) -> bool,
    second: spec_fn(NodeView) -> bool,
    i: int,
)
    requires
        0 <= i < t.len(),
        first(t[i]) && second(t[i]),
        forall|j: int|
            0 <= j < t.len() && j != i && first(#[trigger] t[j]) ==> !second(t[j]),
    ensures
        t.filter(first).filter(second) == seq![t[i]],
    decreases t.len(),
{
    reveal(Seq::filter);
    let init = t.drop_last();
    if i < t.len() - 1 {
        assert forall|j: int| 0 <= j < init.len() && j != i && first(#[trigger] init[j]) implies
            !second(init[j]) by {
            assert(first(t[j]));
        }
        lemma_selected_are_distinct(init, first, second, i);
        if first(t.last()) {
            assert(!second(t[t.len() - 1]));
            assert(t.filter(first).drop_last() =~= init.filter(first));
        }
    } else {
        let c = init.filter(first);
        assert forall|k: int| 0 <= k < c.len() implies !second(#[trigger] c[k]) by {
            let j = lemma_filter_member(init, first, k);
            assert(first(t[j]));
        }
        lemma_filter_nothing(c, second);
        assert(t.filter(first).drop_last() =~= c);
        assert(t.filter(first).filter(second) =~= seq![t[i]]);
    }
}

/// If several leaves share the name and none of them is selected, none gets the
/// line.
pub proof fn law_unselected_leaves_of_one_name_get_nothing(
    t: Seq<NodeView>,
    name: Seq<char>,
    existing: Map<Seq<char>, LeafResultView>,
    i: int,
    j: int,
)
    requires
        is_bare_name(name),
        0 <= i < j < t.len(),
        ends_in_name(t[i], name),
        ends_in_name(t[j], name),
        forall|k: int| 0 <= k < t.len() && ends_in_name(#[trigger] t[k], name) ==> !t[k].is_selected,
        forall|k: int| 0 <= k < t.len() && (#[trigger] t[k]).is_leaf ==> t[k].fqn != Some(name),
    ensures
        resolved_key(t, name, existing) is None,
{
    law_parameters_are_dropped(name, Seq::empty());
    let suffix = |n: NodeView| is_suffix_match(n, name);
    let keep = |n: NodeView| n.is_selected;
    lemma_suffix_match(t[i], name);
    lemma_suffix_match(t[j], name);
    assert(!has_leaf_named(t, name));
    lemma_filter_two(t, suffix, i, j);
    let c = t.filter(suffix);
    assert forall|k: int| 0 <= k < c.len() implies !keep(#[trigger] c[k]) by {
        let m = lemma_filter_member(t, suffix, k);
        lemma_suffix_match(t[m], name);
        assert(ends_in_name(t[m], name));
    }
    lemma_filter_nothing(c, keep);
}

/// If several selected leaves share the name, the line goes to a selected one,
/// and to one without an outcome as long as there is one.
pub proof fn law_selected_leaves_of_one_name_take_turns(
    t: Seq<NodeView>,
    name: Seq<char>,
    existing: Map<Seq<char>, LeafResultView>,
    i: int,
    j: int,
) -> (k: int)
    requires
        is_bare_name(name),
        0 <= i < t.len(),
        0 <= j < t.len(),
        i != j,
        ends_in_name(t[i], name),
        ends_in_name(t[j], name),
        t[i].is_selected,
        !existing.dom().contains(t[i].fqn->0),
        forall|k: int| 0 <= k < t.len() && (#[trigger] t[k]).is_leaf ==> t[k].fqn != Some(name),
    ensures
        0 <= k < t.len(),
        ends_in_name(t[k], name),
        t[k].is_selected,
        resolved_key(t, name, existing) == t[k].fqn,
        !existing.dom().contains(t[k].fqn->0),
{
    law_parameters_are_dropped(name, Seq::empty());
    let suffix = |n: NodeView| is_suffix_match(n, name);
    let keep = |n: NodeView| n.is_selected;
    lemma_suffix_match(t[i], name);
    lemma_suffix_match(t[j], name);
    assert(!has_leaf_named(t, name));
    if i < j {
        lemma_filter_two(t, suffix, i, j);
    } else {
        lemma_filter_two(t, suffix, j, i);
    }
    let c = t.filter(suffix);
    let a = lemma_filter_keeps(t, suffix, i);
    let s = c.filter(keep);
    let b = lemma_filter_keeps(c, keep, a);
    law_homonyms_fill_up(c, existing, a);
    let m = lemma_key_among_is_member(c, existing);
    let k = lemma_filter_member(t, suffix, m);
    lemma_suffix_match(t[k], name);
    k
}

proof fn lemma_first_open_is_first(
    s: Seq<NodeView>,
    existing: Map<Seq<char>, LeafResultView>,
    k: int,
)
    requires
        0 <= k <= s.len(),
        forall|j: int|
            0 <= j < k ==> (#[trigger] s[j]).fqn is Some && existing.dom().contains(s[j].fqn->0),
        k < s.len() ==> s[k].fqn is Some && !existing.dom().contains(s[k].fqn->0),
    ensures
        first_open(s, existing) == if k < s.len() {
            Some(s[k])
        } else {
            None
        },
    decreases k,
{
    if k > 0 {
        assert(s[0].fqn is Some);
        let rest = s.drop_first();
        assert forall|j: int| 0 <= j < k - 1 implies (#[trigger] rest[j]).fqn is Some
            && existing.dom().contains(rest[j].fqn->0) by {
            assert(rest[j] == s[j + 1]);
        }
        lemma_first_open_is_first(rest, existing, k - 1);
    }
}

proof fn lemma_place_after_filtering<A>(s: Seq<A>, keep: spec_fn(A) -> bool, i: int) -> (k: int)
    requires
        0 <= i < s.len(),
        keep(s[i]),
    ensures
        0 <= k < s.filter(keep).len(),
        s.filter(keep)[k] == s[i],
        s.filter(keep).take(k) == s.take(i).filter(keep),
{
    let a = s.take(i).filter(keep);
    let b = s.take(i + 1).filter(keep);
    let c = s.filter(keep);
    lemma_filter_next(s, keep, i);
    lemma_filter_begins(s, keep, i + 1);
    assert(b == a.push(s[i]));
    assert(b == c.subrange(0, b.len() as int));
    assert(c[a.len() as int] == b[a.len() as int]);
    assert(c.take(a.len() as int) =~= a) by {
        assert forall|j: int| 0 <= j < a.len() implies c[j] == a[j] by {
            assert(c.subrange(0, b.len() as int)[j] == b[j]);
        }
    }
    a.len() as int
}

proof fn lemma_where_it_was(
    t: Seq<NodeView>,
    first: spec_fn(NodeView) -> bool,
    second: spec_fn(NodeView) -> bool,
    i: int,
    a: int,
    b: int,
    k: int,
) -> (j: int)
    requires
        0 <= i < t.len(),
        0 <= a < t.filter(first).len(),
        0 <= k < b < t.filter(first).filter(second).len(),
        t.filter(first).take(a) == t.take(i).filter(first),
        t.filter(first).filter(second).take(b) == t.filter(first).take(a).filter(second),
    ensures
        0 <= j < i,
        first(t[j]),
        second(t[j]),
        t[j] == t.filter(first).filter(second)[k],
{
    let c = t.filter(first);
    let s = c.filter(second);
    assert(s.take(b)[k] == s[k]);
    let m = lemma_filter_member(c.take(a), second, k);
    assert(c.take(a)[m] == s[k]);
    let j = lemma_filter_member(t.take(i), first, m);
    assert(t.take(i)[j] == t[j]);
    j
}

/// Of the selected leaves of one name, leaf `i` is the first without an outcome;
/// or all have one, and it is the first.
pub open spec fn is_next(
    t: Seq<NodeView>,
    name: Seq<char>,
    existing: Map<Seq<char>, LeafResultView>,
    i: int,
) -> bool {
    ||| !existing.dom().contains(t[i].fqn->0) && forall|k: int|
        0 <= k < i && ends_in_name(#[trigger] t[k], name) && t[k].is_selected
            ==> existing.dom().contains(t[k].fqn->0)
    ||| (forall|k: int|
        0 <= k < t.len() && ends_in_name(#[trigger] t[k], name) && t[k].is_selected
            ==> existing.dom().contains(t[k].fqn->0)) && forall|k: int|
        0 <= k < i && ends_in_name(#[trigger] t[k], name) ==> !t[k].is_selected
}

/// Among selected leaves of one name, the first in the tree without an outcome
/// gets the line; if all have one, the first.
pub proof fn law_leaves_of_one_name_take_turns_in_order(
    t: Seq<NodeView>,
    name: Seq<char>,
    existing: Map<Seq<char>, LeafResultView>,
    i: int,
)
    requires
        is_bare_name(name),
        0 <= i < t.len(),
        ends_in_name(t[i], name),
        t[i].is_selected,
        forall|k: int| 0 <= k < t.len() && (#[trigger] t[k]).is_leaf ==> t[k].fqn != Some(name),
        is_next(t, name, existing, i),
    ensures
        resolved_key(t, name, existing) == t[i].fqn,
{
    law_parameters_are_dropped(name, Seq::empty());
    let suffix = |n: NodeView| is_suffix_match(n, name);
    let keep = |n: NodeView| n.is_selected;
    assert forall|j: int| 0 <= j < t.len() implies suffix(#[trigger] t[j]) == ends_in_name(
        t[j],
        name,
    ) by {
        lemma_suffix_match(t[j], name);
    }
    assert(!has_leaf_named(t, name));
    let c = t.filter(suffix);
    let a = lemma_place_after_filtering(t, suffix, i);
    let s = c.filter(keep);
    let b = lemma_place_after_filtering(c, keep, a);
    assert(s.len() > 0);
    if !existing.dom().contains(t[i].fqn->0) {
        assert forall|k: int| 0 <= k < b implies (#[trigger] s[k]).fqn is Some
            && existing.dom().contains(s[k].fqn->0) by {
            let j = lemma_where_it_was(t, suffix, keep, i, a, b, k);
            assert(ends_in_name(t[j], name));
        }
        lemma_first_open_is_first(s, existing, b);
    } else {
        if b > 0 {
            let j = lemma_where_it_was(t, suffix, keep, i, a, b, 0);
            assert(ends_in_name(t[j], name));
        }
        assert(b == 0);
        assert forall|k: int| 0 <= k < s.len() implies (#[trigger] s[k]).fqn is Some
            && existing.dom().contains(s[k].fqn->0) by {
            let m = lemma_filter_member(c, keep, k);
            let j = lemma_filter_member(t, suffix, m);
            assert(ends_in_name(t[j], name));
        }
        lemma_first_open_is_first(s, existing, s.len() as int);
    }
    if c.len() == 1 {
        assert(a == 0);
    }
    if s.len() == 1 {
        assert(b == 0);
    }
}

} // verus!
