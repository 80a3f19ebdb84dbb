//! Searching the tree: by substring, or by the beginnings of words.

use vstd::prelude::*;

use crate::domain::ancestry::{
    flag_upwards, is_ancestor, is_unfolded, lemma_ancestor_smaller, lemma_ancestor_transitive,
    reaches_up_to, unfolded,
};
use crate::domain::tree::{parents_precede, rows, NodeView, TreeNode};
use crate::seqs::positions;
use crate::text::{ascii_lower, ascii_lowered, chars_of, contains, has_text, to_ascii_lower};
use crate::unicode::{is_letter_or_number, is_number, is_upper, lowercase, to_lowercase};

verus! {

// ---------------------------------------------------------------------------
// Words
// ---------------------------------------------------------------------------
/// What decides where words begin.
#[derive(Clone, Copy, Debug, PartialEq, Eq, Structural)]
pub struct CharClass {
    pub upper: bool,
    pub numeric: bool,
    pub alphanumeric: bool,
}

pub open spec fn class_of(c: char) -> CharClass {
    CharClass { upper: is_upper(c), numeric: is_number(c), alphanumeric: is_letter_or_number(c) }
}

pub fn classify(c: char) -> (r: CharClass)
    ensures
        r == class_of(c),
{
    CharClass {
        upper: c.is_uppercase(),
        numeric: c.is_numeric(),
        alphanumeric: c.is_alphanumeric(),
    }
}

/// A word begins with a capital after something else, with a digit after
/// something else, and after anything that is no letter and no digit.
pub open spec fn begins_word(c: CharClass, prev_char: char, prev: CharClass) -> bool {
    ||| c.upper && !prev.upper
    ||| c.numeric && !prev.numeric
    ||| prev_char == '_'
    ||| prev_char == '.'
    ||| !prev.alphanumeric
}

pub fn begins_word_after(c: CharClass, prev_char: char, prev: CharClass) -> (r: bool)
    ensures
        r == begins_word(c, prev_char, prev),
{
    (c.upper && !prev.upper) || (c.numeric && !prev.numeric) || prev_char == '_' || prev_char == '.'
        || !prev.alphanumeric
}

/// `c` begins a word where `prev` stands before it, or nothing.
pub open spec fn word_boundary(c: char, prev: Option<char>) -> bool {
    match prev {
        None => true,
        Some(p) => begins_word(class_of(c), p, class_of(p)),
    }
}

pub fn is_word_boundary(c: char, prev: Option<char>) -> (r: bool)
    ensures
        r == word_boundary(c, prev),
{
    match prev {
        None => true,
        Some(p) => begins_word_after(classify(c), p, classify(p)),
    }
}

/// A word begins at position `i`.
pub open spec fn boundary_at(t: Seq<char>, i: int) -> bool {
    word_boundary(
        t[i],
        if i == 0 {
            None
        } else {
            Some(t[i - 1])
        },
    )
}

/// Where words begin among the first `n` characters, in order.
pub open spec fn boundaries(t: Seq<char>, n: int) -> Seq<int>
    decreases n,
{
    if n <= 0 {
        Seq::empty()
    } else if boundary_at(t, n - 1) {
        boundaries(t, n - 1).push(n - 1)
    } else {
        boundaries(t, n - 1)
    }
}

// ---------------------------------------------------------------------------
// Abbreviations
// ---------------------------------------------------------------------------
/// The first `m` characters of `q` stand in `t` from `start` on, the letter case
/// of `t` aside.
pub open spec fn spells_at(q: Seq<char>, t: Seq<char>, start: int, m: int) -> bool {
    &&& 0 <= m <= q.len()
    &&& 0 <= start
    &&& start + m <= t.len()
    &&& forall|k: int| 0 <= k < m ==> #[trigger] q[k] == ascii_lower(t[start + k])
}

/// `q` falls into pieces, each of which stands at the beginning of a word of
/// `t`, in order; the words begin at `bounds`, and those before the `b`th are
/// used up.
pub open spec fn abbreviates(q: Seq<char>, t: Seq<char>, bounds: Seq<int>, b: int) -> bool
    decreases bounds.len() - b,
{
    if q.len() == 0 {
        true
    } else if b < 0 || b >= bounds.len() {
        false
    } else {
        ||| exists|m: int|
            1 <= m && #[trigger] spells_at(q, t, bounds[b], m) && abbreviates(
                q.skip(m),
                t,
                bounds,
                b + 1,
            )
        ||| abbreviates(q, t, bounds, b + 1)
    }
}

fn search_from(
    q_idx: usize,
    b_idx: usize,
    q: &Vec<char>,
    t: &Vec<char>,
    bounds: &Vec<usize>,
) -> (r: bool)
    requires
        q_idx <= q@.len(),
        b_idx <= bounds@.len(),
        forall|i: int| 0 <= i < bounds@.len() ==> (#[trigger] bounds@[i]) < t@.len(),
    ensures
        r == abbreviates(q@.skip(q_idx as int), t@, positions(bounds@), b_idx as int),
    decreases bounds@.len() - b_idx,
{
    let ghost rest = q@.skip(q_idx as int);
    let ghost bs = positions(bounds@);
    if q_idx == q.len() {
        return true;
    }
    if b_idx == bounds.len() {
        return false;
    }
    let start: usize = bounds[b_idx];
    assert(bs[b_idx as int] == start);
    let mut matched: usize = 0;
    let n: usize = q.len();
    let l: usize = t.len();
    let words: usize = bounds.len();
    while matched < n - q_idx && matched < l - start
        invariant_except_break
            forall|k: int| 0 <= k < matched ==> #[trigger] rest[k] == ascii_lower(t@[start + k]),
        invariant
            n == q@.len(),
            l == t@.len(),
            q_idx < n,
            words == bounds@.len(),
            b_idx < words,
            start < l,
            rest == q@.skip(q_idx as int),
            bs == positions(bounds@),
            bs[b_idx as int] == start,
            forall|i: int| 0 <= i < bounds@.len() ==> (#[trigger] bounds@[i]) < t@.len(),
            matched <= n - q_idx,
            matched <= l - start,
            forall|m: int|
                1 <= m <= matched ==> !(#[trigger] spells_at(rest, t@, start as int, m)
                    && abbreviates(rest.skip(m), t@, bs, b_idx + 1)),
        ensures
            forall|m: int|
                1 <= m ==> !(#[trigger] spells_at(rest, t@, start as int, m) && abbreviates(
                    rest.skip(m),
                    t@,
                    bs,
                    b_idx + 1,
                )),
        decreases n - q_idx - matched,
    {
        assert(rest[matched as int] == q@[q_idx + matched]);
        if q[q_idx + matched] != to_ascii_lower(t[start + matched]) {
            assert forall|m: int| 1 <= m implies !(#[trigger] spells_at(rest, t@, start as int, m)
                && abbreviates(rest.skip(m), t@, bs, b_idx + 1)) by {
                if m > matched && spells_at(rest, t@, start as int, m) {
                    assert(rest[matched as int] == ascii_lower(t@[start + matched]));
                }
            }
            break;
        }
        matched += 1;
        assert(rest.skip(matched as int) =~= q@.skip(q_idx + matched));
        assert(spells_at(rest, t@, start as int, matched as int));
        if search_from(q_idx + matched, b_idx + 1, q, t, bounds) {
            return true;
        }
    }
    search_from(q_idx, b_idx + 1, q, t, bounds)
}

/// Whether `q` (in lowercase) abbreviates `t`, whose words begin at `bounds`.
pub fn abbreviates_words(q: &Vec<char>, t: &Vec<char>, bounds: &Vec<usize>) -> (r: bool)
    requires
        forall|i: int| 0 <= i < bounds@.len() ==> (#[trigger] bounds@[i]) < t@.len(),
    ensures
        r == abbreviates(q@, t@, positions(bounds@), 0),
{
    assert(q@.skip(0) =~= q@);
    search_from(0, 0, q, t, bounds)
}

/// `query` abbreviates `target`: it falls into beginnings of words of the
/// target, in order, ASCII letter case aside.
pub open spec fn abbrev_matches(query: Seq<char>, target: Seq<char>) -> bool {
    abbreviates(ascii_lowered(query), target, boundaries(target, target.len() as int), 0)
}

fn word_starts(t: &Vec<char>) -> (r: Vec<usize>)
    ensures
        positions(r@) == boundaries(t@, t@.len() as int),
        forall|i: int| 0 <= i < r@.len() ==> (#[trigger] r@[i]) < t@.len(),
{
    let mut out: Vec<usize> = Vec::new();
    let mut prev: Option<char> = None;
    let mut i: usize = 0;
    assert(positions(out@) =~= boundaries(t@, 0));
    while i < t.len()
        invariant
            i <= t@.len(),
            prev == if i == 0 {
                None
            } else {
                Some(t@[i - 1])
            },
            positions(out@) == boundaries(t@, i as int),
            forall|k: int| 0 <= k < out@.len() ==> (#[trigger] out@[k]) < t@.len(),
        decreases t@.len() - i,
    {
        let c: char = t[i];
        if is_word_boundary(c, prev) {
            let ghost o = positions(out@);
            out.push(i);
            assert(positions(out@) =~= o.push(i as int));
        }
        prev = Some(c);
        i += 1;
    }
    out
}

pub fn match_abbrev(query: &str, target: &str) -> (r: bool)
    ensures
        r == abbrev_matches(query@, target@),
{
    let typed = chars_of(query);
    let mut q: Vec<char> = Vec::new();
    let mut i: usize = 0;
    while i < typed.len()
        invariant
            typed@ == query@,
            i <= typed@.len(),
            q@ == ascii_lowered(query@).take(i as int),
        decreases typed@.len() - i,
    {
        q.push(to_ascii_lower(typed[i]));
        assert(q@ =~= ascii_lowered(query@).take(i + 1));
        i += 1;
    }
    assert(q@ =~= ascii_lowered(query@));
    let t = chars_of(target);
    let bounds = word_starts(&t);
    abbreviates_words(&q, &t, &bounds)
}

/// The empty query matches everything.
pub proof fn law_empty_query_matches(target: Seq<char>)
    ensures
        abbrev_matches(Seq::empty(), target),
{
    assert(ascii_lowered(Seq::empty()) =~= Seq::<char>::empty());
}

proof fn lemma_first_word(t: Seq<char>, n: int)
    requires
        0 < n <= t.len(),
    ensures
        boundaries(t, n).len() > 0,
        boundaries(t, n)[0] == 0,
    decreases n,
{
    if n > 1 {
        lemma_first_word(t, n - 1);
    } else {
        assert(boundaries(t, 0) =~= Seq::<int>::empty());
    }
}

/// Every beginning of the target matches it, whatever its letter case.
pub proof fn law_beginnings_match(query: Seq<char>, target: Seq<char>)
    requires
        query.len() <= target.len(),
        ascii_lowered(query) == ascii_lowered(target.take(query.len() as int)),
    ensures
        abbrev_matches(query, target),
{
    let q = ascii_lowered(query);
    let n = q.len() as int;
    if n > 0 {
        let bounds = boundaries(target, target.len() as int);
        lemma_first_word(target, target.len() as int);
        assert forall|k: int| 0 <= k < n implies #[trigger] q[k] == ascii_lower(target[0 + k]) by {
            assert(ascii_lowered(target.take(n))[k] == ascii_lower(target[k]));
        }
        assert(spells_at(q, target, bounds[0], n));
        assert(q.skip(n).len() == 0);
        assert(abbreviates(q.skip(n), target, bounds, 1));
    }
}

proof fn lemma_shorter(q: Seq<char>, t: Seq<char>, bounds: Seq<int>, b: int, n: int)
    requires
        abbreviates(q, t, bounds, b),
        0 <= n <= q.len(),
    ensures
        abbreviates(q.take(n), t, bounds, b),
    decreases bounds.len() - b,
{
    let p = q.take(n);
    if n > 0 {
        if exists|m: int|
            1 <= m && #[trigger] spells_at(q, t, bounds[b], m) && abbreviates(
                q.skip(m),
                t,
                bounds,
                b + 1,
            ) {
            let m = choose|m: int|
                1 <= m && #[trigger] spells_at(q, t, bounds[b], m) && abbreviates(
                    q.skip(m),
                    t,
                    bounds,
                    b + 1,
                );
            if n <= m {
                assert forall|k: int| 0 <= k < n implies #[trigger] p[k] == ascii_lower(
                    t[bounds[b] + k],
                ) by {
                    assert(q[k] == p[k]);
                }
                assert(spells_at(p, t, bounds[b], n));
                assert(p.skip(n).len() == 0);
                assert(abbreviates(p.skip(n), t, bounds, b + 1));
            } else {
                lemma_shorter(q.skip(m), t, bounds, b + 1, n - m);
                assert(p.skip(m) =~= q.skip(m).take(n - m));
                assert forall|k: int| 0 <= k < m implies #[trigger] p[k] == ascii_lower(
                    t[bounds[b] + k],
                ) by {
                    assert(q[k] == p[k]);
                }
                assert(spells_at(p, t, bounds[b], m));
            }
        } else {
            lemma_shorter(q, t, bounds, b + 1, n);
        }
    }
}

/// Typing on only narrows the search: what a query matches, its beginnings
/// match too.
pub proof fn law_typing_narrows(query: Seq<char>, target: Seq<char>, n: int)
    requires
        abbrev_matches(query, target),
        0 <= n <= query.len(),
    ensures
        abbrev_matches(query.take(n), target),
{
    let bounds = boundaries(target, target.len() as int);
    lemma_shorter(ascii_lowered(query), target, bounds, 0, n);
    assert(ascii_lowered(query.take(n)) =~= ascii_lowered(query).take(n));
}

// ---------------------------------------------------------------------------
// Rows
// ---------------------------------------------------------------------------
/// A text matches a search if it contains the query, letter case aside, or the
/// query abbreviates it.
pub open spec fn text_matches(text: Seq<char>, query: Seq<char>) -> bool {
    has_text(lowercase(text), lowercase(query)) || abbrev_matches(query, text)
}

/// A row matches by its label or by its key.
pub open spec fn row_matches(n: NodeView, query: Seq<char>) -> bool {
    text_matches(n.label, query) || match n.fqn {
        Some(f) => text_matches(f, query),
        None => false,
    }
}

/// Whether a text matches a search; both are also given in lowercase.
pub fn matches_in_lowercase(text: &str, lower_text: &str, query: &str, lower_query: &str) -> (r:
    bool)
    ensures
        r == (has_text(lower_text@, lower_query@) || abbrev_matches(query@, text@)),
{
    contains(lower_text, lower_query) || match_abbrev(query, text)
}

fn matches_text(text: &str, query: &str, lower_query: &str) -> (r: bool)
    requires
        lower_query@ == lowercase(query@),
    ensures
        r == text_matches(text@, query@),
{
    matches_in_lowercase(text, to_lowercase(text).as_str(), query, lower_query)
}

/// The rows that match by themselves.
pub open spec fn matching_rows(t: Seq<NodeView>, query: Seq<char>) -> Seq<bool> {
    t.map_values(|n: NodeView| row_matches(n, query))
}

/// Row `i` is in the list: it, or a row below it, is one of the `own` matches;
/// and, unless the list is filtered, everything above it is expanded.
pub open spec fn is_listed(t: Seq<NodeView>, own: Seq<bool>, filtered: bool, i: int) -> bool {
    reaches_up_to(t, own, i) && (filtered || unfolded(t, i))
}

/// The listed rows among the first `n`, in order.
pub open spec fn listed_rows(t: Seq<NodeView>, own: Seq<bool>, filtered: bool, n: int) -> Seq<int>
    decreases n,
{
    if n <= 0 {
        Seq::empty()
    } else if is_listed(t, own, filtered, n - 1) {
        listed_rows(t, own, filtered, n - 1).push(n - 1)
    } else {
        listed_rows(t, own, filtered, n - 1)
    }
}

/// Lists rows, where it is known which match by themselves.
pub fn list_rows(tree: &[TreeNode], own: &Vec<bool>, filtered: bool) -> (r: Vec<usize>)
    requires
        parents_precede(rows(tree@)),
        own@.len() == tree@.len(),
    ensures
        positions(r@) == listed_rows(rows(tree@), own@, filtered, tree@.len() as int),
{
    let ghost t = rows(tree@);
    let marks = flag_upwards(tree, own);
    let mut out: Vec<usize> = Vec::new();
    let mut i: usize = 0;
    assert(positions(out@) =~= listed_rows(t, own@, filtered, 0));
    while i < tree.len()
        invariant
            t == rows(tree@),
            parents_precede(t),
            marks@.len() == tree@.len(),
            forall|k: int|
                0 <= k < marks@.len() ==> #[trigger] marks@[k] == reaches_up_to(t, own@, k),
            i <= tree@.len(),
            positions(out@) == listed_rows(t, own@, filtered, i as int),
        decreases tree@.len() - i,
    {
        if marks[i] && (filtered || is_unfolded(tree, i)) {
            let ghost o = positions(out@);
            out.push(i);
            assert(positions(out@) =~= o.push(i as int));
        }
        i += 1;
    }
    out
}

/// Which rows match by themselves: all of them while nothing is searched for.
pub open spec fn own_matches(t: Seq<NodeView>, query: Seq<char>) -> Seq<bool> {
    if lowercase(query).len() == 0 {
        t.map_values(|n: NodeView| true)
    } else {
        matching_rows(t, query)
    }
}

/// The rows that are shown, in order: while nothing is searched for, those that
/// are not folded away; else those that match, with everything above them.
pub open spec fn visible_rows(t: Seq<NodeView>, query: Seq<char>) -> Seq<int> {
    listed_rows(t, own_matches(t, query), lowercase(query).len() > 0, t.len() as int)
}

pub fn visible_indices(tree: &[TreeNode], search_query: &str) -> (r: Vec<usize>)
    requires
        parents_precede(rows(tree@)),
    ensures
        positions(r@) == visible_rows(rows(tree@), search_query@),
{
    let ghost t = rows(tree@);
    let lower = to_lowercase(search_query);
    let filtered = !lower.as_str().is_empty();
    let mut own: Vec<bool> = Vec::new();
    let mut i: usize = 0;
    while i < tree.len()
        invariant
            t == rows(tree@),
            lower@ == lowercase(search_query@),
            filtered == (lower@.len() > 0),
            i <= tree@.len(),
            own@ == own_matches(t, search_query@).take(i as int),
        decreases tree@.len() - i,
    {
        let node = &tree[i];
        assert(t[i as int] == node@);
        let hit = !filtered || matches_text(node.label.as_str(), search_query, lower.as_str())
            || match &node.fqn {
            Some(f) => matches_text(f.as_str(), search_query, lower.as_str()),
            None => false,
        };
        own.push(hit);
        assert(own@ =~= own_matches(t, search_query@).take(i + 1));
        i += 1;
    }
    assert(own@ =~= own_matches(t, search_query@));
    list_rows(tree, &own, filtered)
}

proof fn lemma_listed(t: Seq<NodeView>, own: Seq<bool>, filtered: bool, n: int)
    ensures
        forall|i: int| #[trigger]
            listed_rows(t, own, filtered, n).contains(i) <==> 0 <= i < n && is_listed(
                t,
                own,
                filtered,
                i,
            ),
        forall|a: int, b: int|
            0 <= a < b < listed_rows(t, own, filtered, n).len() ==> #[trigger] listed_rows(
                t,
                own,
                filtered,
                n,
            )[a] < #[trigger] listed_rows(t, own, filtered, n)[b],
    decreases n,
{
    if n > 0 {
        lemma_listed(t, own, filtered, n - 1);
        let s = listed_rows(t, own, filtered, n - 1);
        let r = listed_rows(t, own, filtered, n);
        assert forall|i: int| #[trigger] r.contains(i) <==> 0 <= i < n && is_listed(
            t,
            own,
            filtered,
            i,
        ) by {
            if s.contains(i) {
                let k = choose|k: int| 0 <= k < s.len() && s[k] == i;
                assert(r[k] == i);
            }
            if i == n - 1 && is_listed(t, own, filtered, i) {
                assert(r[r.len() - 1] == i);
            }
            if r.contains(i) {
                let k = choose|k: int| 0 <= k < r.len() && r[k] == i;
                if k < s.len() {
                    assert(s.contains(s[k]));
                }
            }
        }
        assert forall|a: int, b: int| 0 <= a < b < r.len() implies #[trigger] r[a]
            < #[trigger] r[b] by {
            assert(a < s.len());
            assert(s.contains(s[a]));
            if b < s.len() {
                assert(s[a] < s[b]);
            }
        }
    }
}

/// The rows are shown in the order of the tree, each once, and exactly those
/// that are listed.
pub proof fn law_visible_rows_are_the_listed_ones(t: Seq<NodeView>, query: Seq<char>, i: int)
    ensures
        visible_rows(t, query).contains(i) <==> 0 <= i < t.len() && is_listed(
            t,
            own_matches(t, query),
            lowercase(query).len() > 0,
            i,
        ),
        forall|a: int, b: int|
            0 <= a < b < visible_rows(t, query).len() ==> #[trigger] visible_rows(t, query)[a]
                < #[trigger] visible_rows(t, query)[b],
{
    lemma_listed(t, own_matches(t, query), lowercase(query).len() > 0, t.len() as int);
}

/// A row is never shown without the rows above it.
pub proof fn law_visible_rows_bring_their_parents(
    t: Seq<NodeView>,
    query: Seq<char>,
    i: int,
    p: int,
)
    requires
        visible_rows(t, query).contains(i),
        is_ancestor(t, p, i),
    ensures
        visible_rows(t, query).contains(p),
{
    let own = own_matches(t, query);
    let filtered = lowercase(query).len() > 0;
    lemma_listed(t, own, filtered, t.len() as int);
    lemma_ancestor_smaller(t, p, i);
    let m = choose|m: int| 0 <= m < own.len() && #[trigger] own[m] && (m == i || is_ancestor(t, i, m));
    if m != i {
        lemma_ancestor_transitive(t, p, i, m);
    }
    assert(reaches_up_to(t, own, p));
    if !filtered {
        assert forall|q: int| is_ancestor(t, q, p) implies (#[trigger] t[q]).is_expanded by {
            lemma_ancestor_transitive(t, q, p, i);
        }
    }
}

/// While nothing is searched for, the rows at the top are always shown.
pub proof fn law_top_rows_are_shown(t: Seq<NodeView>, query: Seq<char>, i: int)
    requires
        lowercase(query).len() == 0,
        0 <= i < t.len(),
        t[i].parent_idx is None,
    ensures
        visible_rows(t, query).contains(i),
{
    let own = own_matches(t, query);
    lemma_listed(t, own, false, t.len() as int);
    assert(own[i]);
    assert(reaches_up_to(t, own, i));
}

} // verus!
