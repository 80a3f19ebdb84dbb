//! What a search finds: how a query is read into the words of a text, and which
//! rows it shows.

use vstd::prelude::*;

use crate::domain::ancestry::{is_ancestor, lemma_ancestor_transitive, reaches_up_to};
use crate::domain::tree::{parents_precede, NodeView};
use crate::text::{ascii_lower, ascii_lowered, has_text};
use crate::ui::search::{
    abbrev_matches, abbreviates, boundaries, law_visible_rows_are_the_listed_ones, own_matches,
    spells_at, visible_rows,
};
use crate::unicode::{is_letter_or_number, is_number, is_upper, lowercase};

verus! {

// ---------------------------------------------------------------------------
// Words
// ---------------------------------------------------------------------------
/// A word of the text begins at `i`: at its beginning, behind an underscore, a
/// dot or anything else that is no letter and no number, with a capital behind
/// something else, and with a number behind something else.
pub open spec fn word_begins(t: Seq<char>, i: int) -> bool {
    ||| i == 0
    ||| t[i - 1] == '_'
    ||| t[i - 1] == '.'
    ||| !is_letter_or_number(t[i - 1])
    ||| is_upper(t[i]) && !is_upper(t[i - 1])
    ||| is_number(t[i]) && !is_number(t[i - 1])
}

/// The places at which a piece of a query may start are those at which a word
/// begins, each once and in order.
pub proof fn law_pieces_start_where_words_begin(t: Seq<char>, n: int)
    requires
        0 <= n <= t.len(),
    ensures
        forall|i: int| #[trigger]
            boundaries(t, n).contains(i) <==> 0 <= i < n && word_begins(t, i),
        forall|a: int, b: int|
            0 <= a < b < boundaries(t, n).len() ==> #[trigger] boundaries(t, n)[a]
                < #[trigger] boundaries(t, n)[b],
    decreases n,
{
    if n > 0 {
        law_pieces_start_where_words_begin(t, n - 1);
        let s = boundaries(t, n - 1);
        let r = boundaries(t, n);
        assert forall|i: int| #[trigger] r.contains(i) <==> 0 <= i < n && word_begins(t, i) by {
            if s.contains(i) {
                let k = choose|k: int| 0 <= k < s.len() && s[k] == i;
                assert(r[k] == i);
            }
            if i == n - 1 && word_begins(t, i) {
                assert(r[r.len() - 1] == i);
            }
            if r.contains(i) {
                let k = choose|k: int| 0 <= k < r.len() && r[k] == i;
                if k < s.len() {
                    assert(s.contains(s[k]));
                }
            }
        }
        assert forall|a: int, b: int| 0 <= a < b < r.len() implies #[trigger] r[a]
            < #[trigger] r[b] by {
            assert(s.contains(s[a]));
            if b < s.len() {
                assert(s[a] < s[b]);
            }
        }
    }
}

// ---------------------------------------------------------------------------
// Abbreviations
// ---------------------------------------------------------------------------
/// The pieces of a text that begin at `starts` and are as long as `lens` says,
/// one behind the other, in lowercase.
pub open spec fn pieces(t: Seq<char>, starts: Seq<int>, lens: Seq<int>) -> Seq<char>
    decreases starts.len(),
{
    if starts.len() == 0 {
        Seq::empty()
    } else {
        ascii_lowered(t.subrange(starts[0], starts[0] + lens[0])) + pieces(
            t,
            starts.drop_first(),
            lens.drop_first(),
        )
    }
}

/// Each piece lies in the text, is not empty, and begins with a word, and they
/// begin one after the other.
pub open spec fn are_word_pieces(t: Seq<char>, starts: Seq<int>, lens: Seq<int>) -> bool {
    &&& starts.len() == lens.len()
    &&& forall|k: int|
        0 <= k < starts.len() ==> 0 <= #[trigger] starts[k] && 1 <= lens[k] && starts[k] + lens[k]
            <= t.len() && word_begins(t, starts[k])
    &&& forall|a: int, b: int|
        0 <= a < b < starts.len() ==> #[trigger] starts[a] < #[trigger] starts[b]
}

proof fn lemma_pieces_abbreviate(
    q: Seq<char>,
    t: Seq<char>,
    starts: Seq<int>,
    lens: Seq<int>,
    b: int,
)
    requires
        are_word_pieces(t, starts, lens),
        q == pieces(t, starts, lens),
        0 <= b <= boundaries(t, t.len() as int).len(),
        forall|k: int| #![trigger starts[k]]
            0 <= k < starts.len() ==> exists|j: int|
                b <= j < boundaries(t, t.len() as int).len() && #[trigger] boundaries(
                    t,
                    t.len() as int,
                )[j] == starts[k],
    ensures
        abbreviates(q, t, boundaries(t, t.len() as int), b),
    decreases boundaries(t, t.len() as int).len() - b,
{
    let bounds = boundaries(t, t.len() as int);
    if q.len() > 0 {
        if starts.len() == 0 {
            assert(q =~= Seq::<char>::empty());
        }
        assert(0 <= starts[0]);
        let j = choose|j: int| b <= j < bounds.len() && #[trigger] bounds[j] == starts[0];
        law_pieces_start_where_words_begin(t, t.len() as int);
        if j == b {
            let m = lens[0];
            let piece = ascii_lowered(t.subrange(starts[0], starts[0] + m));
            let rest_starts = starts.drop_first();
            let rest_lens = lens.drop_first();
            let rest = pieces(t, rest_starts, rest_lens);
            assert(q == piece + rest);
            assert(q.skip(m) =~= rest);
            assert forall|k: int| 0 <= k < m implies #[trigger] q[k] == ascii_lower(
                t[bounds[b] + k],
            ) by {
                assert(piece[k] == ascii_lower(t.subrange(starts[0], starts[0] + m)[k]));
            }
            assert(spells_at(q, t, bounds[b], m));
            assert(are_word_pieces(t, rest_starts, rest_lens)) by {
                assert forall|k: int| 0 <= k < rest_starts.len() implies 0
                    <= #[trigger] rest_starts[k] && 1 <= rest_lens[k] && rest_starts[k]
                    + rest_lens[k] <= t.len() && word_begins(t, rest_starts[k]) by {
                    assert(0 <= starts[k + 1]);
                }
                assert forall|x: int, y: int| 0 <= x < y < rest_starts.len() implies
                    #[trigger] rest_starts[x] < #[trigger] rest_starts[y] by {
                    assert(starts[x + 1] < starts[y + 1]);
                }
            }
            assert forall|k: int| #![trigger rest_starts[k]]
                0 <= k < rest_starts.len() implies exists|i: int|
                b + 1 <= i < bounds.len() && #[trigger] bounds[i] == rest_starts[k] by {
                assert(starts[0] < starts[k + 1]);
                let i = choose|i: int| b <= i < bounds.len() && #[trigger] bounds[i] == starts[k + 1];
                assert(bounds[i] == rest_starts[k]);
            }
            lemma_pieces_abbreviate(rest, t, rest_starts, rest_lens, b + 1);
        } else {
            assert forall|k: int| #![trigger starts[k]]
                0 <= k < starts.len() implies exists|i: int|
                b + 1 <= i < bounds.len() && #[trigger] bounds[i] == starts[k] by {
                let i = choose|i: int| b <= i < bounds.len() && #[trigger] bounds[i] == starts[k];
                if k > 0 {
                    assert(starts[0] < starts[k]);
                    if i == b {
                        assert(bounds[b] < bounds[j]);
                    }
                } else if i == b {
                    assert(bounds[b] < bounds[j]);
                }
            }
            lemma_pieces_abbreviate(q, t, starts, lens, b + 1);
        }
    }
}

/// A query that consists of beginnings of words of the text, in order and letter
/// case aside, matches it.
pub proof fn law_word_pieces_match(
    query: Seq<char>,
    target: Seq<char>,
    starts: Seq<int>,
    lens: Seq<int>,
)
    requires
        are_word_pieces(target, starts, lens),
        ascii_lowered(query) == pieces(target, starts, lens),
    ensures
        abbrev_matches(query, target),
{
    let bounds = boundaries(target, target.len() as int);
    law_pieces_start_where_words_begin(target, target.len() as int);
    assert forall|k: int| #![trigger starts[k]] 0 <= k < starts.len() implies exists|j: int|
        0 <= j < bounds.len() && #[trigger] bounds[j] == starts[k] by {
        assert(bounds.contains(starts[k]));
    }
    lemma_pieces_abbreviate(ascii_lowered(query), target, starts, lens, 0);
}

proof fn lemma_read_pieces(q: Seq<char>, t: Seq<char>, b: int) -> (r: (Seq<int>, Seq<int>))
    requires
        0 <= b,
        abbreviates(q, t, boundaries(t, t.len() as int), b),
    ensures
        are_word_pieces(t, r.0, r.1),
        q == pieces(t, r.0, r.1),
        r.0.len() > 0 ==> b < boundaries(t, t.len() as int).len() && boundaries(
            t,
            t.len() as int,
        )[b] <= r.0[0],
    decreases boundaries(t, t.len() as int).len() - b,
{
    let bounds = boundaries(t, t.len() as int);
    if q.len() == 0 {
        assert(q =~= Seq::<char>::empty());
        (Seq::empty(), Seq::empty())
    } else {
        law_pieces_start_where_words_begin(t, t.len() as int);
        assert(bounds.contains(bounds[b]));
        if exists|m: int|
            1 <= m && #[trigger] spells_at(q, t, bounds[b], m) && abbreviates(
                q.skip(m),
                t,
                bounds,
                b + 1,
            ) {
            let m = choose|m: int|
                1 <= m && #[trigger] spells_at(q, t, bounds[b], m) && abbreviates(
                    q.skip(m),
                    t,
                    bounds,
                    b + 1,
                );
            let (s, l) = lemma_read_pieces(q.skip(m), t, b + 1);
            let starts = seq![bounds[b]] + s;
            let lens = seq![m] + l;
            assert(starts.drop_first() =~= s);
            assert(lens.drop_first() =~= l);
            let piece = ascii_lowered(t.subrange(bounds[b], bounds[b] + m));
            assert(q =~= piece + q.skip(m));
            assert forall|k: int| 0 <= k < starts.len() implies 0 <= #[trigger] starts[k] && 1
                <= lens[k] && starts[k] + lens[k] <= t.len() && word_begins(t, starts[k]) by {
                if k > 0 {
                    assert(0 <= s[k - 1]);
                }
            }
            assert forall|x: int, y: int| 0 <= x < y < starts.len() implies #[trigger] starts[x]
                < #[trigger] starts[y] by {
                if x > 0 {
                    assert(s[x - 1] < s[y - 1]);
                } else {
                    assert(bounds[b] < bounds[b + 1]);
                    if y > 1 {
                        assert(s[0] < s[y - 1]);
                    }
                }
            }
            (starts, lens)
        } else {
            let r = lemma_read_pieces(q, t, b + 1);
            if r.0.len() > 0 {
                assert(bounds[b] < bounds[b + 1]);
            }
            r
        }
    }
}

/// Nothing else abbreviates a text: a query that does consists of beginnings of
/// its words, in order and letter case aside.
pub proof fn law_matches_are_word_pieces(query: Seq<char>, target: Seq<char>) -> (r: (
    Seq<int>,
    Seq<int>,
))
    requires
        abbrev_matches(query, target),
    ensures
        are_word_pieces(target, r.0, r.1),
        ascii_lowered(query) == pieces(target, r.0, r.1),
{
    lemma_read_pieces(ascii_lowered(query), target, 0)
}

proof fn lemma_initials(t: Seq<char>, at: Seq<int>)
    requires
        forall|k: int| 0 <= k < at.len() ==> 0 <= #[trigger] at[k] < t.len(),
    ensures
        pieces(t, at, Seq::new(at.len(), |k: int| 1int)) == Seq::new(
            at.len(),
            |k: int| ascii_lower(t[at[k]]),
        ),
    decreases at.len(),
{
    let ones = Seq::new(at.len(), |k: int| 1int);
    let all = Seq::new(at.len(), |k: int| ascii_lower(t[at[k]]));
    if at.len() == 0 {
        assert(pieces(t, at, ones) =~= all);
    } else {
        let rest = at.drop_first();
        assert forall|k: int| 0 <= k < rest.len() implies 0 <= #[trigger] rest[k] < t.len() by {
            assert(0 <= at[k + 1]);
        }
        lemma_initials(t, rest);
        assert(ones.drop_first() =~= Seq::new(rest.len(), |k: int| 1int));
        assert(ascii_lowered(t.subrange(at[0], at[0] + 1)) =~= seq![ascii_lower(t[at[0]])]);
        assert(pieces(t, at, ones) =~= all);
    }
}

/// The first letters of words, in order, find the text: of all words or of some,
/// in any letter case. A word begins at the front of the text and behind each
/// underscore and each dot.
pub proof fn law_initials_match(query: Seq<char>, target: Seq<char>, at: Seq<int>)
    requires
        query.len() == at.len(),
        forall|k: int|
            0 <= k < at.len() ==> 0 <= #[trigger] at[k] < target.len() && ascii_lower(query[k])
                == ascii_lower(target[at[k]]) && (at[k] == 0 || target[at[k] - 1] == '_'
                || target[at[k] - 1] == '.' || word_begins(target, at[k])),
        forall|a: int, b: int| 0 <= a < b < at.len() ==> #[trigger] at[a] < #[trigger] at[b],
    ensures
        abbrev_matches(query, target),
{
    let ones = Seq::new(at.len(), |k: int| 1int);
    lemma_initials(target, at);
    assert forall|k: int| 0 <= k < at.len() implies 0 <= #[trigger] at[k] && 1 <= ones[k] && at[k]
        + ones[k] <= target.len() && word_begins(target, at[k]) by {}
    assert(ascii_lowered(query) =~= pieces(target, at, ones));
    law_word_pieces_match(query, target, at, ones);
}

// ---------------------------------------------------------------------------
// Rows
// ---------------------------------------------------------------------------
/// While something is searched for, a row is shown exactly if its label or its
/// key holds the query, letter case aside, or is abbreviated by it, or if a row
/// right below it is shown.
pub proof fn law_search_shows_what_matches(t: Seq<NodeView>, query: Seq<char>, i: int)
    requires
        lowercase(query).len() > 0,
        parents_precede(t),
        0 <= i < t.len(),
    ensures
        visible_rows(t, query).contains(i) <==> {
            ||| has_text(lowercase(t[i].label), lowercase(query))
            ||| abbrev_matches(query, t[i].label)
            ||| t[i].fqn is Some && has_text(lowercase(t[i].fqn->0), lowercase(query))
            ||| t[i].fqn is Some && abbrev_matches(query, t[i].fqn->0)
            ||| exists|k: int|
                0 <= k < t.len() && (#[trigger] t[k]).parent_idx == Some(i) && visible_rows(
                    t,
                    query,
                ).contains(k)
        },
{
    let own = own_matches(t, query);
    law_visible_rows_are_the_listed_ones(t, query, i);
    if visible_rows(t, query).contains(i) && !own[i] {
        let m = choose|m: int|
            0 <= m < own.len() && #[trigger] own[m] && (m == i || is_ancestor(t, i, m));
        let k = lemma_step_down(t, i, m);
        law_visible_rows_are_the_listed_ones(t, query, k);
        assert(reaches_up_to(t, own, k));
        assert(t[k].parent_idx == Some(i));
    }
    if own[i] {
        assert(reaches_up_to(t, own, i));
    }
    if exists|k: int|
        0 <= k < t.len() && (#[trigger] t[k]).parent_idx == Some(i) && visible_rows(
            t,
            query,
        ).contains(k) {
        let k = choose|k: int|
            0 <= k < t.len() && (#[trigger] t[k]).parent_idx == Some(i) && visible_rows(
                t,
                query,
            ).contains(k);
        law_visible_rows_are_the_listed_ones(t, query, k);
        let m = choose|m: int|
            0 <= m < own.len() && #[trigger] own[m] && (m == k || is_ancestor(t, k, m));
        assert(is_ancestor(t, i, k));
        if m != k {
            lemma_ancestor_transitive(t, i, k, m);
        }
        assert(reaches_up_to(t, own, i));
    }
}

proof fn lemma_step_down(t: Seq<NodeView>, p: int, i: int) -> (k: int)
    requires
        is_ancestor(t, p, i),
        0 <= i < t.len(),
    ensures
        p < k <= i,
        t[k].parent_idx == Some(p),
        k == i || is_ancestor(t, k, i),
    decreases i,
{
    let q = t[i].parent_idx->0;
    if q == p {
        i
    } else {
        let k = lemma_step_down(t, p, q);
        if k != q {
            lemma_ancestor_transitive(t, k, q, i);
        }
        k
    }
}

/// While nothing is searched for, a row is shown exactly if it is at the top or
/// the row above it is shown and expanded.
pub proof fn law_unfolded_rows_are_shown(t: Seq<NodeView>, query: Seq<char>, i: int)
    requires
        lowercase(query).len() == 0,
        parents_precede(t),
        0 <= i < t.len(),
    ensures
        visible_rows(t, query).contains(i) <==> match t[i].parent_idx {
            Some(p) => visible_rows(t, query).contains(p) && t[p].is_expanded,
            None => true,
        },
{
    let own = own_matches(t, query);
    law_visible_rows_are_the_listed_ones(t, query, i);
    assert(own[i]);
    assert(reaches_up_to(t, own, i));
    if let Some(p) = t[i].parent_idx {
        law_visible_rows_are_the_listed_ones(t, query, p);
        assert(own[p]);
        assert(reaches_up_to(t, own, p));
        assert(is_ancestor(t, p, i));
        if visible_rows(t, query).contains(i) {
            assert forall|q: int| is_ancestor(t, q, p) implies (#[trigger] t[q]).is_expanded by {
                lemma_ancestor_transitive(t, q, p, i);
            }
        }
        if visible_rows(t, query).contains(p) && t[p].is_expanded {
            assert forall|q: int| is_ancestor(t, q, i) implies (#[trigger] t[q]).is_expanded by {
                if q != p {
                    assert(is_ancestor(t, q, p));
                }
            }
        }
    }
}

} // verus!
