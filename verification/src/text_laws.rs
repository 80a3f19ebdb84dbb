//! What the operations on text are for: how taking apart and putting together
//! undo each other, and what trimming and searching find.

use vstd::prelude::*;

use crate::text::{
    after_text, ascii_lower, before_text, first_index, first_occurrence, first_segment, has_text,
    is_white_space, joined, lemma_first_index, occurs_at, padded, segments, trim_end_char,
    trim_end_of, trim_start_of, trimmed,
};

verus! {

// ---------------------------------------------------------------------------
// Splitting and joining
// ---------------------------------------------------------------------------
proof fn lemma_first_index_after(a: Seq<char>, c: char, rest: Seq<char>)
    requires
        !a.contains(c),
    ensures
        first_index(a + seq![c] + rest, c) == a.len(),
        first_index(a, c) == a.len(),
{
    let s = a + seq![c] + rest;
    lemma_first_index(s, c);
    lemma_first_index(a, c);
    assert(s[a.len() as int] == c);
    let i = first_index(s, c);
    if i < a.len() {
        assert(a[i] == s[i]);
    }
}

/// A text without `c` is one segment.
pub proof fn law_plain_text_is_one_segment(s: Seq<char>, c: char)
    requires
        !s.contains(c),
    ensures
        segments(s, c) == seq![s],
        first_segment(s, c) == s,
{
    lemma_first_index_after(s, c, Seq::empty());
    assert(s.take(s.len() as int) =~= s);
}

/// What stands before the first `c` is the first segment, and the others are
/// those of what stands behind it.
pub proof fn law_first_segment_is_split_off(a: Seq<char>, c: char, rest: Seq<char>)
    requires
        !a.contains(c),
    ensures
        first_segment(a + seq![c] + rest, c) == a,
        segments(a + seq![c] + rest, c) == seq![a] + segments(rest, c),
{
    let s = a + seq![c] + rest;
    lemma_first_index_after(a, c, rest);
    assert(s.take(a.len() as int) =~= a);
    assert(s.skip(a.len() as int + 1) =~= rest);
}

pub proof fn lemma_joined_from_the_front(parts: Seq<Seq<char>>, sep: Seq<char>)
    requires
        parts.len() >= 2,
    ensures
        joined(parts, sep) == parts[0] + sep + joined(parts.drop_first(), sep),
    decreases parts.len(),
{
    reveal_with_fuel(joined, 2);
    if parts.len() == 2 {
        assert(parts.drop_last() =~= seq![parts[0]]);
        assert(parts.drop_first() =~= seq![parts[1]]);
    } else {
        lemma_joined_from_the_front(parts.drop_last(), sep);
        assert(parts.drop_last().drop_first() =~= parts.drop_first().drop_last());
        assert(joined(parts, sep) =~= parts[0] + sep + joined(parts.drop_first(), sep));
    }
}

/// Splitting undoes joining, where no part holds the separator.
pub proof fn law_splitting_undoes_joining(parts: Seq<Seq<char>>, c: char)
    requires
        parts.len() > 0,
        forall|i: int| 0 <= i < parts.len() ==> !(#[trigger] parts[i]).contains(c),
    ensures
        segments(joined(parts, seq![c]), c) == parts,
    decreases parts.len(),
{
    let first = parts[0];
    assert(!first.contains(c));
    if parts.len() == 1 {
        law_plain_text_is_one_segment(first, c);
        assert(parts =~= seq![first]);
    } else {
        let rest = parts.drop_first();
        assert forall|i: int| 0 <= i < rest.len() implies !(#[trigger] rest[i]).contains(c) by {
            assert(rest[i] == parts[i + 1]);
        }
        law_splitting_undoes_joining(rest, c);
        lemma_joined_from_the_front(parts, seq![c]);
        law_first_segment_is_split_off(first, c, joined(rest, seq![c]));
        assert(seq![first] + rest =~= parts);
    }
}

/// Joining undoes splitting.
pub proof fn law_joining_undoes_splitting(s: Seq<char>, c: char)
    ensures
        segments(s, c).len() > 0,
        joined(segments(s, c), seq![c]) == s,
        forall|i: int| 0 <= i < segments(s, c).len() ==> !(#[trigger] segments(s, c)[i]).contains(c),
    decreases s.len(),
{
    let i = first_index(s, c);
    lemma_first_index(s, c);
    if i < s.len() {
        let rest = s.skip(i + 1);
        let all = segments(s, c);
        law_joining_undoes_splitting(rest, c);
        assert(all =~= seq![s.take(i)] + segments(rest, c));
        assert(all.drop_first() =~= segments(rest, c));
        lemma_joined_from_the_front(all, seq![c]);
        assert(s =~= s.take(i) + seq![c] + rest);
        assert forall|k: int| 0 <= k < all.len() implies !(#[trigger] all[k]).contains(c) by {
            if k > 0 {
                assert(all[k] == segments(rest, c)[k - 1]);
            }
        }
    }
}

/// The last segment is what stands behind the last `c`: a text without `c` is
/// the last segment of another if that is the same, or ends in it right behind
/// a `c`.
pub proof fn law_last_segment_stands_behind_the_last(s: Seq<char>, c: char, name: Seq<char>)
    requires
        !name.contains(c),
    ensures
        segments(s, c).last() == name <==> s == name || (seq![c] + name).is_suffix_of(s),
    decreases s.len(),
{
    let i = first_index(s, c);
    lemma_first_index(s, c);
    let tail = seq![c] + name;
    if i == s.len() {
        if tail.is_suffix_of(s) {
            assert(s.subrange(s.len() - tail.len(), s.len() as int)[0] == c);
        }
    } else {
        let rest = s.skip(i + 1);
        law_joining_undoes_splitting(rest, c);
        law_last_segment_stands_behind_the_last(rest, c, name);
        assert(segments(s, c).last() == segments(rest, c).last());
        if rest == name {
            assert(s.subrange(i, s.len() as int) =~= tail);
        }
        if tail.is_suffix_of(rest) {
            let k = rest.len() - tail.len();
            assert(rest.subrange(k, rest.len() as int) =~= s.subrange(
                s.len() - tail.len(),
                s.len() as int,
            ));
        }
        if tail.is_suffix_of(s) {
            let k = s.len() - tail.len();
            let end = s.subrange(k, s.len() as int);
            assert(end[0] == c);
            assert(s[k] == c);
            if k == i {
                assert(rest =~= name) by {
                    assert forall|j: int| 0 <= j < name.len() implies rest[j] == name[j] by {
                        assert(end[j + 1] == name[j]);
                    }
                }
            } else {
                assert(k > i);
                assert(rest.subrange(rest.len() - tail.len(), rest.len() as int) =~= end);
            }
        }
        if s == name {
            assert(name.contains(s[i]));
        }
    }
}

/// The segments of two texts with `c` between them are those of the one and
/// then those of the other.
pub proof fn law_segments_of_both(a: Seq<char>, c: char, b: Seq<char>)
    ensures
        segments(a + seq![c] + b, c) == segments(a, c) + segments(b, c),
    decreases a.len(),
{
    let i = first_index(a, c);
    lemma_first_index(a, c);
    if i == a.len() {
        assert(!a.contains(c));
        law_first_segment_is_split_off(a, c, b);
    } else {
        let head = a.take(i);
        let rest = a.skip(i + 1);
        assert(!head.contains(c));
        assert(a =~= head + seq![c] + rest);
        law_segments_of_both(rest, c, b);
        assert(a + seq![c] + b =~= head + seq![c] + (rest + seq![c] + b));
        law_first_segment_is_split_off(head, c, rest + seq![c] + b);
        assert(seq![head] + (segments(rest, c) + segments(b, c)) =~= (seq![head] + segments(
            rest,
            c,
        )) + segments(b, c));
    }
}

// ---------------------------------------------------------------------------
// Trimming
// ---------------------------------------------------------------------------
/// Blanks, tabs and line ends are white space; what prints in ASCII is not.
pub proof fn law_white_space(c: char)
    ensures
        c == ' ' || c == '\t' || c == '\n' || c == '\r' ==> is_white_space(c),
        '!' <= c <= '~' ==> !is_white_space(c),
{
}

pub open spec fn is_blank(s: Seq<char>) -> bool {
    forall|i: int| 0 <= i < s.len() ==> is_white_space(#[trigger] s[i])
}

pub proof fn lemma_trim_start_skips(a: Seq<char>, s: Seq<char>)
    requires
        is_blank(a),
    ensures
        trim_start_of(a + s) == trim_start_of(s),
    decreases a.len(),
{
    if a.len() == 0 {
        assert(a + s =~= s);
    } else {
        assert((a + s)[0] == a[0]);
        assert((a + s).drop_first() =~= a.drop_first() + s);
        assert(is_blank(a.drop_first())) by {
            assert forall|i: int| 0 <= i < a.drop_first().len() implies is_white_space(
                #[trigger] a.drop_first()[i],
            ) by {
                assert(is_white_space(a[i + 1]));
            }
        }
        lemma_trim_start_skips(a.drop_first(), s);
    }
}

proof fn lemma_trim_end_skips(s: Seq<char>, b: Seq<char>)
    requires
        is_blank(b),
    ensures
        trim_end_of(s + b) == trim_end_of(s),
    decreases b.len(),
{
    if b.len() == 0 {
        assert(s + b =~= s);
    } else {
        assert((s + b).last() == b.last());
        assert(is_white_space(b[b.len() - 1]));
        assert((s + b).drop_last() =~= s + b.drop_last());
        assert(is_blank(b.drop_last())) by {
            assert forall|i: int| 0 <= i < b.drop_last().len() implies is_white_space(
                #[trigger] b.drop_last()[i],
            ) by {
                assert(is_white_space(b[i]));
            }
        }
        lemma_trim_end_skips(s, b.drop_last());
    }
}

/// Trimming takes away the white space around a text, and nothing of the text.
pub proof fn law_trimming_finds_the_text(a: Seq<char>, s: Seq<char>, b: Seq<char>)
    requires
        is_blank(a),
        is_blank(b),
        s.len() > 0 ==> !is_white_space(s[0]) && !is_white_space(s.last()),
    ensures
        trimmed(a + s + b) == s,
{
    assert(a + s + b =~= a + (s + b));
    lemma_trim_start_skips(a, s + b);
    if s.len() > 0 {
        assert((s + b)[0] == s[0]);
        assert(trim_start_of(s + b) == s + b);
        lemma_trim_end_skips(s, b);
    } else {
        assert(s + b =~= b);
        lemma_trim_start_skips(b, s);
        assert(b + s =~= b);
        lemma_trim_end_skips(s, Seq::empty());
        assert(s =~= Seq::<char>::empty());
    }
}

/// What is left by trimming stands in the text, and does not begin or end with
/// white space.
pub proof fn law_trimmed_text_has_dark_ends(s: Seq<char>)
    ensures
        trimmed(s).len() > 0 ==> !is_white_space(trimmed(s)[0]) && !is_white_space(
            trimmed(s).last(),
        ),
        trimmed(trimmed(s)) == trimmed(s),
{
    let t = trimmed(s);
    lemma_start_is_dark(s);
    lemma_end_is_dark(trim_start_of(s));
    let none = Seq::<char>::empty();
    assert(none + t + none =~= t);
    law_trimming_finds_the_text(none, t, none);
}

proof fn lemma_start_is_dark(s: Seq<char>)
    ensures
        trim_start_of(s).len() > 0 ==> !is_white_space(trim_start_of(s)[0]),
    decreases s.len(),
{
    if s.len() > 0 && is_white_space(s[0]) {
        lemma_start_is_dark(s.drop_first());
    }
}

proof fn lemma_end_is_dark(s: Seq<char>)
    requires
        s.len() > 0 ==> !is_white_space(s[0]),
    ensures
        trim_end_of(s).len() > 0 ==> !is_white_space(trim_end_of(s).last()) && trim_end_of(s)[0]
            == s[0],
    decreases s.len(),
{
    if s.len() > 0 && is_white_space(s.last()) {
        if s.len() > 1 {
            assert(s.drop_last()[0] == s[0]);
        }
        lemma_end_is_dark(s.drop_last());
    }
}

/// A run of `c` behind a text is taken away, and nothing of the text.
pub proof fn law_trailing_run_is_taken_away(s: Seq<char>, c: char, n: nat)
    requires
        s.len() > 0 ==> s.last() != c,
    ensures
        trim_end_char(s + Seq::new(n, |i: int| c), c) == s,
    decreases n,
{
    let run = Seq::new(n, |i: int| c);
    if n == 0 {
        assert(s + run =~= s);
    } else {
        let shorter = Seq::new((n - 1) as nat, |i: int| c);
        assert((s + run).last() == c);
        assert((s + run).drop_last() =~= s + shorter);
        law_trailing_run_is_taken_away(s, c, (n - 1) as nat);
    }
}

// ---------------------------------------------------------------------------
// Occurrences
// ---------------------------------------------------------------------------
/// A text holds each of its parts.
pub proof fn law_parts_are_found(a: Seq<char>, part: Seq<char>, b: Seq<char>)
    ensures
        has_text(a + part + b, part),
{
    let s = a + part + b;
    let n = a.len() as int;
    assert(s.subrange(n, n + part.len()) =~= part);
    assert(occurs_at(s, part, n));
}

/// What a text holds is one of its parts.
pub proof fn law_what_is_found_is_a_part(s: Seq<char>, part: Seq<char>) -> (at: int)
    requires
        has_text(s, part),
    ensures
        0 <= at <= s.len() - part.len(),
        s == s.take(at) + part + s.skip(at + part.len()),
{
    let at = choose|at: int| occurs_at(s, part, at);
    assert(s.subrange(at, at + part.len()) == part);
    assert(s =~= s.take(at) + part + s.skip(at + part.len()));
    at
}

/// A part that stands nowhere earlier cuts the text in two: what stands before
/// it, and what stands behind.
pub proof fn law_first_part_cuts(s: Seq<char>, part: Seq<char>, at: int)
    requires
        first_occurrence(s, part, at),
    ensures
        before_text(s, part) == s.take(at),
        after_text(s, part) == Some(s.skip(at + part.len())),
        s == s.take(at) + part + s.skip(at + part.len()),
{
    assert(has_text(s, part));
    let other = choose|k: int| first_occurrence(s, part, k);
    assert(first_occurrence(s, part, other));
    assert(other == at);
    assert(s.subrange(at, at + part.len()) == part);
    assert(s =~= s.take(at) + part + s.skip(at + part.len()));
}

// ---------------------------------------------------------------------------
// Letters
// ---------------------------------------------------------------------------
/// A capital letter of ASCII and its small letter are the same in lowercase, and
/// no other two characters are.
pub proof fn law_only_letter_case_is_lost(a: char, b: char)
    ensures
        ascii_lower(a) == ascii_lower(b) <==> a == b || ('A' <= a <= 'Z' && b as u32 == a as u32
            + 32) || ('A' <= b <= 'Z' && a as u32 == b as u32 + 32),
        'a' <= a <= 'z' ==> ascii_lower(a) == a,
        !('A' <= ascii_lower(a) <= 'Z'),
{
}

/// A padded text has at least the width, begins with the text, and goes on with
/// the filling alone.
pub proof fn law_padding_fills_up(s: Seq<char>, width: nat, fill: char)
    ensures
        padded(s, width, fill).len() == if s.len() < width {
            width
        } else {
            s.len()
        },
        padded(s, width, fill).take(s.len() as int) == s,
        forall|i: int|
            s.len() <= i < padded(s, width, fill).len() ==> #[trigger] padded(s, width, fill)[i]
                == fill,
{
    assert(padded(s, width, fill).take(s.len() as int) =~= s);
}

} // verus!
