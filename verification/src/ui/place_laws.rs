//! Which places in files the lines of a stack trace name, and which line of the
//! details stands under the pointer.

use vstd::prelude::*;

use crate::numerals::{decimal, law_numeral_round_trip, lemma_decimal_digits};
use crate::text::{
    before_text, first_occurrence, has_text, is_digit, is_white_space, occurs_at, trim_end_of,
    trim_start_of,
    trimmed,
};
use crate::text_laws::{law_first_part_cuts, law_trimming_finds_the_text};
use crate::ui::failure_summary::{line_at_row, stack_target, TargetView};
use crate::ui::layout::rows_of;
use crate::ui::outcome_laws::lemma_leading_digits;

verus! {

/// A path that can be read out of a stack trace: a C# file, without blanks
/// around it and without the marks that end it.
pub open spec fn is_plain_path(path: Seq<char>) -> bool {
    &&& path.len() > 0
    &&& !is_white_space(path[0])
    &&& !is_white_space(path.last())
    &&& ".cs"@.is_suffix_of(path)
    &&& !path.contains(':')
}

proof fn lemma_no_mark(s: Seq<char>, part: Seq<char>, k: int)
    requires
        occurs_at(s, part, k),
        part.len() > 0,
    ensures
        0 <= k < s.len(),
        s[k] == part[0],
{
    assert(s.subrange(k, k + part.len())[0] == part[0]);
}

/// The place that a line of a stack trace names is read as it was written: the
/// path behind the first ` in `, and the number of the line.
pub proof fn law_places_are_read_back(
    method: Seq<char>,
    path: Seq<char>,
    n: nat,
    rest: Seq<char>,
)
    requires
        is_plain_path(path),
        first_occurrence(method + " in "@ + (path + (":line "@ + (decimal(n) + rest))), " in "@,
            method.len() as int),
        n <= usize::MAX,
        rest.len() > 0 ==> !is_digit(rest[0]),
    ensures
        stack_target(method + " in "@ + (path + (":line "@ + (decimal(n) + rest)))) == Some(
            TargetView { path, line_number: Some(n) },
        ),
{
    reveal_strlit(":line ");
    let mark = ":line "@;
    let digits = decimal(n) + rest;
    let tail = mark + digits;
    let place = path + tail;
    let line = method + " in "@ + place;
    law_first_part_cuts(line, " in "@, method.len() as int);
    assert(line.skip(method.len() as int + " in "@.len()) =~= place);
    let at = path.len() as int;
    assert(place.subrange(at, at + mark.len()) =~= mark);
    assert forall|k: int| k < at implies !occurs_at(place, mark, k) by {
        if occurs_at(place, mark, k) {
            lemma_no_mark(place, mark, k);
            assert(path.contains(path[k]));
        }
    }
    assert(first_occurrence(place, mark, at));
    law_first_part_cuts(place, mark, at);
    assert(place.take(at) =~= path);
    assert(place.skip(at + mark.len()) =~= digits);
    let none = Seq::<char>::empty();
    assert(none + path + none =~= path);
    law_trimming_finds_the_text(none, path, none);
    lemma_decimal_digits(n);
    lemma_leading_digits(decimal(n), rest);
    law_numeral_round_trip(n, usize::MAX as nat);
}

/// A line that names no place behind ` in `, or no C# file, is no link.
pub proof fn law_other_lines_are_no_links(line: Seq<char>)
    requires
        !has_text(line, " in "@) || !has_text(line, ".cs"@),
    ensures
        stack_target(line) is None,
{
    if stack_target(line) is Some {
        let path = stack_target(line)->0.path;
        let at = choose|k: int| first_occurrence(line, " in "@, k);
        lemma_first_is_found(line, " in "@);
        assert(first_occurrence(line, " in "@, at));
        law_first_part_cuts(line, " in "@, at);
        let place = line.skip(at + " in "@.len());
        lemma_before_is_beginning(place, ":line "@);
        let b = before_text(place, ":line "@);
        let k = lemma_trimmed_is_part(b);
        let n = path.len() - ".cs"@.len();
        assert(path.subrange(n, path.len() as int) == ".cs"@);
        let start = at + " in "@.len() + k + n;
        assert(line.subrange(start, start + ".cs"@.len()) =~= path.subrange(
            n,
            path.len() as int,
        ));
        assert(occurs_at(line, ".cs"@, start));
    }
}

proof fn lemma_first_is_found(s: Seq<char>, part: Seq<char>)
    requires
        has_text(s, part),
    ensures
        exists|k: int| first_occurrence(s, part, k),
{
    let k = choose|k: int| occurs_at(s, part, k);
    lemma_least_occurrence(s, part, k);
}

proof fn lemma_least_occurrence(s: Seq<char>, part: Seq<char>, k: int)
    requires
        occurs_at(s, part, k),
    ensures
        exists|j: int| first_occurrence(s, part, j),
    decreases k,
{
    if exists|j: int| j < k && occurs_at(s, part, j) {
        let j = choose|j: int| j < k && occurs_at(s, part, j);
        lemma_least_occurrence(s, part, j);
    } else {
        assert(first_occurrence(s, part, k));
    }
}

proof fn lemma_before_is_beginning(s: Seq<char>, part: Seq<char>)
    ensures
        before_text(s, part).len() <= s.len(),
        before_text(s, part) == s.take(before_text(s, part).len() as int),
{
    if has_text(s, part) {
        lemma_first_is_found(s, part);
        let k = choose|k: int| first_occurrence(s, part, k);
        assert(first_occurrence(s, part, k));
    } else {
        assert(s.take(s.len() as int) =~= s);
    }
}

proof fn lemma_trimmed_is_part(s: Seq<char>) -> (k: int)
    ensures
        0 <= k,
        k + trimmed(s).len() <= s.len(),
        trimmed(s) == s.subrange(k, k + trimmed(s).len()),
{
    let a = lemma_trim_start_is_end(s);
    let t = s.skip(a);
    lemma_trim_end_is_beginning(t);
    assert(trimmed(s) =~= s.subrange(a, a + trimmed(s).len()));
    a
}

proof fn lemma_trim_start_is_end(s: Seq<char>) -> (k: int)
    ensures
        0 <= k <= s.len(),
        trim_start_of(s) == s.skip(k),
    decreases s.len(),
{
    if s.len() > 0 && is_white_space(s[0]) {
        let k = lemma_trim_start_is_end(s.drop_first());
        assert(s.drop_first().skip(k) =~= s.skip(k + 1));
        k + 1
    } else {
        assert(s.skip(0) =~= s);
        0
    }
}

proof fn lemma_trim_end_is_beginning(s: Seq<char>)
    ensures
        trim_end_of(s).len() <= s.len(),
        trim_end_of(s) == s.take(trim_end_of(s).len() as int),
    decreases s.len(),
{
    if s.len() > 0 && is_white_space(s.last()) {
        lemma_trim_end_is_beginning(s.drop_last());
        let n = trim_end_of(s).len() as int;
        assert(s.drop_last().take(n) =~= s.take(n));
    } else {
        assert(s.take(s.len() as int) =~= s);
    }
}

/// The rows that the lines before line `i` take up.
pub open spec fn rows_before(lines: Seq<Seq<char>>, width: u16, i: int) -> int
    decreases i,
{
    if i <= 0 {
        0
    } else {
        rows_before(lines, width, i - 1) + rows_of(lines[i - 1], width)
    }
}

proof fn lemma_rows_before_shift(lines: Seq<Seq<char>>, width: u16, i: int)
    requires
        1 <= i <= lines.len(),
    ensures
        rows_before(lines, width, i) == rows_of(lines[0], width) + rows_before(
            lines.drop_first(),
            width,
            i - 1,
        ),
    decreases i,
{
    if i > 1 {
        lemma_rows_before_shift(lines, width, i - 1);
        assert(lines.drop_first()[i - 2] == lines[i - 1]);
    } else {
        assert(rows_before(lines, width, 0) == 0);
    }
}

proof fn lemma_rows_before_positive(lines: Seq<Seq<char>>, width: u16, i: int)
    requires
        0 <= i <= lines.len(),
    ensures
        rows_before(lines, width, i) >= 0,
    decreases i,
{
    if i > 0 {
        lemma_rows_before_positive(lines, width, i - 1);
    }
}

/// The line at a row of the wrapped details is the one among whose rows it is.
pub proof fn law_lines_stand_at_their_rows(
    lines: Seq<Seq<char>>,
    width: u16,
    i: int,
    row: int,
)
    requires
        0 <= i < lines.len(),
        rows_before(lines, width, i) <= row < rows_before(lines, width, i + 1),
    ensures
        line_at_row(lines, width, row) == Some(i),
    decreases i,
{
    lemma_rows_before_positive(lines, width, i);
    if i > 0 {
        lemma_rows_before_shift(lines, width, i);
        lemma_rows_before_shift(lines, width, i + 1);
        lemma_rows_before_positive(lines.drop_first(), width, i - 1);
        law_lines_stand_at_their_rows(
            lines.drop_first(),
            width,
            i - 1,
            row - rows_of(lines[0], width),
        );
    } else {
        assert(rows_before(lines, width, 0) == 0);
        assert(rows_before(lines, width, 1) == rows_of(lines[0], width));
    }
}

} // verus!
