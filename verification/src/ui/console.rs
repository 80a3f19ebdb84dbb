//! What a line on the console of the test runner says.

use vstd::prelude::*;

use crate::text::{
    after_prefix, before_part, before_text, first_occurrence, has_text, occurs_at, starts_with,
    starts_with_char, strip_prefix, trim, trim_start_char, trim_start_matches, trimmed,
};
use crate::ui::leaf_results::LeafStatus;

verus! {

/// What follows a run of `mark`s and, where it is there, the word after it.
pub open spec fn after_mark(t: Seq<char>, mark: char, word: Seq<char>) -> Seq<char> {
    let rest = trimmed(trim_start_char(t, mark));
    match after_prefix(rest, word) {
        Some(r) => r,
        None => rest,
    }
}

/// The status that a line starts with, as a word or as a mark, and what
/// follows.
pub open spec fn status_and_rest(t: Seq<char>) -> Option<(LeafStatus, Seq<char>)> {
    if after_prefix(t, "Passed "@) is Some {
        Some((LeafStatus::Passed, after_prefix(t, "Passed "@)->0))
    } else if after_prefix(t, "Failed "@) is Some {
        Some((LeafStatus::Failed, after_prefix(t, "Failed "@)->0))
    } else if after_prefix(t, "Skipped "@) is Some {
        Some((LeafStatus::Skipped, after_prefix(t, "Skipped "@)->0))
    } else if t.len() > 0 && t[0] == '✓' {
        Some((LeafStatus::Passed, after_mark(t, '✓', "Passed "@)))
    } else if t.len() > 0 && t[0] == '✗' {
        Some((LeafStatus::Failed, after_mark(t, '✗', "Failed "@)))
    } else if t.len() > 0 && t[0] == '⚠' {
        Some((LeafStatus::Skipped, after_mark(t, '⚠', "Skipped "@)))
    } else {
        None
    }
}

/// The status and the name of a test that a trimmed line reports. The name ends
/// before ` [`; a line that continues with a `(` reports no test.
pub open spec fn status_line(t: Seq<char>) -> Option<(LeafStatus, Seq<char>)> {
    match status_and_rest(t) {
        None => None,
        Some((status, after)) => if after.len() == 0 || after[0] == '(' {
            None
        } else {
            let name = trimmed(before_text(after, " ["@));
            if name.len() == 0 {
                None
            } else {
                Some((status, name))
            }
        },
    }
}

/// The text of a reported status and name.
pub open spec fn reported(r: Option<(LeafStatus, String)>) -> Option<(LeafStatus, Seq<char>)> {
    match r {
        Some((status, name)) => Some((status, name@)),
        None => None,
    }
}

fn rest_after_mark<'a>(t: &'a str, mark: char, word: &str) -> (r: &'a str)
    ensures
        r@ == after_mark(t@, mark, word@),
{
    let rest = trim(trim_start_matches(t, mark));
    match strip_prefix(rest, word) {
        Some(r) => r,
        None => rest,
    }
}

pub fn parse_status_result_line(trimmed: &str) -> (r: Option<(LeafStatus, String)>)
    ensures
        reported(r) == status_line(trimmed@),
{
    let (status, after): (LeafStatus, &str) = if let Some(rest) = strip_prefix(trimmed, "Passed ") {
        (LeafStatus::Passed, rest)
    } else if let Some(rest) = strip_prefix(trimmed, "Failed ") {
        (LeafStatus::Failed, rest)
    } else if let Some(rest) = strip_prefix(trimmed, "Skipped ") {
        (LeafStatus::Skipped, rest)
    } else if starts_with_char(trimmed, '✓') {
        (LeafStatus::Passed, rest_after_mark(trimmed, '✓', "Passed "))
    } else if starts_with_char(trimmed, '✗') {
        (LeafStatus::Failed, rest_after_mark(trimmed, '✗', "Failed "))
    } else if starts_with_char(trimmed, '⚠') {
        (LeafStatus::Skipped, rest_after_mark(trimmed, '⚠', "Skipped "))
    } else {
        return None;
    };
    assert(status_and_rest(trimmed@) == Some((status, after@)));
    if after.is_empty() || starts_with_char(after, '(') {
        return None;
    }
    let name = trim(before_part(after, " ["));
    if name.is_empty() {
        return None;
    }
    Some((status, name.to_owned()))
}

/// A trimmed line that belongs to the summary at the end of a run. `lower` is
/// the line in lowercase.
pub open spec fn is_summary_line(t: Seq<char>, lower: Seq<char>) -> bool {
    ||| "total tests:"@.is_prefix_of(lower)
    ||| "passed:"@.is_prefix_of(lower)
    ||| "failed:"@.is_prefix_of(lower)
    ||| "skipped:"@.is_prefix_of(lower)
    ||| (t.len() > 0 && t[0] == '━')
    ||| "Test Run Summary"@.is_prefix_of(t)
}

pub fn summary_line(trimmed: &str, lower: &str) -> (r: bool)
    ensures
        r == is_summary_line(trimmed@, lower@),
{
    starts_with(lower, "total tests:") || starts_with(lower, "passed:") || starts_with(
        lower,
        "failed:",
    ) || starts_with(lower, "skipped:") || starts_with_char(trimmed, '━') || starts_with(
        trimmed,
        "Test Run Summary",
    )
}

/// The line by which the runner reports a test: the outcome as a word, the name,
/// and in brackets how long it took.
pub open spec fn result_line(status: LeafStatus, name: Seq<char>, time: Seq<char>) -> Seq<char> {
    let word = match status {
        LeafStatus::Passed => "Passed "@,
        LeafStatus::Failed => "Failed "@,
        LeafStatus::Skipped => "Skipped "@,
    };
    word + (name + (" ["@ + time))
}

/// The name of a test that a result line can carry: it is not blank at either
/// end, does not start with a parenthesis and holds no ` [`.
pub open spec fn is_plain_name(name: Seq<char>) -> bool {
    &&& name.len() > 0
    &&& trimmed(name) == name
    &&& name[0] != '('
    &&& !has_text(name, " ["@)
}

/// A result line is read back as the outcome and the name that it was made from.
pub proof fn law_result_lines_are_read_back(
    status: LeafStatus,
    name: Seq<char>,
    time: Seq<char>,
)
    requires
        is_plain_name(name),
    ensures
        status_line(result_line(status, name, time)) == Some((status, name)),
{
    reveal_strlit("Passed ");
    reveal_strlit("Failed ");
    reveal_strlit("Skipped ");
    reveal_strlit(" [");
    let line = result_line(status, name, time);
    let after = name + (" ["@ + time);
    assert(line[0] == match status {
        LeafStatus::Passed => 'P',
        LeafStatus::Failed => 'F',
        LeafStatus::Skipped => 'S',
    });
    let word = line.take(line.len() - after.len());
    assert(word.is_prefix_of(line));
    assert(line.skip(word.len() as int) =~= after);
    match status {
        LeafStatus::Passed => {
            assert(word =~= "Passed "@);
        },
        LeafStatus::Failed => {
            assert(word =~= "Failed "@);
            assert(!"Passed "@.is_prefix_of(line));
        },
        LeafStatus::Skipped => {
            assert(word =~= "Skipped "@);
            assert(!"Passed "@.is_prefix_of(line));
            assert(!"Failed "@.is_prefix_of(line));
        },
    }
    assert(status_and_rest(line) == Some((status, after)));
    let n = name.len() as int;
    assert(after.subrange(n, n + 2) =~= " ["@);
    assert(occurs_at(after, " ["@, n));
    assert forall|k: int| k < n implies !occurs_at(after, " ["@, k) by {
        if occurs_at(after, " ["@, k) {
            assert(after.subrange(k, k + 2)[1] == '[');
            if k + 2 <= n {
                assert(name.subrange(k, k + 2) =~= after.subrange(k, k + 2));
                assert(occurs_at(name, " ["@, k));
            } else {
                assert(after[n] == ' ');
            }
        }
    }
    assert(first_occurrence(after, " ["@, n));
    let at = choose|k: int| first_occurrence(after, " ["@, k);
    assert(at == n);
    assert(after.take(n) =~= name);
    assert(before_text(after, " ["@) == name);
}

} // verus!
