//! What the lines of a run come to: counts, outcomes of tests, and failures with
//! their details.

use vstd::prelude::*;

use crate::domain::ancestry::is_ancestor;
use crate::domain::tree::NodeView;
use crate::numerals::{all_digits, decimal, law_numeral_round_trip, lemma_decimal_digits};
use crate::text::{
    first_occurrence, has_text, is_digit, is_white_space, trim_start_of,
    trimmed,
};
use crate::text_laws::{is_blank, law_first_part_cuts};
use crate::ui::attribution::{has_leaf_named, law_exact_key_wins};
use crate::ui::console::{
    is_plain_name, law_result_lines_are_read_back, result_line, status_and_rest,
    status_line,
};
use crate::ui::failed_tests::{
    ends_details, failure_in, failure_is_open, failures_of, name_key, FailedView,
};
use crate::ui::leaf_results::{LeafResultView, LeafStatus};
use crate::ui::run_results::{
    closed_pending, ingested, last_leaf, lemma_plain_name_has_a_key, lies_below,
    outcomes_below, panel_lines, Recorded,
};
use crate::ui::tally::{has_room_for, labelled_count, leading_digits, tallied, Tally};
use crate::unicode::lowercase;

verus! {

// ---------------------------------------------------------------------------
// Lines without an outcome
// ---------------------------------------------------------------------------
/// The line begins like one that reports a test.
pub open spec fn begins_like_a_report(t: Seq<char>) -> bool {
    t.len() > 0 && (t[0] == 'P' || t[0] == 'F' || t[0] == 'S' || t[0] == '✓' || t[0] == '✗' || t[0]
        == '⚠')
}

proof fn lemma_no_word(t: Seq<char>)
    requires
        !begins_like_a_report(t),
    ensures
        !"Passed "@.is_prefix_of(t),
        !"Failed "@.is_prefix_of(t),
        !"Skipped "@.is_prefix_of(t),
{
    reveal_strlit("Passed ");
    reveal_strlit("Failed ");
    reveal_strlit("Skipped ");
    if "Passed "@.is_prefix_of(t) {
        assert(t.subrange(0, 7)[0] == "Passed "@[0]);
    }
    if "Failed "@.is_prefix_of(t) {
        assert(t.subrange(0, 7)[0] == "Failed "@[0]);
    }
    if "Skipped "@.is_prefix_of(t) {
        assert(t.subrange(0, 8)[0] == "Skipped "@[0]);
    }
}

/// A line that begins with none of the words and none of the marks reports no
/// test and counts nothing.
pub proof fn law_other_lines_report_nothing(c: Tally, t: Seq<char>, lower: Seq<char>)
    requires
        !begins_like_a_report(t),
        !has_text(lower, "passed:"@),
        !has_text(lower, "failed:"@),
        !has_text(lower, "skipped:"@),
    ensures
        status_line(t) is None,
        tallied(c, t, lower) == c,
{
    lemma_no_word(t);
}

// ---------------------------------------------------------------------------
// Counts
// ---------------------------------------------------------------------------
/// A line that reports a test adds one to the count of its outcome, and to no
/// other.
pub proof fn law_reports_are_counted(
    c: Tally,
    status: LeafStatus,
    name: Seq<char>,
    time: Seq<char>,
    lower: Seq<char>,
)
    requires
        has_room_for(c, result_line(status, name, time)),
        !has_text(lower, "passed:"@),
        !has_text(lower, "failed:"@),
        !has_text(lower, "skipped:"@),
    ensures
        ({
            let d = tallied(c, result_line(status, name, time), lower);
            match status {
                LeafStatus::Passed => d.passed == c.passed + 1 && d.failed == c.failed && d.skipped
                    == c.skipped,
                LeafStatus::Failed => d.passed == c.passed && d.failed == c.failed + 1 && d.skipped
                    == c.skipped,
                LeafStatus::Skipped => d.passed == c.passed && d.failed == c.failed && d.skipped
                    == c.skipped + 1,
            }
        }),
{
    reveal_strlit("Passed ");
    reveal_strlit("Failed ");
    reveal_strlit("Skipped ");
    let t = result_line(status, name, time);
    match status {
        LeafStatus::Passed => {
            assert(t.subrange(0, 7) =~= "Passed "@);
        },
        LeafStatus::Failed => {
            assert(t.subrange(0, 7) =~= "Failed "@);
            assert(t[0] == 'F');
            if "Passed "@.is_prefix_of(t) {
                assert(t.subrange(0, 7)[0] == 'P');
            }
        },
        LeafStatus::Skipped => {
            assert(t.subrange(0, 8) =~= "Skipped "@);
            assert(t[0] == 'S');
            if "Passed "@.is_prefix_of(t) {
                assert(t.subrange(0, 7)[0] == 'P');
            }
            if "Failed "@.is_prefix_of(t) {
                assert(t.subrange(0, 7)[0] == 'F');
            }
        },
    }
}

pub proof fn lemma_leading_digits(digits: Seq<char>, rest: Seq<char>)
    requires
        all_digits(digits),
        rest.len() > 0 ==> !is_digit(rest[0]),
    ensures
        leading_digits(digits + rest) == digits,
    decreases digits.len(),
{
    let s = digits + rest;
    if digits.len() == 0 {
        assert(s =~= rest);
        assert(digits =~= Seq::<char>::empty());
    } else {
        assert(is_digit(digits[0]));
        assert(s[0] == digits[0]);
        assert(s.drop_first() =~= digits.drop_first() + rest);
        assert forall|i: int| 0 <= i < digits.drop_first().len() implies is_digit(
            #[trigger] digits.drop_first()[i],
        ) by {
            assert(is_digit(digits[i + 1]));
        }
        lemma_leading_digits(digits.drop_first(), rest);
        assert(seq![digits[0]] + digits.drop_first() =~= digits);
    }
}

proof fn lemma_skip_blanks(blanks: Seq<char>, s: Seq<char>)
    requires
        is_blank(blanks),
        s.len() > 0 ==> !is_white_space(s[0]),
    ensures
        trim_start_of(blanks + s) == s,
    decreases blanks.len(),
{
    if blanks.len() == 0 {
        assert(blanks + s =~= s);
    } else {
        assert(is_white_space(blanks[0]));
        assert((blanks + s)[0] == blanks[0]);
        assert((blanks + s).drop_first() =~= blanks.drop_first() + s);
        assert forall|i: int| 0 <= i < blanks.drop_first().len() implies is_white_space(
            #[trigger] blanks.drop_first()[i],
        ) by {
            assert(is_white_space(blanks[i + 1]));
        }
        lemma_skip_blanks(blanks.drop_first(), s);
    }
}

/// The number behind a label is the number that is read.
pub proof fn law_labelled_numbers_are_read(
    lower: Seq<char>,
    label: Seq<char>,
    at: int,
    blanks: Seq<char>,
    n: nat,
    rest: Seq<char>,
)
    requires
        first_occurrence(lower, label, at),
        is_blank(blanks),
        n <= usize::MAX,
        rest.len() > 0 ==> !is_digit(rest[0]),
        lower.skip(at + label.len()) == blanks + (decimal(n) + rest),
    ensures
        labelled_count(lower, label) == Some(n),
{
    law_first_part_cuts(lower, label, at);
    lemma_decimal_digits(n);
    let tail = decimal(n) + rest;
    assert(is_digit(decimal(n)[0]));
    assert(tail[0] == decimal(n)[0]);
    lemma_skip_blanks(blanks, tail);
    lemma_leading_digits(decimal(n), rest);
    law_numeral_round_trip(n, usize::MAX as nat);
}

/// A number behind a label sets the count of that label, whatever it was; a
/// count whose label is not there is set by no number.
pub proof fn law_summaries_set_the_counts(c: Tally, t: Seq<char>, lower: Seq<char>, n: nat)
    requires
        n <= usize::MAX,
        !begins_like_a_report(t),
    ensures
        ({
            let d = tallied(c, t, lower);
            &&& labelled_count(lower, "passed:"@) == Some(n) ==> d.passed == n
            &&& labelled_count(lower, "failed:"@) == Some(n) ==> d.failed == n
            &&& labelled_count(lower, "skipped:"@) == Some(n) ==> d.skipped == n
            &&& !has_text(lower, "passed:"@) ==> d.passed == c.passed
            &&& !has_text(lower, "failed:"@) ==> d.failed == c.failed
            &&& !has_text(lower, "skipped:"@) ==> d.skipped == c.skipped
        }),
{
    lemma_no_word(t);
}

// ---------------------------------------------------------------------------
// Outcomes of leaves
// ---------------------------------------------------------------------------
/// A line that reports a test records its outcome, without details yet, for the
/// leaf with its key; the failure before it is closed with what was collected.
pub proof fn law_reports_are_recorded(
    s: Recorded,
    line: Seq<char>,
    lower: Seq<char>,
    t: Seq<NodeView>,
    status: LeafStatus,
    name: Seq<char>,
    key: Seq<char>,
    time: Seq<char>,
)
    requires
        is_plain_name(name),
        name_key(name) == key,
        has_leaf_named(t, key),
        trimmed(line) == result_line(status, name, time),
    ensures
        ({
            let before = match s.pending {
                Some((open, details)) => s.results.insert(
                    open,
                    LeafResultView { status: LeafStatus::Failed, details },
                ),
                None => s.results,
            };
            let after = ingested(s, line, lower, t);
            &&& after.results == before.insert(
                key,
                LeafResultView { status, details: Seq::empty() },
            )
            &&& after.pending == if status == LeafStatus::Failed {
                Some((key, Seq::<Seq<char>>::empty()))
            } else {
                None
            }
        }),
{
    law_result_lines_are_read_back(status, name, time);
    lemma_plain_name_has_a_key(name);
    law_exact_key_wins(t, name, closed_pending(s).results);
    assert(trimmed(line).len() > 0);
}

/// A line that reports nothing and ends nothing changes no outcome; while a
/// failure is open it is one of its details, as it stands.
pub proof fn law_other_lines_are_details(s: Recorded, line: Seq<char>, t: Seq<NodeView>)
    requires
        is_plain_line(line),
    ensures
        ({
            let after = ingested(s, line, lowercase(trimmed(line)), t);
            &&& after.results == s.results
            &&& after.pending == match s.pending {
                Some((key, details)) => Some((key, details.push(line))),
                None => None,
            }
        }),
{
}

/// The line begins like one of the summary that ends a run.
pub open spec fn begins_like_a_summary(t: Seq<char>) -> bool {
    let low = lowercase(t);
    ||| "total tests:"@.is_prefix_of(low)
    ||| "passed:"@.is_prefix_of(low)
    ||| "failed:"@.is_prefix_of(low)
    ||| "skipped:"@.is_prefix_of(low)
    ||| "Test Run Summary"@.is_prefix_of(t)
    ||| t.len() > 0 && t[0] == '━'
}

/// The summary closes the failure that is open, with what was collected.
pub proof fn law_summary_closes_the_failure(
    s: Recorded,
    line: Seq<char>,
    t: Seq<NodeView>,
    key: Seq<char>,
    details: Seq<Seq<char>>,
)
    requires
        s.pending == Some((key, details)),
        trimmed(line).len() > 0,
        status_line(trimmed(line)) is None,
        begins_like_a_summary(trimmed(line)),
    ensures
        ({
            let after = ingested(s, line, lowercase(trimmed(line)), t);
            &&& after.pending is None
            &&& after.results == s.results.insert(
                key,
                LeafResultView { status: LeafStatus::Failed, details },
            )
        }),
{
}

/// What is shown for a test: its outcome and its key, and below them a blank
/// line and the details, if there are any; nothing for a test without outcome.
pub proof fn law_panel_shows_the_details(
    results: Map<Seq<char>, LeafResultView>,
    key: Seq<char>,
)
    ensures
        ({
            let lines = panel_lines(results, key);
            &&& lines.len() == 0 <==> !results.dom().contains(key)
            &&& results.dom().contains(key) ==> {
                let r = results[key];
                &&& status_and_rest(lines[0]) == Some((r.status, key))
                &&& r.details.len() == 0 ==> lines.len() == 1
                &&& r.details.len() > 0 ==> lines[1].len() == 0 && lines.skip(2) == r.details
            }
        }),
{
    if results.dom().contains(key) {
        let r = results[key];
        let lines = panel_lines(results, key);
        lemma_word_and_rest(r.status, key);
        if r.details.len() > 0 {
            assert(lines.skip(2) =~= r.details);
        }
    }
}

proof fn lemma_word_and_rest(status: LeafStatus, key: Seq<char>)
    ensures
        status_and_rest(
            match status {
                LeafStatus::Passed => "Passed "@,
                LeafStatus::Failed => "Failed "@,
                LeafStatus::Skipped => "Skipped "@,
            } + key,
        ) == Some((status, key)),
{
    reveal_strlit("Passed ");
    reveal_strlit("Failed ");
    reveal_strlit("Skipped ");
    let word = match status {
        LeafStatus::Passed => "Passed "@,
        LeafStatus::Failed => "Failed "@,
        LeafStatus::Skipped => "Skipped "@,
    };
    let line = word + key;
    assert(line.subrange(0, word.len() as int) =~= word);
    assert(line.skip(word.len() as int) =~= key);
    assert(line[0] == word[0]);
    if status != LeafStatus::Passed && "Passed "@.is_prefix_of(line) {
        assert(line.subrange(0, 7)[0] == 'P');
    }
    if status == LeafStatus::Skipped && "Failed "@.is_prefix_of(line) {
        assert(line.subrange(0, 7)[0] == 'F');
    }
}

// ---------------------------------------------------------------------------
// Failures in the output
// ---------------------------------------------------------------------------
/// The line belongs to no test and to no summary.
pub open spec fn is_plain_line(line: Seq<char>) -> bool {
    trimmed(line).len() > 0 ==> status_line(trimmed(line)) is None && !begins_like_a_summary(
        trimmed(line),
    )
}

proof fn lemma_failure_goes_on(lines: Seq<Seq<char>>, details: Seq<Seq<char>>)
    requires
        failure_is_open(lines),
        failures_of(lines).len() > 0,
        forall|i: int| 0 <= i < details.len() ==> is_plain_line(#[trigger] details[i]),
    ensures
        failure_is_open(lines + details),
        failures_of(lines + details) == failures_of(lines).drop_last().push(
            FailedView {
                name: failures_of(lines).last().name,
                details: failures_of(lines).last().details + details,
            },
        ),
    decreases details.len(),
{
    let before = failures_of(lines);
    if details.len() == 0 {
        assert(lines + details =~= lines);
        assert(before.last().details + details =~= before.last().details);
        assert(before.drop_last().push(before.last()) =~= before);
    } else {
        let init = details.drop_last();
        assert forall|i: int| 0 <= i < init.len() implies is_plain_line(#[trigger] init[i]) by {
            assert(is_plain_line(details[i]));
        }
        lemma_failure_goes_on(lines, init);
        let all = lines + details;
        assert(all.drop_last() =~= lines + init);
        assert(all.last() == details.last());
        assert(is_plain_line(details[details.len() - 1]));
        assert(failure_in(all.last()) is None);
        assert(!ends_details(all.last()));
        let so_far = failures_of(lines + init);
        assert(so_far.drop_last() =~= before.drop_last());
        assert((before.last().details + init).push(details.last()) =~= before.last().details
            + details);
    }
}

/// A line that reports a failed test starts a failure of that name, and its
/// details are the lines up to the next that reports a test or belongs to the
/// summary. What was there before stays.
pub proof fn law_failures_have_the_lines_between(
    lines: Seq<Seq<char>>,
    report: Seq<char>,
    details: Seq<Seq<char>>,
    name: Seq<char>,
    time: Seq<char>,
)
    requires
        is_plain_name(name),
        trimmed(report) == result_line(LeafStatus::Failed, name, time),
        forall|i: int| 0 <= i < details.len() ==> is_plain_line(#[trigger] details[i]),
    ensures
        failures_of(lines + seq![report] + details) == failures_of(lines).push(
            FailedView { name, details },
        ),
{
    law_result_lines_are_read_back(LeafStatus::Failed, name, time);
    let opened = lines + seq![report];
    assert(opened.drop_last() =~= lines);
    assert(opened.last() == report);
    assert(trimmed(report).len() > 0);
    assert(failures_of(opened) == failures_of(lines).push(
        FailedView { name, details: Seq::empty() },
    ));
    lemma_failure_goes_on(opened, details);
    assert(failures_of(opened).drop_last() =~= failures_of(lines));
    assert(Seq::<Seq<char>>::empty() + details =~= details);
}

/// A line of the summary, or one that reports a test that did not fail, adds no
/// failure, and the lines behind it are no details.
pub proof fn law_failures_end(
    lines: Seq<Seq<char>>,
    line: Seq<char>,
    more: Seq<Seq<char>>,
)
    requires
        trimmed(line).len() > 0,
        match status_line(trimmed(line)) {
            Some((status, name)) => status != LeafStatus::Failed,
            None => begins_like_a_summary(trimmed(line)),
        },
        forall|i: int| 0 <= i < more.len() ==> is_plain_line(#[trigger] more[i]),
    ensures
        failures_of(lines + seq![line] + more) == failures_of(lines),
        !failure_is_open(lines + seq![line] + more),
    decreases more.len(),
{
    let all = lines + seq![line] + more;
    if more.len() == 0 {
        assert(all.drop_last() =~= lines);
        assert(all.last() == line);
    } else {
        let init = more.drop_last();
        assert forall|i: int| 0 <= i < init.len() implies is_plain_line(#[trigger] init[i]) by {
            assert(is_plain_line(more[i]));
        }
        law_failures_end(lines, line, init);
        assert(all.drop_last() =~= lines + seq![line] + init);
        assert(all.last() == more.last());
        assert(is_plain_line(more[more.len() - 1]));
    }
}

// ---------------------------------------------------------------------------
// Sums for folders
// ---------------------------------------------------------------------------
proof fn lemma_last_leaf(t: Seq<NodeView>, key: Seq<char>, i: int)
    requires
        0 <= i < t.len(),
        t[i].is_leaf,
        t[i].fqn == Some(key),
        forall|j: int|
            0 <= j < t.len() && j != i && (#[trigger] t[j]).is_leaf ==> t[j].fqn != Some(key),
    ensures
        last_leaf(t, key) == Some(i),
    decreases t.len(),
{
    if i < t.len() - 1 {
        assert(t[t.len() - 1].is_leaf ==> t[t.len() - 1].fqn != Some(key));
        let init = t.drop_last();
        assert forall|j: int|
            0 <= j < init.len() && j != i && (#[trigger] init[j]).is_leaf implies init[j].fqn
            != Some(key) by {
            assert(t[j].is_leaf);
        }
        lemma_last_leaf(init, key, i);
    }
}

/// An outcome more adds one to the sum of its kind in every folder that the leaf
/// lies below, and changes no other sum.
pub proof fn law_outcomes_add_up(
    t: Seq<NodeView>,
    results: Map<Seq<char>, LeafResultView>,
    key: Seq<char>,
    r: LeafResultView,
    i: int,
    p: int,
    status: LeafStatus,
)
    requires
        results.dom().finite(),
        !results.dom().contains(key),
        0 <= i < t.len(),
        t[i].is_leaf,
        t[i].fqn == Some(key),
        forall|j: int|
            0 <= j < t.len() && j != i && (#[trigger] t[j]).is_leaf ==> t[j].fqn != Some(key),
    ensures
        outcomes_below(t, Map::empty(), p, status) == 0,
        outcomes_below(t, results.insert(key, r), p, status) == outcomes_below(
            t,
            results,
            p,
            status,
        ) + if r.status == status && is_ancestor(t, p, i) {
            1nat
        } else {
            0
        },
{
    lemma_last_leaf(t, key, i);
    let none = Map::<Seq<char>, LeafResultView>::empty();
    assert(none.dom().filter(
        |k: Seq<char>| none[k].status == status && lies_below(t, p, k),
    ) =~= Set::empty());
    let more = results.insert(key, r);
    let a = results.dom().filter(
        |k: Seq<char>| results[k].status == status && lies_below(t, p, k),
    );
    let b = more.dom().filter(|k: Seq<char>| more[k].status == status && lies_below(t, p, k));
    if r.status == status && is_ancestor(t, p, i) {
        assert(b =~= a.insert(key));
        assert(!a.contains(key));
    } else {
        assert(b =~= a);
    }
}

} // verus!
