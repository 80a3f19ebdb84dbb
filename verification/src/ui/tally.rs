//! Counting outcomes while the output of a run comes in.

use vstd::prelude::*;

use crate::numerals::{numeral_value, opt_nat, parse_count};
use crate::text::{
    after_part, after_text, chars_of, is_digit, starts_with, starts_with_char, string_of,
    trim_start, trim_start_of,
};

verus! {

/// How many tests passed, failed and were skipped so far.
#[derive(Clone, Copy, Debug, PartialEq, Eq, Structural)]
pub struct Tally {
    pub passed: usize,
    pub failed: usize,
    pub skipped: usize,
}

pub open spec fn no_outcomes() -> Tally {
    Tally { passed: 0, failed: 0, skipped: 0 }
}

/// The ASCII digits that a text begins with.
pub open spec fn leading_digits(s: Seq<char>) -> Seq<char>
    decreases s.len(),
{
    if s.len() == 0 || !is_digit(s[0]) {
        Seq::empty()
    } else {
        seq![s[0]] + leading_digits(s.drop_first())
    }
}

/// The number that stands behind the first `label`.
pub open spec fn labelled_count(lower: Seq<char>, label: Seq<char>) -> Option<nat> {
    match after_text(lower, label) {
        Some(rest) => numeral_value(leading_digits(trim_start_of(rest)), usize::MAX as nat),
        None => None,
    }
}

pub fn take_digits(s: &str) -> (r: String)
    ensures
        r@ == leading_digits(s@),
{
    let v = chars_of(s);
    let mut i: usize = 0;
    assert(v@.skip(0) =~= s@);
    assert(v@.take(0) + leading_digits(v@.skip(0)) =~= leading_digits(s@));
    while i < v.len() && '0' <= v[i] && v[i] <= '9'
        invariant
            v@ == s@,
            i <= v@.len(),
            leading_digits(s@) == v@.take(i as int) + leading_digits(v@.skip(i as int)),
        decreases v@.len() - i,
    {
        assert(v@.skip(i as int).drop_first() =~= v@.skip(i + 1));
        assert(v@.take(i as int) + (seq![v@[i as int]] + leading_digits(v@.skip(i + 1)))
            =~= v@.take(i + 1) + leading_digits(v@.skip(i + 1)));
        i += 1;
    }
    assert(leading_digits(v@.skip(i as int)) =~= Seq::<char>::empty());
    assert(v@.take(i as int) =~= v@.subrange(0, i as int));
    assert(leading_digits(s@) =~= v@.take(i as int));
    string_of(&v, 0, i)
}

pub fn count_after(lower: &str, label: &str) -> (r: Option<usize>)
    ensures
        opt_nat(r) == labelled_count(lower@, label@),
{
    match after_part(lower, label) {
        Some(rest) => parse_count(take_digits(trim_start(rest)).as_str()),
        None => None,
    }
}

pub open spec fn begins_with_char(s: Seq<char>, c: char) -> bool {
    s.len() > 0 && s[0] == c
}

pub open spec fn reports_pass(t: Seq<char>) -> bool {
    "Passed "@.is_prefix_of(t) || begins_with_char(t, '✓')
}

pub open spec fn reports_failure(t: Seq<char>) -> bool {
    !reports_pass(t) && ("Failed "@.is_prefix_of(t) || begins_with_char(t, '✗'))
}

pub open spec fn reports_skip(t: Seq<char>) -> bool {
    !reports_pass(t) && !reports_failure(t) && ("Skipped "@.is_prefix_of(t) || begins_with_char(
        t,
        '⚠',
    ))
}

/// One count after a line: a label in the line sets it, and where there is none,
/// a line that reports such an outcome adds one.
pub open spec fn count_with(count: usize, one_more: bool, labelled: Option<nat>) -> usize {
    match labelled {
        Some(n) => n as usize,
        None => if one_more {
            (count + 1) as usize
        } else {
            count
        },
    }
}

/// The counts after one line more. `t` is the trimmed line, `lower` the same in
/// lowercase.
pub open spec fn tallied(c: Tally, t: Seq<char>, lower: Seq<char>) -> Tally {
    Tally {
        passed: count_with(c.passed, reports_pass(t), labelled_count(lower, "passed:"@)),
        failed: count_with(c.failed, reports_failure(t), labelled_count(lower, "failed:"@)),
        skipped: count_with(c.skipped, reports_skip(t), labelled_count(lower, "skipped:"@)),
    }
}

/// The outcome that a line reports, if it does, can be counted.
pub open spec fn has_room_for(c: Tally, t: Seq<char>) -> bool {
    &&& reports_pass(t) ==> c.passed < usize::MAX
    &&& reports_failure(t) ==> c.failed < usize::MAX
    &&& reports_skip(t) ==> c.skipped < usize::MAX
}

/// The outcomes can be added up.
pub open spec fn adds_up(c: Tally) -> bool {
    c.passed + c.failed + c.skipped <= usize::MAX
}

impl Tally {
    pub fn new() -> (r: Self)
        ensures
            r == no_outcomes(),
    {
        Tally { passed: 0, failed: 0, skipped: 0 }
    }

    /// Whether the outcome that a line reports can be counted.
    pub fn room_for(self, trimmed_line: &str) -> (r: bool)
        ensures
            r == has_room_for(self, trimmed_line@),
    {
        if starts_with(trimmed_line, "Passed ") || starts_with_char(trimmed_line, '✓') {
            self.passed < usize::MAX
        } else if starts_with(trimmed_line, "Failed ") || starts_with_char(trimmed_line, '✗') {
            self.failed < usize::MAX
        } else if starts_with(trimmed_line, "Skipped ") || starts_with_char(trimmed_line, '⚠') {
            self.skipped < usize::MAX
        } else {
            true
        }
    }

    /// How many outcomes there are, if a machine word holds it.
    pub fn sum(self) -> (r: Option<usize>)
        ensures
            r == if adds_up(self) {
                Some((self.passed + self.failed + self.skipped) as usize)
            } else {
                None
            },
    {
        match self.passed.checked_add(self.failed) {
            Some(n) => n.checked_add(self.skipped),
            None => None,
        }
    }

    /// The counts after one line more; `lower` is the trimmed line in lowercase.
    pub fn after_line(self, trimmed_line: &str, lower: &str) -> (r: Self)
        requires
            has_room_for(self, trimmed_line@),
        ensures
            r == tallied(self, trimmed_line@, lower@),
    {
        let mut c = self;
        if starts_with(trimmed_line, "Passed ") || starts_with_char(trimmed_line, '✓') {
            c.passed = c.passed + 1;
        } else if starts_with(trimmed_line, "Failed ") || starts_with_char(trimmed_line, '✗') {
            c.failed = c.failed + 1;
        } else if starts_with(trimmed_line, "Skipped ") || starts_with_char(trimmed_line, '⚠') {
            c.skipped = c.skipped + 1;
        }
        match count_after(lower, "passed:") {
            Some(n) => {
                c.passed = n;
            },
            None => {},
        }
        match count_after(lower, "failed:") {
            Some(n) => {
                c.failed = n;
            },
            None => {},
        }
        match count_after(lower, "skipped:") {
            Some(n) => {
                c.skipped = n;
            },
            None => {},
        }
        c
    }
}

/// A line without any of the labels changes at most one count, and by one.
pub proof fn law_unlabelled_lines_count_once(c: Tally, t: Seq<char>, lower: Seq<char>)
    requires
        has_room_for(c, t),
        labelled_count(lower, "passed:"@) is None,
        labelled_count(lower, "failed:"@) is None,
        labelled_count(lower, "skipped:"@) is None,
    ensures
        ({
            let d = tallied(c, t, lower);
            let more = (d.passed - c.passed) + (d.failed - c.failed) + (d.skipped - c.skipped);
            &&& more == 0 || more == 1
            &&& d.passed >= c.passed && d.failed >= c.failed && d.skipped >= c.skipped
        }),
{
}

} // verus!
