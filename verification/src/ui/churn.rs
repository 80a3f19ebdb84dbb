//! Churning: running the same tests again and again until one fails.

use vstd::prelude::*;

use crate::numerals::{
    all_digits, count_text, decimal, decimal_of, law_numeral_round_trip, lemma_decimal_digits,
    numeral_value, opt_nat, parse_count,
};
use crate::text::{
    after_prefix, chars_of, concat, contains, first_index, has_text, index_of_char, is_digit,
    lemma_first_index, occurs_at, opt_text, starts_with, string_of, strip_prefix, texts,
};

verus! {

/// Iterations of a quick churn.
pub const QUICK_CHURN_LIMIT: usize = 100;

/// Lines of output that are kept while churning.
pub const CHURN_OUTPUT_TAIL_LINES: usize = 400;

pub const CHURN_OUTPUT_OMITTED_MARKER: &'static str = "  ... older churn output omitted ...";

// ---------------------------------------------------------------------------
// Durations
// ---------------------------------------------------------------------------
pub const NANOS_PER_TENTH: u128 = 100_000_000;

/// A time in nanoseconds, in tenths of a second, rounded to the nearest.
pub open spec fn tenths(nanos: u128) -> nat {
    ((nanos + 50_000_000) / 100_000_000) as nat
}

/// A duration as it is shown: seconds with one decimal.
pub open spec fn elapsed_text(nanos: u128) -> Seq<char> {
    decimal(tenths(nanos) / 10) + "."@ + decimal(tenths(nanos) % 10) + "s"@
}

pub fn format_elapsed(nanos: u128) -> (r: String)
    ensures
        r@ == elapsed_text(nanos),
{
    let whole: u128 = nanos / NANOS_PER_TENTH;
    let rest: u128 = nanos % NANOS_PER_TENTH;
    let rounded: u128 = if rest >= 50_000_000 {
        whole + 1
    } else {
        whole
    };
    assert(rounded == tenths(nanos)) by (nonlinear_arith)
        requires
            whole == nanos / 100_000_000,
            rest == nanos % 100_000_000,
            rounded == (if rest >= 50_000_000 {
                whole + 1
            } else {
                whole as int
            }),
    {
        assert(nanos == whole * 100_000_000 + rest);
        assert((nanos + 50_000_000) / 100_000_000 == rounded);
    }
    let mut s = decimal_of(rounded / 10);
    s.append(".");
    let tenth = decimal_of(rounded % 10);
    s.append(tenth.as_str());
    s.append("s");
    s
}

pub open spec fn total(durations: Seq<u128>) -> nat
    decreases durations.len(),
{
    if durations.len() == 0 {
        0
    } else {
        total(durations.drop_last()) + durations.last() as nat
    }
}

pub open spec fn is_least(d: u128, durations: Seq<u128>) -> bool {
    durations.contains(d) && forall|i: int|
        0 <= i < durations.len() ==> d <= #[trigger] durations[i]
}

pub open spec fn is_greatest(d: u128, durations: Seq<u128>) -> bool {
    durations.contains(d) && forall|i: int|
        0 <= i < durations.len() ==> #[trigger] durations[i] <= d
}

pub open spec fn least(durations: Seq<u128>) -> u128 {
    choose|d: u128| is_least(d, durations)
}

pub open spec fn greatest(durations: Seq<u128>) -> u128 {
    choose|d: u128| is_greatest(d, durations)
}

/// The mean duration, as far as a clock of 64 bits can hold it.
pub open spec fn mean(durations: Seq<u128>) -> u128 {
    let m = total(durations) / durations.len();
    if m > u64::MAX {
        u64::MAX as u128
    } else {
        m as u128
    }
}

/// The line that sums up the durations of the iterations, if there were any.
pub open spec fn stats_line(durations: Seq<u128>) -> Option<Seq<char>> {
    if durations.len() == 0 {
        None
    } else {
        Some(
            "  Duration stats: avg "@ + elapsed_text(mean(durations)) + "  |  min "@ + elapsed_text(
                least(durations),
            ) + "  |  max "@ + elapsed_text(greatest(durations)),
        )
    }
}

pub proof fn lemma_total_grows(durations: Seq<u128>, n: int)
    requires
        0 <= n <= durations.len(),
    ensures
        total(durations.take(n)) <= total(durations),
    decreases durations.len(),
{
    if n < durations.len() {
        lemma_total_grows(durations.drop_last(), n);
        assert(durations.drop_last().take(n) =~= durations.take(n));
    } else {
        assert(durations.take(n) =~= durations);
    }
}

pub fn churn_duration_stats_line(durations: &Vec<u128>) -> (r: Option<String>)
    requires
        total(durations@) <= u128::MAX,
    ensures
        opt_text(r) == stats_line(durations@),
{
    if durations.len() == 0 {
        return None;
    }
    let mut min: u128 = durations[0];
    let mut max: u128 = durations[0];
    let mut sum: u128 = durations[0];
    let mut i: usize = 1;
    proof {
        let one = durations@.take(1);
        assert(one.drop_last() =~= Seq::<u128>::empty());
        assert(total(one) == total(one.drop_last()) + one.last() as nat);
        assert(total(Seq::<u128>::empty()) == 0);
        assert(one[0] == durations@[0]);
    }
    while i < durations.len()
        invariant
            1 <= i <= durations@.len(),
            total(durations@) <= u128::MAX,
            is_least(min, durations@.take(i as int)),
            is_greatest(max, durations@.take(i as int)),
            sum == total(durations@.take(i as int)),
        decreases durations@.len() - i,
    {
        let d: u128 = durations[i];
        let ghost before = durations@.take(i as int);
        let ghost after = durations@.take(i + 1);
        proof {
            assert(after.drop_last() =~= before);
            assert(after.last() == d);
            lemma_total_grows(durations@, i + 1);
        }
        sum = sum + d;
        let ghost old_min = min;
        let ghost old_max = max;
        if d < min {
            min = d;
        }
        if d > max {
            max = d;
        }
        proof {
            let a = choose|a: int| 0 <= a < before.len() && before[a] == old_min;
            let b = choose|b: int| 0 <= b < before.len() && before[b] == old_max;
            assert(after[a] == old_min && after[b] == old_max && after[i as int] == d);
            assert forall|k: int| 0 <= k < after.len() implies min <= #[trigger] after[k]
                && after[k] <= max by {
                if k < i {
                    assert(before[k] == after[k]);
                }
            }
        }
        i += 1;
    }
    proof {
        assert(durations@.take(i as int) =~= durations@);
        let l = least(durations@);
        assert(is_least(l, durations@));
        assert(l == min);
        let g = greatest(durations@);
        assert(is_greatest(g, durations@));
        assert(g == max);
    }
    let count: u128 = durations.len() as u128;
    let avg: u128 = sum / count;
    let shown: u128 = if avg > u64::MAX as u128 {
        u64::MAX as u128
    } else {
        avg
    };
    let mut s = concat("  Duration stats: avg ", format_elapsed(shown).as_str());
    s.append("  |  min ");
    let min_text = format_elapsed(min);
    s.append(min_text.as_str());
    s.append("  |  max ");
    let max_text = format_elapsed(max);
    s.append(max_text.as_str());
    Some(s)
}

// ---------------------------------------------------------------------------
// Banners
// ---------------------------------------------------------------------------
/// The number of the iteration that a banner with this marker speaks of.
pub open spec fn banner_iteration(line: Seq<char>, marker: Seq<char>) -> Option<nat> {
    match after_prefix(line, "Iteration "@) {
        None => None,
        Some(rest) => {
            let at = first_index(rest, ' ');
            if at < rest.len() && has_text(rest.skip(at + 1), marker) {
                numeral_value(rest.take(at), usize::MAX as nat)
            } else {
                None
            }
        },
    }
}

pub fn parse_churn_iteration_line(line: &str, marker: &str) -> (r: Option<usize>)
    ensures
        opt_nat(r) == banner_iteration(line@, marker@),
{
    match strip_prefix(line, "Iteration ") {
        None => None,
        Some(rest) => {
            let v = chars_of(rest);
            assert(v@.skip(0) =~= rest@);
            let at: usize = index_of_char(&v, 0, ' ');
            if at == v.len() {
                return None;
            }
            let iteration = string_of(&v, 0, at);
            let suffix = string_of(&v, at + 1, v.len());
            assert(rest@.take(at as int) =~= iteration@);
            assert(rest@.skip(at + 1) =~= suffix@);
            if contains(suffix.as_str(), marker) {
                parse_count(iteration.as_str())
            } else {
                None
            }
        },
    }
}

pub open spec fn started_iteration(line: Seq<char>) -> Option<nat> {
    banner_iteration(line, "↻ Starting"@)
}

pub open spec fn passed_iteration(line: Seq<char>) -> Option<nat> {
    banner_iteration(line, "✓ Passed"@)
}

pub open spec fn failed_iteration(line: Seq<char>) -> Option<nat> {
    banner_iteration(line, "✗ Failed"@)
}

pub fn parse_churn_iteration_start_line(line: &str) -> (r: Option<usize>)
    ensures
        opt_nat(r) == started_iteration(line@),
{
    parse_churn_iteration_line(line, "↻ Starting")
}

pub fn parse_churn_iteration_passed_line(line: &str) -> (r: Option<usize>)
    ensures
        opt_nat(r) == passed_iteration(line@),
{
    parse_churn_iteration_line(line, "✓ Passed")
}

pub fn parse_churn_iteration_failed_line(line: &str) -> (r: Option<usize>)
    ensures
        opt_nat(r) == failed_iteration(line@),
{
    parse_churn_iteration_line(line, "✗ Failed")
}

/// A line that speaks of an iteration, not of a test.
pub open spec fn is_banner(line: Seq<char>) -> bool {
    started_iteration(line) is Some || passed_iteration(line) is Some || failed_iteration(line)
        is Some
}

pub fn banner(line: &str) -> (r: bool)
    ensures
        r == is_banner(line@),
{
    parse_churn_iteration_start_line(line).is_some() || parse_churn_iteration_passed_line(
        line,
    ).is_some() || parse_churn_iteration_failed_line(line).is_some()
}

/// The banner of an iteration: its number, then what became of it.
pub open spec fn banner_text(iteration: usize, what: Seq<char>) -> Seq<char> {
    "Iteration "@ + decimal(iteration as nat) + "   "@ + what
}

pub fn iteration_banner(iteration: usize, what: &str) -> (r: String)
    ensures
        r@ == banner_text(iteration, what@),
{
    let mut s = concat("Iteration ", count_text(iteration).as_str());
    s.append("   ");
    s.append(what);
    s
}

proof fn lemma_first_space(digits: Seq<char>, rest: Seq<char>)
    requires
        all_digits(digits),
        rest.len() > 0,
        rest[0] == ' ',
    ensures
        first_index(digits + rest, ' ') == digits.len(),
{
    let s = digits + rest;
    lemma_first_index(s, ' ');
    let i = first_index(s, ' ');
    if i < digits.len() {
        assert(s[i] == digits[i]);
        assert(is_digit(digits[i]));
    } else if i > digits.len() {
        assert(s[digits.len() as int] == ' ');
    }
}

/// The number of an iteration is read back from its banner.
pub proof fn law_banners_are_read_back(
    iteration: usize,
    before: Seq<char>,
    marker: Seq<char>,
    after: Seq<char>,
)
    ensures
        banner_iteration(banner_text(iteration, before + marker + after), marker) == Some(
            iteration as nat,
        ),
{
    let what = before + marker + after;
    let line = banner_text(iteration, what);
    let digits = decimal(iteration as nat);
    let tail = "   "@ + what;
    let rest = digits + tail;
    reveal_strlit("   ");
    assert(line =~= "Iteration "@ + rest);
    assert(line.skip("Iteration "@.len() as int) =~= rest);
    assert("Iteration "@.is_prefix_of(line));
    law_numeral_round_trip(iteration as nat, usize::MAX as nat);
    lemma_decimal_digits(iteration as nat);
    lemma_first_space(digits, tail);
    let at = digits.len() as int;
    assert(rest.take(at) =~= digits);
    let suffix = rest.skip(at + 1);
    let k = 2 + before.len() as int;
    assert(suffix.subrange(k, k + marker.len()) =~= marker);
    assert(occurs_at(suffix, marker, k));
}

// ---------------------------------------------------------------------------
// Keeping the output short
// ---------------------------------------------------------------------------
/// How many lines at the top are headings.
pub open spec fn heading_lines(lines: Seq<Seq<char>>) -> nat {
    if lines.len() > 1 && "  Iteration limit:"@.is_prefix_of(lines[1]) {
        2
    } else if lines.len() > 0 {
        1
    } else {
        0
    }
}

pub fn churn_output_prefix_lines(output_lines: &Vec<String>) -> (r: usize)
    ensures
        r == heading_lines(texts(output_lines@)),
{
    if output_lines.len() > 1 {
        assert(texts(output_lines@)[1] == output_lines@[1]@);
        if starts_with(output_lines[1].as_str(), "  Iteration limit:") {
            return 2;
        }
    }
    if output_lines.len() > 0 {
        1
    } else {
        0
    }
}

/// The headings and the last lines, with a mark for what was left out between
/// them.
pub open spec fn shortened(lines: Seq<Seq<char>>) -> Seq<Seq<char>> {
    let k = heading_lines(lines);
    if lines.len() <= k + CHURN_OUTPUT_TAIL_LINES {
        lines
    } else {
        lines.take(k as int).push(CHURN_OUTPUT_OMITTED_MARKER@) + lines.skip(
            lines.len() - CHURN_OUTPUT_TAIL_LINES,
        )
    }
}

pub fn trim_churn_output_lines(output_lines: &mut Vec<String>)
    ensures
        texts(final(output_lines)@) == shortened(texts(old(output_lines)@)),
{
    let ghost lines = texts(output_lines@);
    let k: usize = churn_output_prefix_lines(output_lines);
    let n: usize = output_lines.len();
    if n <= CHURN_OUTPUT_TAIL_LINES || n - CHURN_OUTPUT_TAIL_LINES <= k {
        return ;
    }
    let from: usize = n - CHURN_OUTPUT_TAIL_LINES;
    let mut tail = output_lines.split_off(from);
    output_lines.truncate(k);
    output_lines.push(CHURN_OUTPUT_OMITTED_MARKER.to_owned());
    output_lines.append(&mut tail);
    assert(texts(output_lines@) =~= shortened(lines));
}

/// However much a churn prints, its output stays short: the headings and the
/// last lines stay, and shortening twice is shortening once.
pub proof fn law_churn_output_stays_short(lines: Seq<Seq<char>>)
    ensures
        shortened(lines).len() <= CHURN_OUTPUT_TAIL_LINES + 3,
        lines.len() > 0 ==> shortened(lines)[0] == lines[0] && shortened(lines).last()
            == lines.last(),
        forall|i: int|
            0 <= i < CHURN_OUTPUT_TAIL_LINES && i < lines.len() ==> #[trigger] shortened(
                lines,
            )[shortened(lines).len() - 1 - i] == lines[lines.len() - 1 - i],
        shortened(shortened(lines)) == shortened(lines),
{
    reveal_strlit("  Iteration limit:");
    reveal_strlit("  ... older churn output omitted ...");
    let k = heading_lines(lines);
    let s = shortened(lines);
    if lines.len() > k + CHURN_OUTPUT_TAIL_LINES {
        if k == 1 {
            assert(s[1] == CHURN_OUTPUT_OMITTED_MARKER@);
            assert("  Iteration limit:"@[2] == 'I');
            assert(CHURN_OUTPUT_OMITTED_MARKER@[2] == '.');
        }
        assert(heading_lines(s) == k);
        assert(shortened(s) =~= s);
    }
}

} // verus!
