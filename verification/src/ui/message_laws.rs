//! What the lines say that sum up a run, a churn and the titles: the numbers in
//! them are those of the session.

use vstd::prelude::*;

use crate::numerals::{decimal, signed_decimal};
use crate::text::{has_text, trimmed};
use crate::text_laws::law_parts_are_found;
use crate::ui::churn::{banner_text, elapsed_text, greatest, least, mean, stats_line};
use crate::ui::config::ViewMode;
use crate::ui::overlay_keys::saved_text;
use crate::ui::presets::{error_message, PresetErrorView};
use crate::ui::rows::{counts_text, follow_mark, output_title, tests_title};
use crate::ui::run_events::{
    completion_lines, count_part, exit_line, failure_lines, finish_text, outcome_text,
    summary_text,
};
use crate::ui::session::{clock_text, RunState, SessionView};
use crate::ui::tally::Tally;
use crate::ui::tree_keys::stop_lines;

verus! {

/// The number that the line ends with.
pub open spec fn ends_with_number(line: Seq<char>, n: nat) -> bool {
    (" "@ + decimal(n)).is_suffix_of(line)
}

/// A text holds each of its parts, together with what stands right before and
/// behind it.
proof fn lemma_between(
    a: Seq<char>,
    n: Seq<char>,
    b: Seq<char>,
    x: Seq<char>,
    y: Seq<char>,
)
    requires
        x.is_suffix_of(a),
        y.is_prefix_of(b),
    ensures
        has_text(a + n + b, x + n + y),
{
    let head = a.take(a.len() - x.len());
    let tail = b.skip(y.len() as int);
    law_parts_are_found(head, x + n + y, tail);
    assert(a =~= head + x);
    assert(b =~= y + tail);
    assert(a + n + b =~= head + (x + n + y) + tail);
}

proof fn lemma_counted(
    a: Seq<char>,
    bar: Seq<char>,
    mark: Seq<char>,
    n: Seq<char>,
    word: Seq<char>,
    b: Seq<char>,
)
    ensures
        has_text(a + (bar + mark + n + word) + b, n + word),
{
    law_parts_are_found(a + (bar + mark), n + word, b);
    assert(a + (bar + mark + n + word) + b =~= a + (bar + mark) + (n + word) + b);
}

proof fn lemma_six_parts(
    o: Seq<char>,
    n: Seq<char>,
    t: Seq<char>,
    p: Seq<char>,
    f: Seq<char>,
    k: Seq<char>,
)
    ensures
        o + n + t + p + f + k == o + n + (t + p + f + k),
        o + n + t + p + f + k == (o + n + t) + p + (f + k),
        o + n + t + p + f + k == (o + n + t + p) + f + k,
        o + n + t + p + f + k == (o + n + t + p + f) + k + Seq::empty(),
        t.is_prefix_of(t + p + f + k),
        p.len() == 0 && f.len() == 0 && k.len() == 0 ==> t.is_suffix_of(o + n + t + p + f + k),
{
    let s = o + n + t + p + f + k;
    assert(s =~= o + n + (t + p + f + k));
    assert(s =~= (o + n + t) + p + (f + k));
    assert(s =~= (o + n + t + p + f) + k + Seq::empty());
    assert(t =~= (t + p + f + k).subrange(0, t.len() as int));
    if p.len() == 0 && f.len() == 0 && k.len() == 0 {
        assert(t =~= s.subrange(s.len() - t.len(), s.len() as int));
    }
}

proof fn lemma_assoc(a: Seq<char>, b: Seq<char>, c: Seq<char>)
    ensures
        a + b + c == a + (b + c),
{
    assert(a + b + c =~= a + (b + c));
}

proof fn lemma_suffix(a: Seq<char>, x: Seq<char>)
    ensures
        x.is_suffix_of(a + x),
        x.is_prefix_of(x + a),
{
    assert(x =~= (a + x).subrange(a.len() as int, (a + x).len() as int));
    assert(x =~= (x + a).subrange(0, x.len() as int));
}

// ---------------------------------------------------------------------------
// A run
// ---------------------------------------------------------------------------
/// The summary of a run tells the total, and of each outcome how many tests had
/// it, if any had.
pub proof fn law_summary_tells_the_outcomes(c: Tally)
    ensures
        has_text(
            summary_text(c),
            "("@ + decimal((c.passed + c.failed + c.skipped) as nat) + " total)"@,
        ),
        c.passed > 0 ==> has_text(summary_text(c), decimal(c.passed as nat) + " Passed"@),
        c.failed > 0 ==> has_text(summary_text(c), decimal(c.failed as nat) + " Failed"@),
        c.skipped > 0 ==> has_text(summary_text(c), decimal(c.skipped as nat) + " Skipped"@),
        c.passed == 0 && c.failed == 0 && c.skipped == 0 ==> " total)"@.is_suffix_of(
            summary_text(c),
        ),
{
    let sum = decimal((c.passed + c.failed + c.skipped) as nat);
    let p = count_part("✓ "@, c.passed, " Passed"@);
    let f = count_part("✗ "@, c.failed, " Failed"@);
    let k = count_part("⚠ "@, c.skipped, " Skipped"@);
    let open = "  Test Run Summary ("@;
    let t = " total)"@;
    lemma_six_parts(open, sum, t, p, f, k);
    assert("("@.is_suffix_of(open)) by {
        reveal_strlit("  Test Run Summary (");
        reveal_strlit("(");
        assert("("@ =~= open.subrange(open.len() - 1, open.len() as int));
    }
    lemma_between(open, sum, t + p + f + k, "("@, t);
    let head = open + sum + t;
    lemma_counted(head, "  |  "@, "✓ "@, decimal(c.passed as nat), " Passed"@, f + k);
    lemma_counted(head + p, "  |  "@, "✗ "@, decimal(c.failed as nat), " Failed"@, k);
    lemma_counted(
        head + p + f,
        "  |  "@,
        "⚠ "@,
        decimal(c.skipped as nat),
        " Skipped"@,
        Seq::empty(),
    );
}

/// The last line of a run ends with the time that it took, and tells the exit code
/// unless it is zero or missing.
pub proof fn law_end_tells_code_and_time(code: Option<i32>, time: Seq<char>)
    ensures
        (" "@ + time).is_suffix_of(finish_text(code, time)),
        code is Some && code->0 != 0 ==> has_text(
            finish_text(code, time),
            " "@ + signed_decimal(code->0 as int) + " "@,
        ),
        code is Some ==> (" "@ + signed_decimal(code->0 as int)).is_suffix_of(exit_line(code)),
        finish_text(Some(0), time) != finish_text(None, time),
{
    reveal_strlit(" ");
    reveal_strlit("  Finished successfully in ");
    reveal_strlit("  Finished with exit code ");
    reveal_strlit(" in ");
    reveal_strlit("  Process terminated after ");
    reveal_strlit("  Last run exit code: ");
    let s = finish_text(code, time);
    let t = " "@ + time;
    assert(t =~= s.subrange(s.len() - t.len(), s.len() as int));
    assert(finish_text(Some(0), time)[2] == 'F');
    assert(finish_text(None, time)[2] == 'P');
    if code is Some {
        let n = signed_decimal(code->0 as int);
        let l = exit_line(code);
        let e = " "@ + n;
        assert(e =~= l.subrange(l.len() - e.len(), l.len() as int));
        if code->0 != 0 {
            let a = "  Finished with exit code "@.drop_last();
            let b = " in "@.drop_first() + time;
            law_parts_are_found(a, " "@ + n + " "@, b);
            assert(s =~= a + (" "@ + n + " "@) + b);
        }
    }
}

/// An outcome is followed by the time since the start.
pub proof fn law_outcomes_tell_the_time(mark: Seq<char>, r: RunState, now: u128)
    ensures
        mark.is_prefix_of(outcome_text(mark, r, now)),
        has_text(outcome_text(mark, r, now), "("@ + clock_text(r.started, now) + ")"@),
        r.started is Some && r.started->0 <= now ==> clock_text(r.started, now) == elapsed_text(
            (now - r.started->0) as u128,
        ),
        r.started is None ==> clock_text(r.started, now).len() == 0,
{
    let time = clock_text(r.started, now);
    lemma_suffix(" ("@ + time + ")"@, mark);
    assert(outcome_text(mark, r, now) =~= mark + (" ("@ + time + ")"@));
    assert("("@.is_suffix_of(mark + " ("@)) by {
        reveal_strlit(" (");
        reveal_strlit("(");
        let s = mark + " ("@;
        assert("("@ =~= s.subrange(s.len() - 1, s.len() as int));
    }
    lemma_suffix(Seq::empty(), ")"@);
    assert(")"@ + Seq::<char>::empty() =~= ")"@);
    lemma_between(mark + " ("@, time, ")"@, "("@, ")"@);
}

// ---------------------------------------------------------------------------
// A churn
// ---------------------------------------------------------------------------
/// The durations are summed up by their mean, their least and their greatest.
pub proof fn law_stats_tell_the_durations(durations: Seq<u128>)
    ensures
        stats_line(durations) is Some <==> durations.len() > 0,
        stats_line(durations) is Some ==> {
            let line = stats_line(durations)->0;
            &&& has_text(line, "avg "@ + elapsed_text(mean(durations)) + " "@)
            &&& has_text(line, "min "@ + elapsed_text(least(durations)) + " "@)
            &&& ("max "@ + elapsed_text(greatest(durations))).is_suffix_of(line)
        },
{
    if durations.len() > 0 {
        reveal_strlit(" ");
        reveal_strlit("avg ");
        reveal_strlit("min ");
        reveal_strlit("max ");
        reveal_strlit("  Duration stats: avg ");
        reveal_strlit("  |  min ");
        reveal_strlit("  |  max ");
        let line = stats_line(durations)->0;
        let avg = elapsed_text(mean(durations));
        let min = elapsed_text(least(durations));
        let max = elapsed_text(greatest(durations));
        let a = "  Duration stats: avg "@;
        let b = "  |  min "@;
        let c = "  |  max "@;
        let a1 = a.take(18);
        law_parts_are_found(a1, "avg "@ + avg + " "@, b.drop_first() + min + c + max);
        assert(a =~= a1 + "avg "@);
        assert(line =~= a1 + ("avg "@ + avg + " "@) + (b.drop_first() + min + c + max));
        let b1 = b.take(5);
        assert(b =~= b1 + "min "@);
        law_parts_are_found(a + avg + b1, "min "@ + min + " "@, c.drop_first() + max);
        assert(line =~= a + avg + b1 + ("min "@ + min + " "@) + (c.drop_first() + max));
        let e = "max "@ + max;
        assert(e =~= line.subrange(line.len() - e.len(), line.len() as int));
    }
}

proof fn lemma_number_line(before: Seq<char>, n: nat)
    requires
        before.len() > 0,
        before.last() == ' ',
    ensures
        ends_with_number(before + decimal(n), n),
{
    reveal_strlit(" ");
    let line = before + decimal(n);
    let tail = " "@ + decimal(n);
    assert(tail =~= line.subrange(line.len() - tail.len(), line.len() as int));
}

/// However a churn ends, it tells how many iterations were successful: at its
/// limit, at a failure, or stopped.
pub proof fn law_churns_tell_their_successes(s: SessionView, code: Option<i32>, now: u128)
    ensures
        ends_with_number(completion_lines(s)[3], s.churn.successes as nat),
        ends_with_number(failure_lines(s, code, now)[4], s.churn.successes as nat),
        s.churn.active ==> ends_with_number(stop_lines(s, now)[2], s.churn.successes as nat),
{
    let n = s.churn.successes as nat;
    assert("  Successful iterations: "@.last() == ' ') by {
        reveal_strlit("  Successful iterations: ");
    }
    assert("  Successful iterations before failure: "@.last() == ' ') by {
        reveal_strlit("  Successful iterations before failure: ");
    }
    assert("  Successful iterations before stop: "@.last() == ' ') by {
        reveal_strlit("  Successful iterations before stop: ");
    }
    assert("  Successful iterations: "@.len() > 0) by {
        reveal_strlit("  Successful iterations: ");
    }
    assert("  Successful iterations before failure: "@.len() > 0) by {
        reveal_strlit("  Successful iterations before failure: ");
    }
    assert("  Successful iterations before stop: "@.len() > 0) by {
        reveal_strlit("  Successful iterations before stop: ");
    }
    lemma_number_line("  Successful iterations: "@, n);
    lemma_number_line("  Successful iterations before failure: "@, n);
    lemma_number_line("  Successful iterations before stop: "@, n);
}

/// A churn that ends tells its durations; one that failed also tells the exit
/// code.
pub proof fn law_churns_tell_their_durations(s: SessionView, code: Option<i32>, now: u128)
    ensures
        failure_lines(s, code, now).contains(exit_line(code)),
        stats_line(s.durations) is Some ==> {
            &&& completion_lines(s).contains(stats_line(s.durations)->0)
            &&& failure_lines(s, code, now).contains(stats_line(s.durations)->0)
            &&& s.churn.active ==> stop_lines(s, now).contains(stats_line(s.durations)->0)
        },
{
    let lines = failure_lines(s, code, now);
    assert(lines[lines.len() - 2] == exit_line(code));
    if stats_line(s.durations) is Some {
        let line = stats_line(s.durations)->0;
        assert(completion_lines(s)[4] == line);
        assert(lines[5] == line);
        if s.churn.active {
            assert(stop_lines(s, now)[3] == line);
        }
    }
}

/// A churn that failed tells at which iteration.
pub proof fn law_failed_churns_tell_the_iteration(s: SessionView, code: Option<i32>, now: u128)
    ensures
        (decimal(s.churn.iteration as nat) + "."@).is_suffix_of(failure_lines(s, code, now)[3]),
{
    let a = "  Churn stopped on failure at iteration "@;
    let n = decimal(s.churn.iteration as nat);
    lemma_suffix(a, n + "."@);
    assert(failure_lines(s, code, now)[3] == a + n + "."@);
    lemma_assoc(a, n, "."@);
}

/// A banner tells the iteration, and then what happened to it.
pub proof fn law_banners_tell_the_iteration(iteration: usize, what: Seq<char>)
    ensures
        has_text(banner_text(iteration, what), " "@ + decimal(iteration as nat) + " "@),
        what.is_suffix_of(banner_text(iteration, what)),
{
    reveal_strlit(" ");
    reveal_strlit("Iteration ");
    reveal_strlit("   ");
    let s = banner_text(iteration, what);
    let n = decimal(iteration as nat);
    let a = "Iteration "@.drop_last();
    let b = "   "@.drop_first() + what;
    law_parts_are_found(a, " "@ + n + " "@, b);
    assert(s =~= a + (" "@ + n + " "@) + b);
    assert(what =~= s.subrange(s.len() - what.len(), s.len() as int));
}

// ---------------------------------------------------------------------------
// Titles and messages
// ---------------------------------------------------------------------------
/// The title over the tests tells how many of how many are checked.
pub proof fn law_title_tells_the_checked(selected: nat, all: nat)
    ensures
        has_text(tests_title(selected, all), "("@ + decimal(selected) + "/"@ + decimal(all) + ")"@),
{
    let part = decimal(selected) + "/"@ + decimal(all);
    assert("("@.is_suffix_of(" Tests ("@) && ")"@.is_prefix_of(") "@)) by {
        reveal_strlit(" Tests (");
        reveal_strlit("(");
        reveal_strlit(") ");
        reveal_strlit(")");
        assert("("@ =~= " Tests ("@.subrange(7, 8));
        assert(")"@ =~= ") "@.subrange(0, 1));
    }
    lemma_between(" Tests ("@, part, ") "@, "("@, ")"@);
    assert("("@ + part + ")"@ =~= "("@ + decimal(selected) + "/"@ + decimal(all) + ")"@);
    assert(" Tests ("@ + part + ") "@ =~= tests_title(selected, all));
}

/// Each count of outcomes stands behind its own mark.
pub proof fn law_counts_tell_the_outcomes(c: Tally, gap: Seq<char>)
    ensures
        ("✓:"@ + decimal(c.passed as nat)).is_prefix_of(counts_text(c, gap)),
        has_text(counts_text(c, gap), "✗:"@ + decimal(c.failed as nat)),
        ("⚠:"@ + decimal(c.skipped as nat)).is_suffix_of(counts_text(c, gap)),
{
    let s = counts_text(c, gap);
    let p = "✓:"@ + decimal(c.passed as nat);
    let f = "✗:"@ + decimal(c.failed as nat);
    let k = "⚠:"@ + decimal(c.skipped as nat);
    assert(s =~= p + gap + f + (gap + k));
    law_parts_are_found(p + gap, f, gap + k);
    assert(p =~= s.subrange(0, p.len() as int));
    assert(k =~= s.subrange(s.len() - k.len(), s.len() as int));
}

/// The title of the output tells the counts and whether the end is followed;
/// among the results it tells which leaf is shown.
pub proof fn law_title_tells_what_is_shown(s: SessionView, now: u128)
    ensures
        s.config.view_mode == ViewMode::Results && s.last_focus is Some ==> has_text(
            output_title(s, now),
            s.last_focus->0,
        ),
        s.config.view_mode == ViewMode::LiveOutput && !s.rediscovery.active ==> has_text(
            output_title(s, now),
            counts_text(s.run.tally, "  "@),
        ) && has_text(
            output_title(s, now),
            if s.follow {
                "[follow]"@
            } else {
                "[scroll]"@
            },
        ),
{
    let t = output_title(s, now);
    if s.config.view_mode == ViewMode::Results {
        if s.last_focus is Some {
            let key = s.last_focus->0;
            law_parts_are_found(t.take(t.len() - key.len() - " "@.len()), key, " "@);
            assert(t =~= t.take(t.len() - key.len() - " "@.len()) + key + " "@);
        }
    } else if !s.rediscovery.active {
        let counts = counts_text(s.run.tally, "  "@);
        let mark = follow_mark(s.follow);
        let a = t.take(t.len() - counts.len() - " "@.len());
        law_parts_are_found(a, counts, " "@);
        assert(t =~= a + counts + " "@);
        let tail = "  |  "@ + counts + " "@;
        let b = t.take(t.len() - tail.len() - mark.len());
        law_parts_are_found(b, mark, tail);
        assert(t =~= b + mark + tail);
    }
}

/// A preset that was saved is named, with the number of presets; a name that is
/// taken is named too.
pub proof fn law_presets_are_named(name: Seq<char>, n: nat)
    ensures
        has_text(saved_text(name, n), trimmed(name)),
        has_text(saved_text(name, n), " "@ + decimal(n) + "."@),
        has_text(error_message(PresetErrorView::NameTaken(name)), name),
{
    let s = saved_text(name, n);
    let t = trimmed(name);
    let open = "✓ Preset '"@;
    let mid = "' saved. Total presets: "@;
    law_parts_are_found(open, t, mid + decimal(n) + "."@);
    assert(s =~= open + t + (mid + decimal(n) + "."@));
    assert(" "@.is_suffix_of(open + t + mid)) by {
        reveal_strlit(" ");
        reveal_strlit("' saved. Total presets: ");
        let a = open + t + mid;
        assert(" "@ =~= a.subrange(a.len() - 1, a.len() as int));
    }
    lemma_suffix(Seq::empty(), "."@);
    assert("."@ + Seq::<char>::empty() =~= "."@);
    lemma_between(open + t + mid, decimal(n), "."@, " "@, "."@);
    law_parts_are_found("Preset '"@, name, "' already exists."@);
}

} // verus!
