//! How a session answers to what a run reports.

use vstd::prelude::*;

use crate::numerals::{count_text, decimal, signed_decimal, signed_text};
use crate::text::{concat, trim, trimmed};
use crate::ui::actions::{Action, ActionView};
use crate::ui::churn::{
    banner, banner_text, churn_duration_stats_line, failed_iteration, is_banner, iteration_banner,
    lemma_total_grows, parse_churn_iteration_failed_line, parse_churn_iteration_passed_line,
    parse_churn_iteration_start_line, passed_iteration, shortened, started_iteration, stats_line,
    total, trim_churn_output_lines,
};
use crate::ui::config::Verbosity;
use crate::ui::failed_tests::{extract_failed_tests, failures_of};
use crate::ui::output::{RunRequest, RunRequestView};
use crate::ui::run_results::{closed_pending, ingested, lemma_rollups, recounts, rollups};
use crate::ui::session::{
    clock_text, elapsed, fills_screen, saying, show_clock, summary_opened, time_since,
    without_churn, ChurnState, Popups, RunState, Session, SessionView,
};
use crate::ui::tally::{adds_up, has_room_for, no_outcomes, tallied, Tally};
use crate::unicode::{lowercase, to_lowercase};

verus! {

/// The line above and below a summary.
pub const RULE: &'static str = "━━━━━━━━━━━━━━━━━━━━━━━━━━━━━━━━━━━━━━━━━━━━━━━━━━━━━━━━━━━━";

// ---------------------------------------------------------------------------
// A line
// ---------------------------------------------------------------------------
/// A banner of the sidecar sets the number of the iteration or of the
/// successes; one that starts an iteration also starts the clock and the counts.
pub open spec fn banner_noted(s: SessionView, t: Seq<char>, now: u128) -> SessionView {
    if started_iteration(t) is Some {
        SessionView {
            churn: ChurnState { iteration: started_iteration(t)->0 as usize, ..s.churn },
            run: RunState { started: Some(now), tally: no_outcomes(), ..s.run },
            ..s
        }
    } else if passed_iteration(t) is Some {
        SessionView {
            churn: ChurnState { successes: passed_iteration(t)->0 as usize, ..s.churn },
            ..s
        }
    } else if failed_iteration(t) is Some {
        SessionView {
            churn: ChurnState { iteration: failed_iteration(t)->0 as usize, ..s.churn },
            ..s
        }
    } else {
        s
    }
}

/// The line is attributed to a leaf, unless it is a banner. `lower` is the
/// trimmed line in lowercase.
pub open spec fn attributed(s: SessionView, line: Seq<char>, lower: Seq<char>) -> SessionView {
    if is_banner(trimmed(line)) {
        s
    } else {
        let recorded = ingested(s.recorded, line, lower, s.tree);
        SessionView {
            recorded,
            counts: if recounts(s.recorded, line, lower, s.tree) {
                rollups(s.tree, recorded.results)
            } else {
                s.counts
            },
            ..s
        }
    }
}

/// The line is added to the output, which is kept short while churning; else
/// the list of failures keeps up with it.
pub open spec fn appended(s: SessionView, line: Seq<char>) -> SessionView {
    if s.churn.active {
        SessionView { lines: shortened(s.lines.push(line)), ..s }
    } else {
        SessionView { lines: s.lines.push(line), failed: failures_of(s.lines.push(line)), ..s }
    }
}

/// The outcome that the line reports is counted.
pub open spec fn counted(s: SessionView, line: Seq<char>, lower: Seq<char>) -> SessionView {
    SessionView {
        run: RunState { tally: tallied(s.run.tally, trimmed(line), lower), ..s.run },
        ..s
    }
}

/// What the session is after one line more. `lower` is the trimmed line in
/// lowercase.
pub open spec fn after_line(
    s: SessionView,
    line: Seq<char>,
    lower: Seq<char>,
    now: u128,
) -> SessionView {
    let c = counted(s, line, lower);
    let n = if s.churn.active && s.churn.sidecar {
        banner_noted(c, trimmed(line), now)
    } else {
        c
    };
    appended(attributed(n, line, lower), line)
}

impl Session {
    fn note_banner(&mut self, t: &str, now: u128)
        requires
            old(self).wf(),
        ensures
            final(self).wf(),
            final(self)@ == banner_noted(old(self)@, t@, now),
    {
        match parse_churn_iteration_start_line(t) {
            Some(n) => {
                self.churn.iteration = n;
                self.run.started = Some(now);
                self.run.tally = Tally::new();
            },
            None => match parse_churn_iteration_passed_line(t) {
                Some(n) => {
                    self.churn.successes = n;
                },
                None => match parse_churn_iteration_failed_line(t) {
                    Some(n) => {
                        self.churn.iteration = n;
                    },
                    None => {},
                },
            },
        }
        assert(self@ =~= banner_noted(old(self)@, t@, now));
    }

    fn attribute(&mut self, line: &str, t: &str, lower: &str)
        requires
            old(self).wf(),
            t@ == trimmed(line@),
        ensures
            final(self).wf(),
            final(self)@ == attributed(old(self)@, line@, lower@),
    {
        if !banner(t) {
            self.results.ingest_with_lowercase(line, lower, self.tree.as_slice());
            proof {
                let o = old(self)@;
                if recounts(o.recorded, line@, lower@, o.tree) {
                    lemma_rollups(self.results.parent_counts@, o.tree, self.results@.results);
                }
            }
        }
        assert(self@ =~= attributed(old(self)@, line@, lower@));
    }

    fn append_line(&mut self, line: String)
        requires
            old(self).wf(),
        ensures
            final(self).wf(),
            final(self)@ == appended(old(self)@, line@),
    {
        self.say(line);
        if self.churn.active {
            trim_churn_output_lines(&mut self.lines);
        } else {
            self.failed = extract_failed_tests(&self.lines);
        }
        assert(self@ =~= appended(old(self)@, line@));
    }

    /// Whether the outcome that a line reports can be counted.
    pub fn takes_line(&self, line: &str) -> (r: bool)
        ensures
            r == has_room_for(self@.run.tally, trimmed(line@)),
    {
        self.run.tally.room_for(trim(line))
    }

    /// Takes in a line that the process printed; `lower` is the trimmed line in
    /// lowercase.
    pub fn on_line_with_lowercase(&mut self, line: String, lower: &str, now: u128)
        requires
            old(self).wf(),
            has_room_for(old(self)@.run.tally, trimmed(line@)),
        ensures
            final(self).wf(),
            final(self)@ == after_line(old(self)@, line@, lower@, now),
    {
        let t = trim(line.as_str());
        self.run.tally = self.run.tally.after_line(t, lower);
        assert(self@ =~= counted(old(self)@, line@, lower@));
        if self.churn.active && self.churn.sidecar {
            self.note_banner(t, now);
        }
        self.attribute(line.as_str(), t, lower);
        self.append_line(line);
    }

    /// Takes in a line that the process printed.
    pub fn on_line(&mut self, line: String, now: u128)
        requires
            old(self).wf(),
            has_room_for(old(self)@.run.tally, trimmed(line@)),
        ensures
            final(self).wf(),
            final(self)@ == after_line(old(self)@, line@, lowercase(trimmed(line@)), now),
    {
        let lower = to_lowercase(trim(line.as_str()));
        self.on_line_with_lowercase(line, lower.as_str(), now);
    }
}

// ---------------------------------------------------------------------------
// The end of a run
// ---------------------------------------------------------------------------
pub open spec fn opt_line(line: Option<Seq<char>>) -> Seq<Seq<char>> {
    match line {
        Some(l) => seq![l],
        None => seq![],
    }
}

/// Lines more in the output.
pub open spec fn saying_all(s: SessionView, lines: Seq<Seq<char>>) -> SessionView {
    SessionView { lines: s.lines + lines, ..s }
}

/// The run is over and its process gone.
pub open spec fn stopped(r: RunState, listening: bool) -> RunState {
    RunState { running: false, listening, pid: None, ..r }
}

/// The list of failures is taken from the output, and is shown if `show` and
/// there are any.
pub open spec fn failures_listed(s: SessionView, show: bool) -> SessionView {
    let failed = failures_of(s.lines);
    SessionView {
        failed,
        failure: if show && failed.len() > 0 {
            summary_opened(s.failure)
        } else {
            s.failure
        },
        ..s
    }
}

/// The sidecar is done.
pub open spec fn sidecar_finished(s: SessionView, code: Option<i32>) -> SessionView {
    without_churn(
        failures_listed(
            SessionView { run: stopped(s.run, false), ..s },
            code != Some(0i32),
        ),
    )
}

/// The duration of the iteration is kept.
pub open spec fn timed(s: SessionView, now: u128) -> SessionView {
    SessionView {
        durations: match elapsed(s.run.started, now) {
            Some(d) => s.durations.push(d),
            None => s.durations,
        },
        ..s
    }
}

/// What became of an iteration, with the time that it took.
pub open spec fn outcome_text(mark: Seq<char>, r: RunState, now: u128) -> Seq<char> {
    mark + " ("@ + clock_text(r.started, now) + ")"@
}

pub open spec fn limit_reached(s: SessionView) -> bool {
    s.churn.limit matches Some(limit) && s.churn.successes >= limit
}

/// The summary of a churn in which nothing failed.
pub open spec fn completion_lines(s: SessionView) -> Seq<Seq<char>> {
    seq![
        Seq::empty(),
        RULE@,
        "  Churn completed: reached iteration limit "@ + decimal(s.churn.limit->0 as nat)
            + " with no failures."@,
        "  Successful iterations: "@ + decimal(s.churn.successes as nat),
    ] + opt_line(stats_line(s.durations)) + seq![RULE@]
}

/// An iteration that passed is counted, timed and reported.
pub open spec fn success_counted(s: SessionView, now: u128) -> SessionView {
    saying(
        SessionView {
            churn: ChurnState { successes: (s.churn.successes + 1) as usize, ..s.churn },
            ..timed(s, now)
        },
        banner_text(s.churn.iteration, outcome_text("✓ Passed"@, s.run, now)),
    )
}

/// The next iteration begins.
pub open spec fn next_iteration(s: SessionView) -> SessionView {
    let iteration = (s.churn.iteration + 1) as usize;
    SessionView {
        churn: ChurnState { iteration, ..s.churn },
        run: RunState { tally: no_outcomes(), ..s.run },
        lines: shortened(s.lines.push(banner_text(iteration, "↻ Starting"@))),
        ..s
    }
}

/// How the next iteration is run: without building, and with little output.
pub open spec fn iteration_request(s: SessionView) -> RunRequestView {
    RunRequestView {
        filter: s.churn_filter,
        target_path: s.churn_target,
        no_build: true,
        no_restore: true,
        verbosity: Verbosity::Minimal,
    }
}

/// An iteration has passed: the churn is complete, goes on, or cannot.
pub open spec fn iteration_passed(s: SessionView, now: u128) -> (SessionView, ActionView) {
    let c = success_counted(s, now);
    if limit_reached(c) {
        (
            without_churn(
                SessionView {
                    run: stopped(c.run, false),
                    ..saying_all(c, completion_lines(c))
                },
            ),
            ActionView::Nothing,
        )
    } else if c.churn_filter is Some {
        (next_iteration(c), ActionView::NextIteration(iteration_request(c)))
    } else {
        (
            without_churn(
                SessionView {
                    run: stopped(c.run, false),
                    ..saying(c, "✗ Churn stopped: missing test filter for next iteration."@)
                },
            ),
            ActionView::Nothing,
        )
    }
}

pub open spec fn exit_line(code: Option<i32>) -> Seq<char> {
    match code {
        Some(c) => "  Last run exit code: "@ + signed_decimal(c as int),
        None => "  Last run terminated without an exit code"@,
    }
}

/// The summary of a churn that a failure ended.
pub open spec fn failure_lines(s: SessionView, code: Option<i32>, now: u128) -> Seq<Seq<char>> {
    seq![
        banner_text(s.churn.iteration, outcome_text("✗ Failed"@, s.run, now)),
        Seq::empty(),
        RULE@,
        "  Churn stopped on failure at iteration "@ + decimal(s.churn.iteration as nat) + "."@,
        "  Successful iterations before failure: "@ + decimal(s.churn.successes as nat),
    ] + opt_line(stats_line(s.durations)) + seq![exit_line(code), RULE@]
}

/// An iteration has failed: the churn is over.
pub open spec fn iteration_failed(s: SessionView, code: Option<i32>, now: u128) -> SessionView {
    let d = timed(s, now);
    without_churn(
        failures_listed(
            SessionView {
                run: stopped(s.run, s.run.listening),
                ..saying_all(d, failure_lines(d, code, now))
            },
            true,
        ),
    )
}

pub open spec fn count_part(mark: Seq<char>, n: usize, word: Seq<char>) -> Seq<char> {
    if n > 0 {
        "  |  "@ + mark + decimal(n as nat) + word
    } else {
        Seq::empty()
    }
}

pub open spec fn summary_text(c: Tally) -> Seq<char> {
    "  Test Run Summary ("@ + decimal((c.passed + c.failed + c.skipped) as nat) + " total)"@
        + count_part("✓ "@, c.passed, " Passed"@) + count_part("✗ "@, c.failed, " Failed"@)
        + count_part("⚠ "@, c.skipped, " Skipped"@)
}

pub open spec fn finish_text(code: Option<i32>, time: Seq<char>) -> Seq<char> {
    match code {
        Some(c) => if c == 0 {
            "  Finished successfully in "@ + time
        } else {
            "  Finished with exit code "@ + signed_decimal(c as int) + " in "@ + time
        },
        None => "  Process terminated after "@ + time,
    }
}

pub open spec fn summary_lines(s: SessionView, code: Option<i32>, now: u128) -> Seq<Seq<char>> {
    seq![
        Seq::empty(),
        RULE@,
        summary_text(s.run.tally),
        finish_text(code, clock_text(s.run.started, now)),
        RULE@,
    ]
}

/// A run that was no churn is over.
pub open spec fn run_finished(s: SessionView, code: Option<i32>, now: u128) -> SessionView {
    let recorded = closed_pending(s.recorded);
    SessionView {
        recorded,
        counts: rollups(s.tree, recorded.results),
        results_hidden: false,
        ..failures_listed(
            SessionView {
                run: stopped(s.run, s.run.listening),
                ..saying_all(s, summary_lines(s, code, now))
            },
            s.run.tally.failed > 0,
        )
    }
}

pub open spec fn after_finish(s: SessionView, code: Option<i32>, now: u128) -> (
    SessionView,
    ActionView,
) {
    if s.churn.active {
        if s.churn.sidecar {
            (sidecar_finished(s, code), ActionView::Nothing)
        } else if code == Some(0i32) {
            iteration_passed(s, now)
        } else {
            (iteration_failed(s, code, now), ActionView::Nothing)
        }
    } else {
        (run_finished(s, code, now), ActionView::SaveResults)
    }
}

/// The numbers that the end of a run changes or adds up fit their types.
pub open spec fn can_finish(s: SessionView, code: Option<i32>, now: u128) -> bool {
    if !s.churn.active {
        adds_up(s.run.tally)
    } else if s.churn.sidecar {
        true
    } else {
        &&& total(timed(s, now).durations) <= u128::MAX
        &&& code == Some(0i32) ==> s.churn.successes < usize::MAX && s.churn.iteration
            < usize::MAX
    }
}

/// A text with a number in it.
pub fn numbered(before: &str, n: usize, after: &str) -> (r: String)
    ensures
        r@ == before@ + decimal(n as nat) + after@,
{
    let mut s = concat(before, count_text(n).as_str());
    s.append(after);
    s
}

pub fn say_outcome(mark: &str, r: RunState, now: u128) -> (t: String)
    ensures
        t@ == outcome_text(mark@, r, now),
{
    let mut s = concat(mark, " (");
    let time = show_clock(r.started, now);
    s.append(time.as_str());
    s.append(")");
    s
}

fn append_count(s: &mut String, mark: &str, n: usize, word: &str)
    ensures
        final(s)@ == old(s)@ + count_part(mark@, n, word@),
{
    if n > 0 {
        let mut part = concat("  |  ", mark);
        let number = count_text(n);
        part.append(number.as_str());
        part.append(word);
        s.append(part.as_str());
    } else {
        assert(s@ + count_part(mark@, n, word@) =~= s@);
    }
}

pub fn run_summary(c: Tally) -> (r: String)
    requires
        adds_up(c),
    ensures
        r@ == summary_text(c),
{
    let sum: usize = c.passed + c.failed + c.skipped;
    let mut s = numbered("  Test Run Summary (", sum, " total)");
    append_count(&mut s, "✓ ", c.passed, " Passed");
    append_count(&mut s, "✗ ", c.failed, " Failed");
    append_count(&mut s, "⚠ ", c.skipped, " Skipped");
    s
}

fn finish_line(code: Option<i32>, time: &str) -> (r: String)
    ensures
        r@ == finish_text(code, time@),
{
    match code {
        Some(c) => {
            if c == 0 {
                concat("  Finished successfully in ", time)
            } else {
                let mut s = concat("  Finished with exit code ", signed_text(c).as_str());
                s.append(" in ");
                s.append(time);
                s
            }
        },
        None => concat("  Process terminated after ", time),
    }
}

fn exit_code_line(code: Option<i32>) -> (r: String)
    ensures
        r@ == exit_line(code),
{
    match code {
        Some(c) => concat("  Last run exit code: ", signed_text(c).as_str()),
        None => "  Last run terminated without an exit code".to_owned(),
    }
}

impl Session {
    /// Whether the durations, with that of this iteration, can be added up.
    fn durations_fit(&self, now: u128) -> (r: bool)
        requires
            self.wf(),
        ensures
            r == (total(timed(self@, now).durations) <= u128::MAX),
    {
        let mut sum: u128 = 0;
        let mut i: usize = 0;
        assert(self.durations@.take(0) =~= Seq::<u128>::empty());
        while i < self.durations.len()
            invariant
                self.wf(),
                i <= self.durations@.len(),
                sum == total(self.durations@.take(i as int)),
            decreases self.durations@.len() - i,
        {
            proof {
                assert(self.durations@.take(i + 1).drop_last() =~= self.durations@.take(i as int));
                lemma_total_grows(self.durations@, i + 1);
            }
            sum = sum + self.durations[i];
            i += 1;
        }
        assert(self.durations@.take(i as int) =~= self.durations@);
        match time_since(self.run.started, now) {
            Some(d) => {
                assert(self.durations@.push(d).drop_last() =~= self.durations@);
                d <= u128::MAX - sum
            },
            None => true,
        }
    }

    /// Whether the numbers that the end of a run changes fit their types.
    pub fn ready_to_finish(&self, code: Option<i32>, now: u128) -> (r: bool)
        requires
            self.wf(),
        ensures
            r == can_finish(self@, code, now),
    {
        if !self.churn.active {
            return self.run.tally.sum().is_some();
        }
        if self.churn.sidecar {
            return true;
        }
        let passed = match code {
            Some(c) => c == 0,
            None => false,
        };
        self.durations_fit(now) && (!passed || (self.churn.successes < usize::MAX
            && self.churn.iteration < usize::MAX))
    }

    pub fn say_stats(&mut self)
        requires
            old(self).wf(),
        ensures
            final(self).wf(),
            final(self)@ == saying_all(old(self)@, opt_line(stats_line(old(self)@.durations))),
    {
        match churn_duration_stats_line(&self.durations) {
            Some(line) => {
                self.say(line);
                assert(self@ =~= saying_all(
                    old(self)@,
                    opt_line(stats_line(old(self)@.durations)),
                ));
            },
            None => {
                assert(self@ =~= saying_all(
                    old(self)@,
                    opt_line(stats_line(old(self)@.durations)),
                ));
            },
        }
    }

    fn list_failures(&mut self, show: bool)
        requires
            old(self).wf(),
        ensures
            final(self).wf(),
            final(self)@ == failures_listed(old(self)@, show),
    {
        self.failed = extract_failed_tests(&self.lines);
        if show && self.failed.len() > 0 {
            self.failure.shown = true;
            self.failure.selection = 0;
            self.failure.scroll = 0;
            self.failure.hover = None;
        }
        assert(self@ =~= failures_listed(old(self)@, show));
    }

    pub fn stop_run(&mut self, listening: bool)
        requires
            old(self).wf(),
        ensures
            final(self).wf(),
            final(self)@ == (SessionView { run: stopped(old(self)@.run, listening), ..old(self)@ }),
    {
        self.run.running = false;
        self.run.listening = listening;
        self.run.pid = None;
        assert(self@ =~= SessionView { run: stopped(old(self)@.run, listening), ..old(self)@ });
    }

    fn time_iteration(&mut self, now: u128)
        requires
            old(self).wf(),
            total(timed(old(self)@, now).durations) <= u128::MAX,
        ensures
            final(self).wf(),
            final(self)@ == timed(old(self)@, now),
    {
        match time_since(self.run.started, now) {
            Some(d) => {
                self.durations.push(d);
            },
            None => {},
        }
        assert(self@ =~= timed(old(self)@, now));
    }
}

impl Session {
    fn finish_sidecar(&mut self, code: Option<i32>)
        requires
            old(self).wf(),
        ensures
            final(self).wf(),
            final(self)@ == sidecar_finished(old(self)@, code),
    {
        let failed_run = match code {
            Some(c) => c != 0,
            None => true,
        };
        self.stop_run(false);
        self.list_failures(failed_run);
        self.end_churn();
    }

    fn count_success(&mut self, now: u128)
        requires
            old(self).wf(),
            total(timed(old(self)@, now).durations) <= u128::MAX,
            old(self)@.churn.successes < usize::MAX,
        ensures
            final(self).wf(),
            final(self)@ == success_counted(old(self)@, now),
    {
        self.time_iteration(now);
        self.churn.successes = self.churn.successes + 1;
        let outcome = say_outcome("✓ Passed", self.run, now);
        self.say(iteration_banner(self.churn.iteration, outcome.as_str()));
        assert(self@ =~= success_counted(old(self)@, now));
    }

    fn say_completion(&mut self, limit: usize)
        requires
            old(self).wf(),
            old(self)@.churn.limit == Some(limit),
        ensures
            final(self).wf(),
            final(self)@ == saying_all(old(self)@, completion_lines(old(self)@)),
    {
        self.say(String::new());
        self.say_text(RULE);
        self.say(
            numbered("  Churn completed: reached iteration limit ", limit, " with no failures."),
        );
        self.say(concat("  Successful iterations: ", count_text(self.churn.successes).as_str()));
        self.say_stats();
        self.say_text(RULE);
        assert(self@ =~= saying_all(old(self)@, completion_lines(old(self)@)));
    }

    fn begin_iteration(&mut self)
        requires
            old(self).wf(),
            old(self)@.churn.iteration < usize::MAX,
        ensures
            final(self).wf(),
            final(self)@ == next_iteration(old(self)@),
    {
        self.churn.iteration = self.churn.iteration + 1;
        self.run.tally = Tally::new();
        self.say(iteration_banner(self.churn.iteration, "↻ Starting"));
        trim_churn_output_lines(&mut self.lines);
        assert(self@ =~= next_iteration(old(self)@));
    }

    fn pass_iteration(&mut self, now: u128) -> (r: Action)
        requires
            old(self).wf(),
            total(timed(old(self)@, now).durations) <= u128::MAX,
            old(self)@.churn.successes < usize::MAX,
            old(self)@.churn.iteration < usize::MAX,
        ensures
            final(self).wf(),
            (final(self)@, r@) == iteration_passed(old(self)@, now),
    {
        self.count_success(now);
        let limit: Option<usize> = match self.churn.limit {
            Some(limit) => if self.churn.successes >= limit {
                Some(limit)
            } else {
                None
            },
            None => None,
        };
        match limit {
            Some(limit) => {
                self.say_completion(limit);
                self.stop_run(false);
                self.end_churn();
                return Action::Nothing;
            },
            None => {},
        }
        let filter = match &self.churn_filter {
            Some(filter) => filter.clone(),
            None => {
                self.say_text("✗ Churn stopped: missing test filter for next iteration.");
                self.stop_run(false);
                self.end_churn();
                return Action::Nothing;
            },
        };
        let request = RunRequest {
            filter: Some(filter),
            target_path: match &self.churn_target {
                Some(t) => Some(t.clone()),
                None => None,
            },
            no_build: true,
            no_restore: true,
            verbosity: Verbosity::Minimal,
        };
        assert(request@ =~= iteration_request(self@));
        self.begin_iteration();
        Action::NextIteration(request)
    }

    fn say_failure(&mut self, code: Option<i32>, now: u128)
        requires
            old(self).wf(),
            total(old(self)@.durations) <= u128::MAX,
        ensures
            final(self).wf(),
            final(self)@ == saying_all(old(self)@, failure_lines(old(self)@, code, now)),
    {
        let outcome = say_outcome("✗ Failed", self.run, now);
        self.say(iteration_banner(self.churn.iteration, outcome.as_str()));
        self.say(String::new());
        self.say_text(RULE);
        self.say(
            numbered("  Churn stopped on failure at iteration ", self.churn.iteration, "."),
        );
        self.say(
            concat(
                "  Successful iterations before failure: ",
                count_text(self.churn.successes).as_str(),
            ),
        );
        self.say_stats();
        self.say(exit_code_line(code));
        self.say_text(RULE);
        assert(self@ =~= saying_all(old(self)@, failure_lines(old(self)@, code, now)));
    }

    fn fail_iteration(&mut self, code: Option<i32>, now: u128)
        requires
            old(self).wf(),
            total(timed(old(self)@, now).durations) <= u128::MAX,
        ensures
            final(self).wf(),
            final(self)@ == iteration_failed(old(self)@, code, now),
    {
        self.time_iteration(now);
        self.say_failure(code, now);
        let listening = self.run.listening;
        self.stop_run(listening);
        self.list_failures(true);
        self.end_churn();
    }

    fn finish_run(&mut self, code: Option<i32>, now: u128)
        requires
            old(self).wf(),
            adds_up(old(self)@.run.tally),
        ensures
            final(self).wf(),
            final(self)@ == run_finished(old(self)@, code, now),
    {
        let time = show_clock(self.run.started, now);
        self.say(String::new());
        self.say_text(RULE);
        self.say(run_summary(self.run.tally));
        self.say(finish_line(code, time.as_str()));
        self.say_text(RULE);
        assert(self@ =~= saying_all(old(self)@, summary_lines(old(self)@, code, now)));
        let listening = self.run.listening;
        self.stop_run(listening);
        let any_failed = self.run.tally.failed > 0;
        self.list_failures(any_failed);
        self.results.finalize_pending(self.tree.as_slice());
        proof {
            lemma_rollups(
                self.results.parent_counts@,
                old(self)@.tree,
                closed_pending(old(self)@.recorded).results,
            );
        }
        self.results_hidden = false;
        assert(self@ =~= run_finished(old(self)@, code, now));
    }

    /// The process has ended.
    pub fn on_finished(&mut self, code: Option<i32>, now: u128) -> (r: Action)
        requires
            old(self).wf(),
            can_finish(old(self)@, code, now),
        ensures
            final(self).wf(),
            (final(self)@, r@) == after_finish(old(self)@, code, now),
    {
        if self.churn.active {
            if self.churn.sidecar {
                self.finish_sidecar(code);
                Action::Nothing
            } else {
                let passed = match code {
                    Some(c) => c == 0,
                    None => false,
                };
                if passed {
                    self.pass_iteration(now)
                } else {
                    self.fail_iteration(code, now);
                    Action::Nothing
                }
            }
        } else {
            self.finish_run(code, now);
            Action::SaveResults
        }
    }
}

// ---------------------------------------------------------------------------
// Starting, and losing, a process
// ---------------------------------------------------------------------------
/// A run has started.
pub open spec fn run_started(s: SessionView, pid: u32, now: u128) -> SessionView {
    SessionView {
        run: RunState {
            running: true,
            listening: true,
            pid: Some(pid),
            started: Some(now),
            tally: no_outcomes(),
        },
        popups: Popups { fullscreen: fills_screen(s.config), ..s.popups },
        ..s
    }
}

/// The next iteration of a churn has started.
pub open spec fn iteration_started(s: SessionView, pid: u32, now: u128) -> SessionView {
    SessionView {
        run: RunState {
            running: true,
            listening: true,
            pid: Some(pid),
            started: Some(now),
            ..s.run
        },
        ..s
    }
}

/// The next iteration of a churn could not be started.
pub open spec fn iteration_refused(s: SessionView, error: Seq<char>) -> SessionView {
    without_churn(
        SessionView {
            run: stopped(s.run, false),
            ..saying(
                s,
                "✗ Could not start churn iteration "@ + decimal(s.churn.iteration as nat) + ": "@
                    + error,
            )
        },
    )
}

/// The process can no longer be heard.
pub open spec fn disconnected(s: SessionView, now: u128) -> SessionView {
    if s.run.running {
        SessionView {
            run: RunState { running: false, pid: None, ..s.run },
            ..saying(s, outcome_text("✓ Process finished"@, s.run, now))
        }
    } else {
        s
    }
}

impl Session {
    /// The run that was asked for has started.
    pub fn on_run_started(&mut self, pid: u32, now: u128)
        requires
            old(self).wf(),
        ensures
            final(self).wf(),
            final(self)@ == run_started(old(self)@, pid, now),
    {
        self.run = RunState {
            running: true,
            listening: true,
            pid: Some(pid),
            started: Some(now),
            tally: Tally::new(),
        };
        self.popups.fullscreen = self.config.fills_screen();
        assert(self@ =~= run_started(old(self)@, pid, now));
    }

    /// The run that was asked for could not be started.
    pub fn on_run_refused(&mut self, error: &str)
        requires
            old(self).wf(),
        ensures
            final(self).wf(),
            final(self)@ == saying(old(self)@, "Error: "@ + error@),
    {
        self.say(concat("Error: ", error));
    }

    /// The churn that was asked for could not be started.
    pub fn on_churn_refused(&mut self, error: &str)
        requires
            old(self).wf(),
        ensures
            final(self).wf(),
            final(self)@ == saying(without_churn(old(self)@), "Error: "@ + error@),
    {
        self.end_churn();
        self.say(concat("Error: ", error));
    }

    pub fn on_iteration_started(&mut self, pid: u32, now: u128)
        requires
            old(self).wf(),
        ensures
            final(self).wf(),
            final(self)@ == iteration_started(old(self)@, pid, now),
    {
        self.run.running = true;
        self.run.listening = true;
        self.run.pid = Some(pid);
        self.run.started = Some(now);
        assert(self@ =~= iteration_started(old(self)@, pid, now));
    }

    pub fn on_iteration_refused(&mut self, error: &str)
        requires
            old(self).wf(),
        ensures
            final(self).wf(),
            final(self)@ == iteration_refused(old(self)@, error@),
    {
        let mut line = numbered(
            "✗ Could not start churn iteration ",
            self.churn.iteration,
            ": ",
        );
        line.append(error);
        self.say(line);
        self.stop_run(false);
        self.end_churn();
    }

    pub fn on_disconnected(&mut self, now: u128)
        requires
            old(self).wf(),
        ensures
            final(self).wf(),
            final(self)@ == disconnected(old(self)@, now),
    {
        if self.run.running {
            let line = say_outcome("✓ Process finished", self.run, now);
            self.say(line);
            self.run.running = false;
            self.run.pid = None;
            assert(self@ =~= disconnected(old(self)@, now));
        }
    }
}

// ---------------------------------------------------------------------------
// Laws
// ---------------------------------------------------------------------------
/// When a process ends, nothing runs any more, unless the next iteration of a
/// churn is asked for.
pub proof fn law_nothing_runs_after_the_end(s: SessionView, code: Option<i32>, now: u128)
    ensures
        ({
            let (after, action) = after_finish(s, code, now);
            (action is NextIteration && after.churn.active) || (!after.run.running
                && after.run.pid is None && !after.churn.active)
        }),
{
}

/// A churn goes on exactly as long as its iterations pass, it has not reached
/// its limit, and there is a filter to run by.
pub proof fn law_churn_goes_on_while_it_passes(s: SessionView, code: Option<i32>, now: u128)
    requires
        s.churn.active,
        !s.churn.sidecar,
        s.churn.successes < usize::MAX,
        s.churn.iteration < usize::MAX,
    ensures
        after_finish(s, code, now).1 is NextIteration <==> code == Some(0i32) && s.churn_filter
            is Some && match s.churn.limit {
            Some(limit) => s.churn.successes + 1 < limit,
            None => true,
        },
        after_finish(s, code, now).1 is NextIteration ==> {
            &&& after_finish(s, code, now).0.churn.iteration == s.churn.iteration + 1
            &&& after_finish(s, code, now).0.churn.successes == s.churn.successes + 1
        },
{
}

/// Neither a line nor the end of a run changes the tree, the settings, the
/// search or what is focused.
pub proof fn law_runs_leave_the_tree_alone(
    s: SessionView,
    line: Seq<char>,
    lower: Seq<char>,
    code: Option<i32>,
    now: u128,
)
    ensures
        after_line(s, line, lower, now).tree == s.tree,
        after_line(s, line, lower, now).config == s.config,
        after_line(s, line, lower, now).query == s.query,
        after_line(s, line, lower, now).cursor == s.cursor,
        after_finish(s, code, now).0.tree == s.tree,
        after_finish(s, code, now).0.config == s.config,
        after_finish(s, code, now).0.query == s.query,
        after_finish(s, code, now).0.cursor == s.cursor,
{
}

} // verus!
