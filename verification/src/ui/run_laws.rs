//! What runs and churns come to: what is asked for, what is kept of the lines,
//! and what the ends of processes change.

use vstd::prelude::*;

use crate::domain::selection::selected_tests;
use crate::numerals::decimal;
use crate::text::trimmed;
use crate::ui::actions::ActionView;
use crate::ui::churn::{
    elapsed_text, greatest, is_banner, is_greatest, is_least, law_churn_output_stays_short, least,
    mean, tenths, total,
};
use crate::ui::config::Verbosity;
use crate::ui::failed_tests::failures_of;
use crate::ui::filter::{run_request, selection_filter};
use crate::ui::filter_meaning::{law_filter_is_there, law_request_names_the_checked_tests};
use crate::ui::launch::{checked_run, churn_asked, watch_fired};
use crate::ui::leaf_results::{LeafResultView, LeafStatus};
use crate::ui::output::{sidecar_call, RunRequestView};
use crate::ui::run_events::{
    after_finish, after_line, disconnected, iteration_refused, iteration_started, run_started,
};
use crate::ui::session::{closing_config, SessionView};
use crate::ui::tally::tallied;

verus! {

/// What no run and no churn changes.
pub open spec fn keeps_the_tree(s: SessionView, after: SessionView) -> bool {
    &&& after.tree == s.tree
    &&& after.config == s.config
    &&& after.query == s.query
    &&& after.cursor == s.cursor
    &&& after.popups == s.popups
    &&& after.preset_name == s.preset_name
    &&& after.preset_tag == s.preset_tag
    &&& after.tests_pane_rows == s.tests_pane_rows
}

/// Everything that an earlier run left is gone.
pub open spec fn starts_afresh(after: SessionView) -> bool {
    &&& after.failed.len() == 0
    &&& !after.failure.shown
    &&& after.recorded.results.dom() =~= Set::empty()
    &&& after.recorded.pending is None
    &&& after.counts.dom() =~= Set::empty()
    &&& after.scroll == 0
    &&& after.follow
}

/// Running what is checked asks for one run, by the filter of what is checked
/// and as the settings say, and starts afresh; with nothing checked it changes
/// nothing and asks for nothing.
pub proof fn law_running_asks_for_what_is_checked(s: SessionView)
    ensures
        ({
            let (after, action) = checked_run(s);
            let some = exists|i: int|
                0 <= i < s.tree.len() && (#[trigger] s.tree[i]).is_leaf && s.tree[i].is_selected;
            &&& !some ==> after == s && action is Nothing
            &&& some ==> {
                &&& action == ActionView::StartRun(
                    RunRequestView {
                        filter: selection_filter(s.tree),
                        target_path: None,
                        no_build: s.config.no_build,
                        no_restore: s.config.no_restore,
                        verbosity: s.config.verbosity,
                    },
                )
                &&& keeps_the_tree(s, after)
                &&& starts_afresh(after)
                &&& after.lines.len() == 2
                &&& after.lines[0] == "━━━ Running "@ + decimal(selected_tests(s.tree))
                    + " selected test(s)… ━━━"@
            }
        }),
{
    law_filter_is_there(s.tree);
    reveal_strlit("━━━ Running ");
    reveal_strlit("━━━ ");
    reveal_strlit("Running ");
    reveal_strlit(" selected test(s)… ━━━");
    reveal_strlit(" selected test(s)…");
    reveal_strlit(" ━━━");
    if selection_filter(s.tree) is Some {
        let n = decimal(selected_tests(s.tree));
        assert("━━━ "@ + "Running "@ + n + " selected test(s)…"@ + " ━━━"@ =~= "━━━ Running "@ + n
            + " selected test(s)… ━━━"@);
    }
}

/// A changed source file asks for the same run as the user would, if watching is
/// on, nothing runs and no dialog is open; else it changes nothing.
pub proof fn law_watching_runs_what_is_checked(s: SessionView)
    ensures
        ({
            let (after, action) = watch_fired(s);
            let idle = s.config.manual_watch_enabled && !s.run.running && !s.popups.settings
                && !s.popups.help && !s.popups.saving && !s.popups.presets;
            &&& !idle ==> after == s && action is Nothing
            &&& idle ==> action == checked_run(s).1 && keeps_the_tree(s, after)
            &&& idle && !(action is Nothing) ==> starts_afresh(after)
        }),
{
    law_filter_is_there(s.tree);
}

/// Churning asks for what is checked: in the project that all checked tests
/// share by the sidecar, else run by run, quietly; with a limit exactly if it is
/// quick. With no test to name it asks for nothing and changes no more than the
/// output.
pub proof fn law_churning_asks_for_what_is_checked(s: SessionView, quick: bool)
    ensures
        ({
            let (after, action) = churn_asked(s, quick);
            let some = exists|i: int|
                0 <= i < s.tree.len() && (#[trigger] s.tree[i]).is_leaf && s.tree[i].is_selected
                    && s.tree[i].fqn is Some;
            &&& keeps_the_tree(s, after)
            &&& !some ==> action is Nothing && after.churn == s.churn && after.failed == s.failed
                && after.recorded == s.recorded && after.lines.len() == s.lines.len() + 1
            &&& some ==> {
                &&& starts_afresh(after)
                &&& after.churn.active
                &&& after.churn.iteration == 1
                &&& after.churn.successes == 0
                &&& after.durations.len() == 0
                &&& after.churn.limit == if quick {
                    Some(100usize)
                } else {
                    None
                }
                &&& after.churn.sidecar <==> action is StartSidecar
                &&& match action {
                    ActionView::StartSidecar(plan) => {
                        &&& run_request(s.tree)->0.target_path == Some(plan.target_path)
                        &&& plan.filter == run_request(s.tree)->0.sidecar_filter
                        &&& plan.test_names == run_request(s.tree)->0.test_names
                        &&& plan.iteration_limit == after.churn.limit
                        &&& plan.no_build == s.config.no_build
                        &&& plan.no_restore == s.config.no_restore
                    },
                    ActionView::StartChurn(r) => {
                        &&& run_request(s.tree)->0.target_path is None
                        &&& r.filter == selection_filter(s.tree)
                        &&& r.target_path is None
                        &&& r.no_build == s.config.no_build
                        &&& r.no_restore == s.config.no_restore
                        &&& r.verbosity == Verbosity::Minimal
                        &&& after.churn_filter == r.filter
                    },
                    _ => false,
                }
            }
        }),
{
    law_request_names_the_checked_tests(s.tree, Seq::empty());
}

/// A process that has started runs, is heard and can be stopped, and the counts
/// begin anew.
pub proof fn law_started_runs_are_running(s: SessionView, pid: u32, now: u128)
    ensures
        ({
            let after = run_started(s, pid, now);
            &&& after.run.running && after.run.listening
            &&& after.run.pid == Some(pid)
            &&& after.run.started == Some(now)
            &&& after.run.tally.passed == 0 && after.run.tally.failed == 0
                && after.run.tally.skipped == 0
            &&& after.tree == s.tree && after.lines == s.lines && after.churn == s.churn
        }),
{
}

/// A line of a run is the last line of the output, as it stands; all lines
/// before it stay, the failures are those of all lines, and it is counted.
pub proof fn law_lines_are_kept(s: SessionView, line: Seq<char>, lower: Seq<char>, now: u128)
    requires
        !s.churn.active,
    ensures
        ({
            let after = after_line(s, line, lower, now);
            &&& after.lines == s.lines.push(line)
            &&& after.failed == failures_of(s.lines.push(line))
            &&& after.run.tally == tallied(s.run.tally, trimmed(line), lower)
            &&& after.run.running == s.run.running && after.run.pid == s.run.pid
            &&& after.churn == s.churn
            &&& keeps_the_tree(s, after)
        }),
{
}

/// While churning, the end of the output is the line too, and a churn keeps its
/// limit, its filter and its project whatever is printed.
pub proof fn law_churn_lines_are_kept(s: SessionView, line: Seq<char>, lower: Seq<char>, now: u128)
    requires
        s.churn.active,
    ensures
        ({
            let after = after_line(s, line, lower, now);
            &&& after.lines.len() > 0 && after.lines.last() == line
            &&& after.churn.active && after.churn.limit == s.churn.limit
            &&& after.churn_filter == s.churn_filter && after.churn_target == s.churn_target
            &&& !s.churn.sidecar ==> after.churn == s.churn
            &&& keeps_the_tree(s, after)
        }),
{
    law_churn_output_stays_short(s.lines.push(line));
}

/// The end of a run closes the failure that was open, lists the failures of the
/// output, shows them if tests failed and there are any, and has the outcomes
/// saved.
pub proof fn law_ended_runs_are_summed_up(s: SessionView, code: Option<i32>, now: u128)
    requires
        !s.churn.active,
    ensures
        ({
            let (after, action) = after_finish(s, code, now);
            &&& action is SaveResults
            &&& !after.run.running && after.run.pid is None
            &&& after.run.tally == s.run.tally
            &&& after.recorded.pending is None
            &&& after.recorded.results == match s.recorded.pending {
                Some((key, details)) => s.recorded.results.insert(
                    key,
                    LeafResultView { status: LeafStatus::Failed, details },
                ),
                None => s.recorded.results,
            }
            &&& after.failed == failures_of(after.lines)
            &&& after.failure.shown == (s.failure.shown || (s.run.tally.failed > 0
                && after.failed.len() > 0))
            &&& s.lines.len() < after.lines.len() && after.lines.take(s.lines.len() as int)
                == s.lines
            &&& keeps_the_tree(s, after)
        }),
{
    let after = after_finish(s, code, now).0;
    assert(after.lines.take(s.lines.len() as int) =~= s.lines);
}

/// An iteration that passed is counted and timed, and the next one is asked for
/// with the same filter and project, without building.
pub proof fn law_passed_iterations_lead_on(s: SessionView, now: u128)
    requires
        s.churn.active,
        !s.churn.sidecar,
        s.churn_filter is Some,
        s.churn.successes < usize::MAX,
        s.churn.iteration < usize::MAX,
        s.churn.limit matches Some(limit) ==> s.churn.successes + 1 < limit,
    ensures
        ({
            let (after, action) = after_finish(s, Some(0i32), now);
            &&& action == ActionView::NextIteration(
                RunRequestView {
                    filter: s.churn_filter,
                    target_path: s.churn_target,
                    no_build: true,
                    no_restore: true,
                    verbosity: Verbosity::Minimal,
                },
            )
            &&& after.churn.successes == s.churn.successes + 1
            &&& after.churn.iteration == s.churn.iteration + 1
            &&& after.churn.limit == s.churn.limit
            &&& s.run.started is Some && s.run.started->0 <= now ==> after.durations
                == s.durations.push((now - s.run.started->0) as u128)
            &&& after.churn_filter == s.churn_filter
            &&& keeps_the_tree(s, after)
        }),
{
}

/// An iteration that fails ends the churn, keeps how many passed, and shows the
/// failures of the output, if there are any.
pub proof fn law_failed_iterations_end_the_churn(s: SessionView, code: Option<i32>, now: u128)
    requires
        s.churn.active,
        !s.churn.sidecar,
        code != Some(0i32),
    ensures
        ({
            let (after, action) = after_finish(s, code, now);
            &&& action is Nothing
            &&& !after.churn.active && !after.run.running
            &&& after.churn.successes == s.churn.successes
            &&& after.churn.iteration == s.churn.iteration
            &&& after.failed == failures_of(after.lines)
            &&& after.failed.len() > 0 ==> after.failure.shown
            &&& keeps_the_tree(s, after)
        }),
{
}

/// A churn that reached its limit is over, with nothing more asked for.
pub proof fn law_churns_end_at_their_limit(s: SessionView, now: u128)
    requires
        s.churn.active,
        !s.churn.sidecar,
        s.churn.successes < usize::MAX,
        s.churn.limit matches Some(limit) && s.churn.successes + 1 >= limit,
    ensures
        ({
            let (after, action) = after_finish(s, Some(0i32), now);
            &&& action is Nothing
            &&& !after.churn.active && !after.run.running
            &&& after.churn.successes == s.churn.successes + 1
            &&& keeps_the_tree(s, after)
        }),
{
}

/// The end of the sidecar ends the churn; the failures are shown unless it ended
/// well, and if there are any.
pub proof fn law_sidecar_ends_the_churn(s: SessionView, code: Option<i32>, now: u128)
    requires
        s.churn.active,
        s.churn.sidecar,
    ensures
        ({
            let (after, action) = after_finish(s, code, now);
            &&& action is Nothing
            &&& !after.churn.active && !after.run.running
            &&& after.lines == s.lines
            &&& after.failed == failures_of(s.lines)
            &&& after.failure.shown == (s.failure.shown || (code != Some(0i32)
                && after.failed.len() > 0))
            &&& keeps_the_tree(s, after)
        }),
{
}

// ---------------------------------------------------------------------------
// Times
// ---------------------------------------------------------------------------
/// A time is shown in seconds, to the nearest tenth.
pub proof fn law_times_are_rounded(nanos: u128)
    ensures
        ({
            let whole = tenths(nanos) / 10;
            let tenth = tenths(nanos) % 10;
            let shown = (whole * 10 + tenth) * 100_000_000;
            &&& elapsed_text(nanos) == decimal(whole) + "."@ + decimal(tenth) + "s"@
            &&& -50_000_000 <= shown - nanos <= 50_000_000
        }),
{
    let n = tenths(nanos);
    assert(n == (nanos + 50_000_000) / 100_000_000);
    assert((n / 10) * 10 + n % 10 == n);
}

/// The least, the greatest and the mean of the durations are what they are
/// called.
pub proof fn law_durations_are_summed_up(durations: Seq<u128>, i: int)
    requires
        0 <= i < durations.len(),
    ensures
        least(durations) <= durations[i] <= greatest(durations),
        durations.contains(least(durations)),
        durations.contains(greatest(durations)),
        total(durations) / durations.len() <= u64::MAX ==> mean(durations) == total(durations)
            / durations.len(),
{
    lemma_extremes(durations, durations.len() as int);
    let n = durations.len() as int;
    assert(durations.take(n) =~= durations);
    let lo = choose|d: u128| is_least(d, durations);
    let hi = choose|d: u128| is_greatest(d, durations);
    assert(is_least(least(durations), durations));
    assert(is_greatest(greatest(durations), durations));
}

proof fn lemma_extremes(durations: Seq<u128>, n: int)
    requires
        0 < n <= durations.len(),
    ensures
        exists|d: u128| is_least(d, durations.take(n)),
        exists|d: u128| is_greatest(d, durations.take(n)),
    decreases n,
{
    let now = durations.take(n);
    let last = durations[n - 1];
    assert(now[n - 1] == last);
    if n == 1 {
        assert(is_least(last, now));
        assert(is_greatest(last, now));
    } else {
        lemma_extremes(durations, n - 1);
        let before = durations.take(n - 1);
        let lo = choose|d: u128| is_least(d, before);
        let hi = choose|d: u128| is_greatest(d, before);
        let a = choose|a: int| 0 <= a < before.len() && before[a] == lo;
        let b = choose|b: int| 0 <= b < before.len() && before[b] == hi;
        assert(now[a] == lo && now[b] == hi);
        assert forall|k: int| 0 <= k < n - 1 implies #[trigger] now[k] == before[k] by {}
        let least_now = if last < lo {
            last
        } else {
            lo
        };
        let greatest_now = if last > hi {
            last
        } else {
            hi
        };
        assert forall|k: int| 0 <= k < now.len() implies least_now <= #[trigger] now[k]
            && now[k] <= greatest_now by {
            if k < n - 1 {
                assert(now[k] == before[k]);
            }
        }
        assert(is_least(least_now, now));
        assert(is_greatest(greatest_now, now));
    }
}

/// The sum of durations grows by each.
pub proof fn law_durations_add_up(durations: Seq<u128>, d: u128)
    ensures
        total(Seq::empty()) == 0,
        total(durations.push(d)) == total(durations) + d,
{
    assert(durations.push(d).drop_last() =~= durations);
}

/// Only a line that begins with the word is the banner of an iteration.
pub proof fn law_banners_begin_with_the_word(line: Seq<char>)
    requires
        is_banner(line),
    ensures
        line.len() > 10,
        line.take(10) == "Iteration "@,
{
    reveal_strlit("Iteration ");
    assert(line.subrange(0, 10) =~= line.take(10));
}

/// An iteration that started is running from that moment on; nothing else changes.
pub proof fn law_started_iterations_are_running(s: SessionView, pid: u32, now: u128)
    ensures
        ({
            let after = iteration_started(s, pid, now);
            &&& keeps_the_tree(s, after)
            &&& after.run.running
            &&& after.run.pid == Some(pid)
            &&& after.run.started == Some(now)
            &&& after.run.tally == s.run.tally
            &&& after.churn == s.churn
            &&& after.lines == s.lines
        }),
{
}

/// An iteration that could not be started ends the churn, and the last line gives
/// the reason.
pub proof fn law_refused_iterations_end_the_churn(s: SessionView, error: Seq<char>)
    ensures
        ({
            let after = iteration_refused(s, error);
            &&& keeps_the_tree(s, after)
            &&& !after.run.running
            &&& after.run.pid is None
            &&& !after.churn.active
            &&& after.lines.drop_last() == s.lines
            &&& error.is_suffix_of(after.lines.last())
        }),
{
    let after = iteration_refused(s, error);
    let line = after.lines.last();
    assert(after.lines.drop_last() =~= s.lines);
    assert(error =~= line.subrange(line.len() - error.len(), line.len() as int));
}

/// A process that can no longer be heard runs no longer: one line more says so. If
/// none ran, nothing changes.
pub proof fn law_silence_ends_the_run(s: SessionView, now: u128)
    ensures
        ({
            let after = disconnected(s, now);
            &&& keeps_the_tree(s, after)
            &&& !after.run.running
            &&& !s.run.running ==> after == s
            &&& s.run.running ==> after.run.pid is None && after.lines.drop_last() == s.lines
            &&& after.run.tally == s.run.tally
        }),
{
    if s.run.running {
        assert(disconnected(s, now).lines.drop_last() =~= s.lines);
    }
}

/// What is kept of a session is its settings, with the sizes that its panes had.
pub proof fn law_sizes_are_kept(s: SessionView)
    ensures
        ({
            let kept = closing_config(s);
            &&& kept.tests_pane_rows == s.tests_pane_rows
            &&& kept.failed_summary_list_pane_cols == s.failure.cols
            &&& kept.no_build == s.config.no_build
            &&& kept.no_restore == s.config.no_restore
            &&& kept.verbosity == s.config.verbosity
            &&& kept.cache_tests == s.config.cache_tests
            &&& kept.output_mode == s.config.output_mode
            &&& kept.view_mode == s.config.view_mode
            &&& kept.manual_watch_enabled == s.config.manual_watch_enabled
            &&& kept.manual_watch_delay_ms == s.config.manual_watch_delay_ms
            &&& kept.confirm_exit_on_esc == s.config.confirm_exit_on_esc
            &&& kept.presets == s.config.presets
        }),
{
}

/// The sidecar is the program next to this one where there is one, else the
/// project is run; without either there is none.
pub proof fn law_sidecar_is_found(sibling: Option<Seq<char>>, project: Option<Seq<char>>)
    ensures
        sidecar_call(sibling, project) is Some <==> sibling is Some || project is Some,
        sibling is Some ==> sidecar_call(sibling, project)->0.program == sibling->0,
        sibling is None && project is Some ==> {
            let call = sidecar_call(sibling, project)->0;
            &&& call.program == "dotnet"@
            &&& call.arguments.len() > 2
            &&& call.arguments[0] == "run"@
            &&& call.arguments.contains(project->0)
            &&& call.arguments.last() == "--"@
        },
{
    if sibling is None && project is Some {
        assert(sidecar_call(sibling, project)->0.arguments[2] == project->0);
    }
}

} // verus!
