//! Names of tests as the runner reports them, and filters that select them.

use vstd::prelude::*;

use crate::text::{
    before_char, concat, first_segment, join, joined, texts, trim, trimmed,
};
use crate::ui::console::{
    is_summary_line, parse_status_result_line, status_line, summary_line,
};
use crate::ui::leaf_results::LeafStatus;
use crate::unicode::{lowercase, to_lowercase};

verus! {

/// A reported name without its parameter list and the white space around it.
pub open spec fn name_key(name: Seq<char>) -> Seq<char> {
    trimmed(first_segment(name, '('))
}

/// The key that filters select a reported test by.
pub fn filter_key_for_vstest(name: &str) -> (r: String)
    ensures
        r@ == name_key(name@),
{
    trim(before_char(name, '(')).to_owned()
}

/// One clause per name.
pub open spec fn name_clauses(names: Seq<Seq<char>>) -> Seq<Seq<char>> {
    names.map_values(|n: Seq<char>| "FullyQualifiedName~"@ + name_key(n))
}

/// A filter that selects every test whose name contains one of the names.
pub open spec fn names_filter(names: Seq<Seq<char>>) -> Seq<char> {
    joined(name_clauses(names), "|"@)
}

pub fn build_filter_for_display_names(names: &Vec<String>) -> (r: String)
    ensures
        r@ == names_filter(texts(names@)),
{
    let mut clauses: Vec<String> = Vec::new();
    let mut i: usize = 0;
    let ghost all = name_clauses(texts(names@));
    while i < names.len()
        invariant
            all == name_clauses(texts(names@)),
            i <= names@.len(),
            texts(clauses@) == all.take(i as int),
        decreases names@.len() - i,
    {
        let clause = concat(
            "FullyQualifiedName~",
            filter_key_for_vstest(names[i].as_str()).as_str(),
        );
        assert(clause@ == all[i as int]);
        let ghost o = texts(clauses@);
        clauses.push(clause);
        assert(texts(clauses@) =~= o.push(clause@));
        assert(all.take(i + 1) =~= all.take(i as int).push(all[i as int]));
        i += 1;
    }
    assert(all.take(i as int) =~= all);
    join(&clauses, "|")
}

// ---------------------------------------------------------------------------
// Failures in the output
// ---------------------------------------------------------------------------
/// A failed test, with the lines that say why.
#[derive(Clone, Debug)]
pub struct FailedTestInfo {
    pub name: String,
    pub details: Vec<String>,
}

#[verifier::ext_equal]
pub struct FailedView {
    pub name: Seq<char>,
    pub details: Seq<Seq<char>>,
}

impl View for FailedTestInfo {
    type V = FailedView;

    open spec fn view(&self) -> FailedView {
        FailedView { name: self.name@, details: texts(self.details@) }
    }
}

pub open spec fn failed_views(failed: Seq<FailedTestInfo>) -> Seq<FailedView> {
    failed.map_values(|f: FailedTestInfo| f@)
}

/// The line speaks of a test or of the run as a whole, so that it is no detail
/// of the failure before it.
pub open spec fn ends_details(line: Seq<char>) -> bool {
    let t = trimmed(line);
    t.len() > 0 && (status_line(t) is Some || is_summary_line(t, lowercase(t)))
}

/// The name of the test that the line reports as failed.
pub open spec fn failure_in(line: Seq<char>) -> Option<Seq<char>> {
    let t = trimmed(line);
    if t.len() == 0 {
        None
    } else {
        match status_line(t) {
            Some((LeafStatus::Failed, name)) => Some(name),
            _ => None,
        }
    }
}

/// Whether a failure is still collecting its details after the lines.
pub open spec fn failure_is_open(lines: Seq<Seq<char>>) -> bool
    decreases lines.len(),
{
    lines.len() > 0 && (failure_in(lines.last()) is Some || (!ends_details(lines.last())
        && failure_is_open(lines.drop_last())))
}

/// The failures that the lines report, in order: each with the lines up to the
/// next that speaks of a test or of the run.
pub open spec fn failures_of(lines: Seq<Seq<char>>) -> Seq<FailedView>
    decreases lines.len(),
{
    if lines.len() == 0 {
        Seq::empty()
    } else {
        let line = lines.last();
        let before = failures_of(lines.drop_last());
        match failure_in(line) {
            Some(name) => before.push(FailedView { name, details: Seq::empty() }),
            None => if !ends_details(line) && failure_is_open(lines.drop_last()) {
                before.drop_last().push(
                    FailedView { details: before.last().details.push(line), ..before.last() },
                )
            } else {
                before
            },
        }
    }
}

/// While a failure is open there is one.
pub proof fn lemma_open_failure(lines: Seq<Seq<char>>)
    ensures
        failure_is_open(lines) ==> failures_of(lines).len() > 0,
    decreases lines.len(),
{
    if lines.len() > 0 {
        lemma_open_failure(lines.drop_last());
    }
}

pub fn extract_failed_tests(lines: &Vec<String>) -> (r: Vec<FailedTestInfo>)
    ensures
        failed_views(r@) == failures_of(texts(lines@)),
{
    let ghost all = texts(lines@);
    let mut found: Vec<FailedTestInfo> = Vec::new();
    let mut open = false;
    let mut i: usize = 0;
    assert(all.take(0) =~= Seq::<Seq<char>>::empty());
    assert(failed_views(found@) =~= failures_of(all.take(0)));
    while i < lines.len()
        invariant
            all == texts(lines@),
            i <= lines@.len(),
            failed_views(found@) == failures_of(all.take(i as int)),
            open == failure_is_open(all.take(i as int)),
        decreases lines@.len() - i,
    {
        let line = lines[i].as_str();
        let t = trim(line);
        let ghost done = all.take(i as int);
        let ghost next = all.take(i + 1);
        let ghost before = failed_views(found@);
        proof {
            assert(next.drop_last() =~= done);
            assert(next.last() == line@);
            lemma_open_failure(done);
        }
        let status = if t.is_empty() {
            None
        } else {
            parse_status_result_line(t)
        };
        match status {
            Some((LeafStatus::Failed, name)) => {
                let details: Vec<String> = Vec::new();
                assert(texts(details@) =~= Seq::<Seq<char>>::empty());
                let info = FailedTestInfo { name, details };
                found.push(info);
                assert(failed_views(found@) =~= before.push(info@));
                open = true;
            },
            Some(_) => {
                open = false;
            },
            None => {
                if !t.is_empty() && summary_line(t, to_lowercase(t).as_str()) {
                    open = false;
                } else if open {
                    let n: usize = found.len();
                    assert(before.len() == n);
                    let last = found.pop();
                    match last {
                        Some(info) => {
                            assert(before.last() == info@);
                            assert(failed_views(found@) =~= before.drop_last());
                            let mut details = info.details;
                            let ghost o = texts(details@);
                            details.push(line.to_owned());
                            assert(texts(details@) =~= o.push(line@));
                            let info = FailedTestInfo { name: info.name, details };
                            found.push(info);
                            assert(failed_views(found@) =~= before.drop_last().push(info@));
                        },
                        None => {},
                    }
                }
            },
        }
        i += 1;
    }
    assert(all.take(i as int) =~= all);
    found
}

/// Output that goes on never takes back a failure, nor any of its details.
pub proof fn law_failures_are_kept(lines: Seq<Seq<char>>, line: Seq<char>)
    ensures
        failures_of(lines.push(line)).len() >= failures_of(lines).len(),
        forall|i: int|
            0 <= i < failures_of(lines).len() ==> (#[trigger] failures_of(lines)[i]).name
                == failures_of(lines.push(line))[i].name && failures_of(
                lines,
            )[i].details.is_prefix_of(failures_of(lines.push(line))[i].details),
{
    let next = lines.push(line);
    assert(next.drop_last() =~= lines);
    lemma_open_failure(lines);
}

} // verus!
