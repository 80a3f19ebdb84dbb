//! Processes that run tests: how they are started, and their output line by
//! line.

use vstd::prelude::*;
use vstd::utf8::{decode_utf8, encode_utf8, valid_utf8};

use crate::numerals::{decimal, decimal_of};
use crate::text::{concat, opt_text, texts};
use crate::ui::config::{logger_argument, Verbosity};
use crate::ui::filter::byte_len;

verus! {

/// What comes from a process.
#[derive(Clone, Debug)]
pub enum OutputEvent {
    Line(String),
    Finished(Option<i32>),
}

// ---------------------------------------------------------------------------
// Lines
// ---------------------------------------------------------------------------
pub const CARRIAGE_RETURN: u8 = 13;

pub const LINE_FEED: u8 = 10;

/// The text of bytes, as `String::from_utf8_lossy` gives it.
pub uninterp spec fn lossy_text(bytes: Seq<u8>) -> Seq<char>;

/// `String::from_utf8_lossy`: the result depends on the bytes alone, and is what
/// they encode where they are valid UTF-8. What stands for bytes that are not,
/// no contract here says.
#[verifier::external_body]
fn text_of(bytes: &Vec<u8>) -> (r: String)
    ensures
        r@ == lossy_text(bytes@),
        valid_utf8(bytes@) ==> r@ == decode_utf8(bytes@),
{
    String::from_utf8_lossy(bytes).into_owned()
}

/// Output that was cut into lines so far.
#[verifier::ext_equal]
pub struct Cut {
    /// The lines that have ended.
    pub lines: Seq<Seq<u8>>,
    /// The line that has not.
    pub pending: Seq<u8>,
    /// The last byte was a carriage return.
    pub after_return: bool,
}

pub open spec fn nothing_cut() -> Cut {
    Cut { lines: Seq::empty(), pending: Seq::empty(), after_return: false }
}

/// One byte more. A carriage return and a line feed each end a line, and the two
/// together end one.
pub open spec fn cut_byte(c: Cut, byte: u8) -> Cut {
    if byte == CARRIAGE_RETURN {
        Cut { lines: c.lines.push(c.pending), pending: Seq::empty(), after_return: true }
    } else if byte == LINE_FEED {
        if c.after_return {
            Cut { after_return: false, ..c }
        } else {
            Cut { lines: c.lines.push(c.pending), pending: Seq::empty(), after_return: false }
        }
    } else {
        Cut { pending: c.pending.push(byte), after_return: false, ..c }
    }
}

pub open spec fn cut_bytes(c: Cut, bytes: Seq<u8>) -> Cut
    decreases bytes.len(),
{
    if bytes.len() == 0 {
        c
    } else {
        cut_byte(cut_bytes(c, bytes.drop_last()), bytes.last())
    }
}

/// Cuts the output of a process into lines, chunk by chunk.
pub struct LineSplitter {
    pending: Vec<u8>,
    prev_was_cr: bool,
}

pub open spec fn lossy_texts(lines: Seq<Seq<u8>>) -> Seq<Seq<char>> {
    lines.map_values(|l: Seq<u8>| lossy_text(l))
}

/// Each line that is valid UTF-8 has the text that it encodes.
pub open spec fn are_decoded(lines: Seq<Seq<u8>>, texts: Seq<Seq<char>>) -> bool {
    &&& texts.len() == lines.len()
    &&& forall|i: int|
        0 <= i < lines.len() && valid_utf8(#[trigger] lines[i]) ==> texts[i] == decode_utf8(
            lines[i],
        )
}

impl LineSplitter {
    /// What was cut, apart from the lines, which were handed out.
    pub closed spec fn state(&self) -> Cut {
        Cut { lines: Seq::empty(), pending: self.pending@, after_return: self.prev_was_cr }
    }

    pub fn new() -> (r: Self)
        ensures
            r.state() == nothing_cut(),
    {
        LineSplitter { pending: Vec::new(), prev_was_cr: false }
    }

    /// Takes in a chunk, and hands out the lines that end in it.
    pub fn feed(&mut self, chunk: &[u8]) -> (r: Vec<String>)
        ensures
            texts(r@) == lossy_texts(cut_bytes(old(self).state(), chunk@).lines),
            are_decoded(cut_bytes(old(self).state(), chunk@).lines, texts(r@)),
            final(self).state() == (Cut {
                lines: Seq::empty(),
                ..cut_bytes(old(self).state(), chunk@)
            }),
    {
        let ghost start = self.state();
        let mut out: Vec<String> = Vec::new();
        let mut i: usize = 0;
        assert(chunk@.take(0) =~= Seq::<u8>::empty());
        assert(texts(out@) =~= lossy_texts(start.lines));
        while i < chunk.len()
            invariant
                i <= chunk@.len(),
                texts(out@) == lossy_texts(cut_bytes(start, chunk@.take(i as int)).lines),
                are_decoded(cut_bytes(start, chunk@.take(i as int)).lines, texts(out@)),
                self.state() == (Cut {
                    lines: Seq::empty(),
                    ..cut_bytes(start, chunk@.take(i as int))
                }),
            decreases chunk@.len() - i,
        {
            let byte: u8 = chunk[i];
            let ghost before = cut_bytes(start, chunk@.take(i as int));
            let ghost o = texts(out@);
            proof {
                assert(chunk@.take(i + 1).drop_last() =~= chunk@.take(i as int));
                assert(chunk@.take(i + 1).last() == byte);
                assert(before.pending == self.pending@);
            }
            if byte == CARRIAGE_RETURN || (byte == LINE_FEED && !self.prev_was_cr) {
                let line = text_of(&self.pending);
                out.push(line);
                self.pending = Vec::new();
                self.prev_was_cr = byte == CARRIAGE_RETURN;
                assert(texts(out@) =~= o.push(lossy_text(before.pending)));
                assert(lossy_texts(before.lines.push(before.pending)) =~= lossy_texts(
                    before.lines,
                ).push(lossy_text(before.pending)));
            } else if byte == LINE_FEED {
                self.prev_was_cr = false;
            } else {
                self.pending.push(byte);
                self.prev_was_cr = false;
            }
            i += 1;
        }
        assert(chunk@.take(i as int) =~= chunk@);
        out
    }

    /// Hands out what the output ends with, if its last line did not end.
    pub fn finish(self) -> (r: Option<String>)
        ensures
            opt_text(r) == if self.state().pending.len() == 0 {
                None
            } else {
                Some(lossy_text(self.state().pending))
            },
            r matches Some(text) ==> valid_utf8(self.state().pending) ==> text@ == decode_utf8(
                self.state().pending,
            ),
    {
        if self.pending.len() == 0 {
            None
        } else {
            Some(text_of(&self.pending))
        }
    }
}

proof fn lemma_cut_lines_append(c: Cut, bytes: Seq<u8>)
    ensures
        cut_bytes(c, bytes) == (Cut {
            lines: c.lines + cut_bytes(Cut { lines: Seq::empty(), ..c }, bytes).lines,
            ..cut_bytes(Cut { lines: Seq::empty(), ..c }, bytes)
        }),
    decreases bytes.len(),
{
    let bare = Cut { lines: Seq::empty(), ..c };
    if bytes.len() == 0 {
        assert(c.lines + bare.lines =~= c.lines);
    } else {
        lemma_cut_lines_append(c, bytes.drop_last());
        let x = cut_bytes(bare, bytes.drop_last());
        assert(c.lines + x.lines.push(x.pending) =~= (c.lines + x.lines).push(x.pending));
    }
}

proof fn lemma_cut_concat(c: Cut, a: Seq<u8>, b: Seq<u8>)
    ensures
        cut_bytes(c, a + b) == cut_bytes(cut_bytes(c, a), b),
    decreases b.len(),
{
    if b.len() == 0 {
        assert(a + b =~= a);
    } else {
        lemma_cut_concat(c, a, b.drop_last());
        assert((a + b).drop_last() =~= a + b.drop_last());
    }
}

/// It makes no difference where the output is cut into chunks: two chunks, one
/// after the other, give the lines of both together.
pub proof fn law_chunks_do_not_matter(c: Cut, a: Seq<u8>, b: Seq<u8>)
    ensures
        ({
            let first = cut_bytes(c, a);
            let second = cut_bytes(Cut { lines: Seq::empty(), ..first }, b);
            let whole = cut_bytes(c, a + b);
            &&& whole.lines == first.lines + second.lines
            &&& whole.pending == second.pending
            &&& whole.after_return == second.after_return
        }),
{
    lemma_cut_concat(c, a, b);
    lemma_cut_lines_append(cut_bytes(c, a), b);
}

pub open spec fn is_plain(line: Seq<u8>) -> bool {
    !line.contains(CARRIAGE_RETURN) && !line.contains(LINE_FEED)
}

proof fn lemma_plain_bytes(c: Cut, line: Seq<u8>)
    requires
        is_plain(line),
    ensures
        cut_bytes(c, line) == (Cut {
            pending: c.pending + line,
            after_return: c.after_return && line.len() == 0,
            ..c
        }),
    decreases line.len(),
{
    if line.len() == 0 {
        assert(c.pending + line =~= c.pending);
    } else {
        let init = line.drop_last();
        assert(is_plain(init)) by {
            assert forall|i: int| 0 <= i < init.len() implies init[i] != CARRIAGE_RETURN && init[i]
                != LINE_FEED by {
                assert(line.contains(line[i]));
            }
        }
        lemma_plain_bytes(c, init);
        assert(line.contains(line.last()));
        assert(c.pending + line =~= (c.pending + init).push(line.last()));
    }
}

/// Whichever way a line ends (return, feed, or both), it ends once.
pub proof fn law_every_ending_ends_one_line(c: Cut, line: Seq<u8>, ending: Seq<u8>)
    requires
        !c.after_return || line.len() > 0,
        is_plain(line),
        ending == seq![CARRIAGE_RETURN] || ending == seq![LINE_FEED] || ending == seq![
            CARRIAGE_RETURN,
            LINE_FEED,
        ],
    ensures
        cut_bytes(c, line + ending).lines == c.lines.push(c.pending + line),
        cut_bytes(c, line + ending).pending.len() == 0,
{
    lemma_cut_concat(c, line, ending);
    lemma_plain_bytes(c, line);
    let d = cut_bytes(c, line);
    let one = seq![ending[0]];
    assert(one.drop_last() =~= Seq::<u8>::empty());
    assert(cut_bytes(d, one.drop_last()) == d);
    assert(cut_bytes(d, one) == cut_byte(d, ending[0]));
    if ending.len() == 2 {
        assert(ending.drop_last() =~= one);
    } else {
        assert(ending =~= one);
    }
}

/// No line that was cut holds a carriage return or a line feed.
pub proof fn law_cut_lines_are_plain(bytes: Seq<u8>)
    ensures
        forall|i: int|
            0 <= i < cut_bytes(nothing_cut(), bytes).lines.len() ==> is_plain(
                #[trigger] cut_bytes(nothing_cut(), bytes).lines[i],
            ),
        is_plain(cut_bytes(nothing_cut(), bytes).pending),
    decreases bytes.len(),
{
    if bytes.len() > 0 {
        law_cut_lines_are_plain(bytes.drop_last());
        let p = cut_bytes(nothing_cut(), bytes.drop_last()).pending;
        let b = bytes.last();
        if b != CARRIAGE_RETURN && b != LINE_FEED {
            assert(is_plain(p.push(b))) by {
                assert forall|i: int| 0 <= i < p.push(b).len() implies p.push(b)[i]
                    != CARRIAGE_RETURN && p.push(b)[i] != LINE_FEED by {
                    if i < p.len() {
                        assert(p.contains(p[i]));
                    }
                }
            }
        }
    }
}

// ---------------------------------------------------------------------------
// Starting a run
// ---------------------------------------------------------------------------
/// Longest filter, in bytes, that fits on a command line.
pub const MAX_FILTER_BYTES: usize = 31000;

pub const FILTER_TOO_LONG: &'static str =
    "⚠ Filter too long for Windows. Running ALL tests instead.";

/// A run that is to be started.
#[derive(Clone, Debug)]
pub struct RunRequest {
    pub filter: Option<String>,
    pub target_path: Option<String>,
    pub no_build: bool,
    pub no_restore: bool,
    pub verbosity: Verbosity,
}

#[verifier::ext_equal]
pub struct RunRequestView {
    pub filter: Option<Seq<char>>,
    pub target_path: Option<Seq<char>>,
    pub no_build: bool,
    pub no_restore: bool,
    pub verbosity: Verbosity,
}

impl View for RunRequest {
    type V = RunRequestView;

    open spec fn view(&self) -> RunRequestView {
        RunRequestView {
            filter: opt_text(self.filter),
            target_path: opt_text(self.target_path),
            no_build: self.no_build,
            no_restore: self.no_restore,
            verbosity: self.verbosity,
        }
    }
}

pub open spec fn is_too_long(filter: Option<Seq<char>>) -> bool {
    filter matches Some(f) && byte_len(f) > MAX_FILTER_BYTES
}

/// The filter that is passed on: none where it is empty or too long.
pub open spec fn passed_filter(filter: Option<Seq<char>>) -> Option<Seq<char>> {
    match filter {
        Some(f) => if f.len() == 0 || is_too_long(filter) {
            None
        } else {
            filter
        },
        None => None,
    }
}

pub open spec fn opt_arguments(flag: Seq<char>, value: Option<Seq<char>>) -> Seq<Seq<char>> {
    match value {
        Some(v) => seq![flag, v],
        None => seq![],
    }
}

pub open spec fn opt_flag(flag: Seq<char>, on: bool) -> Seq<Seq<char>> {
    if on {
        seq![flag]
    } else {
        seq![]
    }
}

/// The arguments of `dotnet` for a run.
pub open spec fn test_arguments(r: RunRequestView) -> Seq<Seq<char>> {
    seq!["test"@] + (match r.target_path {
        Some(t) => seq![t],
        None => seq![],
    }) + opt_arguments("--filter"@, passed_filter(r.filter)) + opt_flag("--no-build"@, r.no_build)
        + opt_flag("--no-restore"@, r.no_restore) + seq![
        "--nologo"@,
        "-v"@,
        "m"@,
        "--logger"@,
        logger_argument(r.verbosity),
    ]
}

/// The lines that are shown before the run's own.
pub open spec fn run_warnings(filter: Option<Seq<char>>) -> Seq<Seq<char>> {
    if is_too_long(filter) {
        seq![FILTER_TOO_LONG@, Seq::empty()]
    } else {
        seq![]
    }
}

/// How a run is started.
#[derive(Clone, Debug)]
pub struct RunPlan {
    /// Lines that are shown before the run's own.
    pub warnings: Vec<String>,
    /// Arguments of `dotnet`.
    pub arguments: Vec<String>,
}

fn push_text(v: &mut Vec<String>, s: &str)
    ensures
        texts(final(v)@) == texts(old(v)@).push(s@),
{
    let ghost o = texts(v@);
    v.push(s.to_owned());
    assert(texts(v@) =~= o.push(s@));
}

pub fn plan_test_run(request: &RunRequest) -> (r: RunPlan)
    ensures
        texts(r.warnings@) == run_warnings(request@.filter),
        texts(r.arguments@) == test_arguments(request@),
{
    let mut warnings: Vec<String> = Vec::new();
    let mut arguments: Vec<String> = Vec::new();
    assert(texts(warnings@) =~= Seq::<Seq<char>>::empty());
    assert(texts(arguments@) =~= Seq::<Seq<char>>::empty());
    push_text(&mut arguments, "test");
    match &request.target_path {
        Some(t) => {
            push_text(&mut arguments, t.as_str());
        },
        None => {},
    }
    match &request.filter {
        Some(f) => {
            if f.as_str().len() > MAX_FILTER_BYTES {
                push_text(&mut warnings, FILTER_TOO_LONG);
                push_text(&mut warnings, String::new().as_str());
            } else if !f.as_str().is_empty() {
                push_text(&mut arguments, "--filter");
                push_text(&mut arguments, f.as_str());
            }
        },
        None => {},
    }
    if request.no_build {
        push_text(&mut arguments, "--no-build");
    }
    if request.no_restore {
        push_text(&mut arguments, "--no-restore");
    }
    push_text(&mut arguments, "--nologo");
    push_text(&mut arguments, "-v");
    push_text(&mut arguments, "m");
    push_text(&mut arguments, "--logger");
    push_text(&mut arguments, request.verbosity.logger().as_str());
    assert(texts(warnings@) =~= run_warnings(request@.filter));
    assert(texts(arguments@) =~= test_arguments(request@));
    RunPlan { warnings, arguments }
}

/// The filter that can be handed on: it is given, not empty, and not longer than
/// a command line takes.
pub open spec fn fits_the_command_line(filter: Option<Seq<char>>) -> bool {
    filter matches Some(f) && f.len() > 0 && encode_utf8(f).len() <= 31000
}

/// Whatever else is asked for, a filter that fits stands in the arguments right
/// behind `--filter`, before all flags; one that does not fit leaves the
/// arguments as they are without a filter. The flags do not depend on it.
pub proof fn law_filter_is_handed_on(r: RunRequestView)
    requires
        r.filter matches Some(f) ==> encode_utf8(f).len() <= usize::MAX,
    ensures
        ({
            let bare = test_arguments(RunRequestView { filter: None, ..r });
            let at = if r.target_path is Some {
                2int
            } else {
                1int
            };
            test_arguments(r) == if fits_the_command_line(r.filter) {
                bare.take(at) + seq!["--filter"@, r.filter->0] + bare.skip(at)
            } else {
                bare
            }
        }),
        !test_arguments(RunRequestView { filter: None, target_path: None, ..r }).contains(
            "--filter"@,
        ),
{
    let none = RunRequestView { filter: None, ..r };
    let bare = test_arguments(none);
    let at = if r.target_path is Some {
        2int
    } else {
        1int
    };
    if r.filter is Some && r.filter->0.len() == 0 {
        assert(r.filter->0 =~= Seq::<char>::empty());
    }
    if fits_the_command_line(r.filter) {
        assert(test_arguments(r) =~= bare.take(at) + seq!["--filter"@, r.filter->0] + bare.skip(
            at,
        ));
    } else {
        assert(test_arguments(r) =~= bare);
    }
    lemma_arguments_differ();
    let least = test_arguments(RunRequestView { filter: None, target_path: None, ..r });
    assert forall|i: int| 0 <= i < least.len() implies least[i] != "--filter"@ by {}
}

/// The project stands right behind `test`, and nothing else depends on it.
pub proof fn law_project_is_handed_on(r: RunRequestView)
    ensures
        ({
            let bare = test_arguments(RunRequestView { target_path: None, ..r });
            &&& bare[0] == "test"@
            &&& test_arguments(r) == match r.target_path {
                Some(project) => seq!["test"@, project] + bare.skip(1),
                None => bare,
            }
        }),
{
    let bare = test_arguments(RunRequestView { target_path: None, ..r });
    match r.target_path {
        Some(project) => {
            assert(test_arguments(r) =~= seq!["test"@, project] + bare.skip(1));
        },
        None => {
            assert(test_arguments(r) =~= bare);
        },
    }
}

/// Each flag stands in the arguments exactly if it is asked for, and the other
/// does not depend on it; the output is asked for in the wanted verbosity.
pub proof fn law_flags_are_handed_on(no_build: bool, no_restore: bool, verbosity: Verbosity)
    ensures
        ({
            let r = RunRequestView {
                filter: None,
                target_path: None,
                no_build,
                no_restore,
                verbosity,
            };
            let a = test_arguments(r);
            let flags = (if no_build {
                1int
            } else {
                0
            }) + (if no_restore {
                1int
            } else {
                0
            });
            &&& a.contains("--no-build"@) <==> no_build
            &&& a.contains("--no-restore"@) <==> no_restore
            &&& a.len() == 6 + flags
            &&& a.skip(1 + flags).take(4) == seq!["--nologo"@, "-v"@, "m"@, "--logger"@]
            &&& a.last() == match verbosity {
                Verbosity::Minimal => "console"@,
                Verbosity::Normal => "console;verbosity=normal"@,
                Verbosity::Detailed => "console;verbosity=detailed"@,
            }
        }),
{
    lemma_arguments_differ();
    let r = RunRequestView { filter: None, target_path: None, no_build, no_restore, verbosity };
    let a = test_arguments(r);
    let n = (if no_build {
        1int
    } else {
        0
    }) + (if no_restore {
        1int
    } else {
        0
    });
    assert(a.skip(1 + n).take(4) =~= seq!["--nologo"@, "-v"@, "m"@, "--logger"@]);
    if no_build {
        assert(a[1] == "--no-build"@);
    } else {
        assert forall|i: int| 0 <= i < a.len() implies a[i] != "--no-build"@ by {}
    }
    if no_restore {
        assert(a[n] == "--no-restore"@);
    } else {
        assert forall|i: int| 0 <= i < a.len() implies a[i] != "--no-restore"@ by {}
    }
}

proof fn lemma_arguments_differ()
    ensures
        "test"@.len() == 4,
        "--filter"@.len() == 8 && "--filter"@[2] == 'f',
        "--no-build"@.len() == 10 && "--no-build"@[5] == 'b',
        "--no-restore"@.len() == 12,
        "--nologo"@.len() == 8 && "--nologo"@[2] == 'n',
        "-v"@.len() == 2,
        "m"@.len() == 1,
        "--logger"@.len() == 8 && "--logger"@[2] == 'l',
        "console"@.len() == 7,
        "console;verbosity=normal"@.len() == 24,
        "console;verbosity=detailed"@.len() == 26,
{
    reveal_strlit("test");
    reveal_strlit("--filter");
    reveal_strlit("--no-build");
    reveal_strlit("--no-restore");
    reveal_strlit("--nologo");
    reveal_strlit("-v");
    reveal_strlit("m");
    reveal_strlit("--logger");
    reveal_strlit("console");
    reveal_strlit("console;verbosity=normal");
    reveal_strlit("console;verbosity=detailed");
}

/// A run is warned of exactly if it was to be filtered and is not.
pub proof fn law_dropped_filters_are_warned_of(filter: Option<Seq<char>>)
    requires
        filter matches Some(f) ==> encode_utf8(f).len() <= usize::MAX,
    ensures
        run_warnings(filter).len() > 0 <==> filter is Some && filter->0.len() > 0
            && !fits_the_command_line(filter),
{
    if filter is Some && filter->0.len() == 0 {
        assert(filter->0 =~= Seq::<char>::empty());
        assert(encode_utf8(filter->0).len() == 0);
    }
}

// ---------------------------------------------------------------------------
// The churn sidecar
// ---------------------------------------------------------------------------
/// What the sidecar is asked to do.
#[derive(Clone, Debug)]
pub struct ChurnSidecarRequest {
    pub repo_root: String,
    pub target_path: String,
    pub filter: Option<String>,
    pub test_names: Vec<String>,
    pub iteration_limit: Option<usize>,
    pub no_build: bool,
    pub no_restore: bool,
}

pub open spec fn sidecar_name(windows: bool) -> Seq<char> {
    if windows {
        "dotest-churn-sidecar.exe"@
    } else {
        "dotest-churn-sidecar"@
    }
}

pub fn churn_sidecar_exe_name(windows: bool) -> (r: &'static str)
    ensures
        r@ == sidecar_name(windows),
{
    if windows {
        "dotest-churn-sidecar.exe"
    } else {
        "dotest-churn-sidecar"
    }
}

/// Where the sidecar's project lies below the root of a source checkout.
pub fn churn_sidecar_dev_project_path() -> (r: Vec<String>)
    ensures
        texts(r@) == seq!["dotest-churn-sidecar"@, "Dotest.ChurnSidecar.csproj"@],
{
    let mut v: Vec<String> = Vec::new();
    assert(texts(v@) =~= Seq::<Seq<char>>::empty());
    push_text(&mut v, "dotest-churn-sidecar");
    push_text(&mut v, "Dotest.ChurnSidecar.csproj");
    assert(texts(v@) =~= seq!["dotest-churn-sidecar"@, "Dotest.ChurnSidecar.csproj"@]);
    v
}

/// A program and its arguments.
#[derive(Clone, Debug)]
pub struct ProgramCall {
    pub program: String,
    pub arguments: Vec<String>,
}

#[verifier::ext_equal]
pub struct ProgramCallView {
    pub program: Seq<char>,
    pub arguments: Seq<Seq<char>>,
}

impl View for ProgramCall {
    type V = ProgramCallView;

    open spec fn view(&self) -> ProgramCallView {
        ProgramCallView { program: self.program@, arguments: texts(self.arguments@) }
    }
}

/// How the sidecar is started: the program that stands next to this one, or the
/// project of a source checkout.
pub open spec fn sidecar_call(
    sibling: Option<Seq<char>>,
    project: Option<Seq<char>>,
) -> Option<ProgramCallView> {
    match (sibling, project) {
        (Some(path), _) => Some(ProgramCallView { program: path, arguments: seq![] }),
        (None, Some(path)) => Some(
            ProgramCallView {
                program: "dotnet"@,
                arguments: seq!["run"@, "--project"@, path, "-v"@, "q"@, "--"@],
            },
        ),
        (None, None) => None,
    }
}

pub open spec fn sidecar_missing(windows: bool) -> Seq<char> {
    "Churn sidecar not found. Keep `"@ + sidecar_name(windows)
        + "` next to the `dotest` binary (release archive), or run from a source checkout."@
}

/// `sibling` is the path of the program next to this one, `project` that of the
/// sidecar's project, each only if it is a file.
pub fn resolve_churn_sidecar_command(
    windows: bool,
    sibling: Option<String>,
    project: Option<String>,
) -> (r: Result<ProgramCall, String>)
    ensures
        match sidecar_call(opt_text(sibling), opt_text(project)) {
            Some(call) => r is Ok && r->Ok_0@ == call,
            None => r is Err && r->Err_0@ == sidecar_missing(windows),
        },
{
    let mut arguments: Vec<String> = Vec::new();
    assert(texts(arguments@) =~= Seq::<Seq<char>>::empty());
    match sibling {
        Some(path) => Ok(ProgramCall { program: path, arguments }),
        None => match project {
            Some(path) => {
                push_text(&mut arguments, "run");
                push_text(&mut arguments, "--project");
                push_text(&mut arguments, path.as_str());
                push_text(&mut arguments, "-v");
                push_text(&mut arguments, "q");
                push_text(&mut arguments, "--");
                assert(texts(arguments@) =~= seq!["run"@, "--project"@, path@, "-v"@, "q"@, "--"@]);
                Ok(ProgramCall { program: "dotnet".to_owned(), arguments })
            },
            None => {
                let mut s = concat(
                    "Churn sidecar not found. Keep `",
                    churn_sidecar_exe_name(windows),
                );
                s.append(
                    "` next to the `dotest` binary (release archive), or run from a source checkout.",
                );
                Err(s)
            },
        },
    }
}

/// The name of the file that a request is written to.
pub open spec fn request_file(process: u32, stamp: u128) -> Seq<char> {
    "dotest-churn-request-"@ + decimal(process as nat) + "-"@ + decimal(stamp as nat) + ".json"@
}

pub fn request_file_name(process: u32, stamp: u128) -> (r: String)
    ensures
        r@ == request_file(process, stamp),
{
    let mut s = concat("dotest-churn-request-", decimal_of(process as u128).as_str());
    s.append("-");
    let stamp_text = decimal_of(stamp);
    s.append(stamp_text.as_str());
    s.append(".json");
    s
}

/// The arguments that tell the sidecar where its request is.
pub fn request_arguments(path: &str) -> (r: Vec<String>)
    ensures
        texts(r@) == seq!["--request-file"@, path@],
{
    let mut v: Vec<String> = Vec::new();
    assert(texts(v@) =~= Seq::<Seq<char>>::empty());
    push_text(&mut v, "--request-file");
    push_text(&mut v, path);
    assert(texts(v@) =~= seq!["--request-file"@, path@]);
    v
}

/// The arguments of `taskkill` that end a process and those it started.
pub fn taskkill_arguments(process: u32) -> (r: Vec<String>)
    ensures
        texts(r@) == seq!["/F"@, "/T"@, "/PID"@, decimal(process as nat)],
{
    let mut v: Vec<String> = Vec::new();
    assert(texts(v@) =~= Seq::<Seq<char>>::empty());
    push_text(&mut v, "/F");
    push_text(&mut v, "/T");
    push_text(&mut v, "/PID");
    push_text(&mut v, decimal_of(process as u128).as_str());
    assert(texts(v@) =~= seq!["/F"@, "/T"@, "/PID"@, decimal(process as nat)]);
    v
}

} // verus!
