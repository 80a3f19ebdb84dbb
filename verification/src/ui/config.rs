//! Settings of the interactive session.

use vstd::prelude::*;

use crate::text::{opt_text, texts};
use crate::ui::leaf_results::clone_texts;

verus! {

#[derive(Clone, Copy, Debug, PartialEq, Eq, Structural)]
pub enum Verbosity {
    Minimal,
    Normal,
    Detailed,
}

#[derive(Clone, Copy, Debug, PartialEq, Eq, Structural)]
pub enum OutputMode {
    Split,
    Fullscreen,
}

/// How results of a run are shown.
#[derive(Clone, Copy, Debug, PartialEq, Eq, Structural)]
pub enum ViewMode {
    /// Colors and counts in the tree, and the output of the focused leaf only.
    Results,
    /// The output of the run as it comes.
    LiveOutput,
}

/// A named selection of tests.
#[derive(Clone, Debug)]
pub struct TestPreset {
    pub name: String,
    pub tag: Option<String>,
    pub tests: Vec<String>,
}

#[verifier::ext_equal]
pub struct PresetView {
    pub name: Seq<char>,
    pub tag: Option<Seq<char>>,
    pub tests: Seq<Seq<char>>,
}

impl View for TestPreset {
    type V = PresetView;

    open spec fn view(&self) -> PresetView {
        PresetView { name: self.name@, tag: opt_text(self.tag), tests: texts(self.tests@) }
    }
}

pub open spec fn preset_views(presets: Seq<TestPreset>) -> Seq<PresetView> {
    presets.map_values(|p: TestPreset| p@)
}

#[derive(Clone, Debug)]
pub struct RunConfig {
    pub no_build: bool,
    /// Passes `--no-restore` to `dotnet test`.
    pub no_restore: bool,
    pub verbosity: Verbosity,
    /// Without effect: the list of tests is always kept. It is here so that
    /// settings files that name it can be read.
    pub cache_tests: bool,
    pub output_mode: OutputMode,
    pub view_mode: ViewMode,
    /// Remembered height of the tests pane where the output stands below it.
    pub tests_pane_rows: Option<u16>,
    /// Remembered width of the list in the summary of failures.
    pub failed_summary_list_pane_cols: Option<u16>,
    /// Runs the checked tests again when a source file changes.
    pub manual_watch_enabled: bool,
    pub manual_watch_delay_ms: u32,
    /// Asks before Esc ends the session.
    pub confirm_exit_on_esc: bool,
    pub presets: Vec<TestPreset>,
}

/// What a [`RunConfig`] says, as values.
#[verifier::ext_equal]
pub struct ConfigView {
    pub no_build: bool,
    pub no_restore: bool,
    pub verbosity: Verbosity,
    pub cache_tests: bool,
    pub output_mode: OutputMode,
    pub view_mode: ViewMode,
    pub tests_pane_rows: Option<u16>,
    pub failed_summary_list_pane_cols: Option<u16>,
    pub manual_watch_enabled: bool,
    pub manual_watch_delay_ms: u32,
    pub confirm_exit_on_esc: bool,
    pub presets: Seq<PresetView>,
}

impl View for RunConfig {
    type V = ConfigView;

    open spec fn view(&self) -> ConfigView {
        ConfigView {
            no_build: self.no_build,
            no_restore: self.no_restore,
            verbosity: self.verbosity,
            cache_tests: self.cache_tests,
            output_mode: self.output_mode,
            view_mode: self.view_mode,
            tests_pane_rows: self.tests_pane_rows,
            failed_summary_list_pane_cols: self.failed_summary_list_pane_cols,
            manual_watch_enabled: self.manual_watch_enabled,
            manual_watch_delay_ms: self.manual_watch_delay_ms,
            confirm_exit_on_esc: self.confirm_exit_on_esc,
            presets: preset_views(self.presets@),
        }
    }
}

pub const DEFAULT_WATCH_DELAY_MS: u32 = 2000;

pub const MIN_WATCH_DELAY_MS: u32 = 200;

pub const MAX_WATCH_DELAY_MS: u32 = 20_000;

/// How much one key press changes the delay.
pub const WATCH_DELAY_STEP_MS: u32 = 200;

/// The settings of a session for which none were saved.
pub open spec fn default_config() -> ConfigView {
    ConfigView {
        no_build: true,
        no_restore: true,
        verbosity: Verbosity::Normal,
        cache_tests: false,
        output_mode: OutputMode::Split,
        view_mode: ViewMode::Results,
        tests_pane_rows: None,
        failed_summary_list_pane_cols: None,
        manual_watch_enabled: false,
        manual_watch_delay_ms: DEFAULT_WATCH_DELAY_MS,
        confirm_exit_on_esc: true,
        presets: Seq::empty(),
    }
}

pub fn default_output_mode() -> (r: OutputMode)
    ensures
        r == default_config().output_mode,
{
    OutputMode::Split
}

pub fn default_view_mode() -> (r: ViewMode)
    ensures
        r == default_config().view_mode,
{
    ViewMode::Results
}

pub fn default_manual_watch_delay_ms() -> (r: u32)
    ensures
        r == default_config().manual_watch_delay_ms,
{
    DEFAULT_WATCH_DELAY_MS
}

pub fn default_no_restore() -> (r: bool)
    ensures
        r == default_config().no_restore,
{
    true
}

pub fn default_confirm_exit_on_esc() -> (r: bool)
    ensures
        r == default_config().confirm_exit_on_esc,
{
    true
}

impl Default for RunConfig {
    fn default() -> (r: Self)
        ensures
            r@ == default_config(),
    {
        let presets: Vec<TestPreset> = Vec::new();
        assert(preset_views(presets@) =~= Seq::<PresetView>::empty());
        RunConfig {
            no_build: true,
            no_restore: default_no_restore(),
            verbosity: Verbosity::Normal,
            cache_tests: false,
            output_mode: default_output_mode(),
            view_mode: default_view_mode(),
            tests_pane_rows: None,
            failed_summary_list_pane_cols: None,
            manual_watch_enabled: false,
            manual_watch_delay_ms: default_manual_watch_delay_ms(),
            confirm_exit_on_esc: default_confirm_exit_on_esc(),
            presets,
        }
    }
}

/// The settings in `parsed`, or those of a session for which none were saved.
pub fn loaded_or_default(parsed: Option<RunConfig>) -> (r: RunConfig)
    ensures
        r@ == match parsed {
            Some(c) => c@,
            None => default_config(),
        },
{
    match parsed {
        Some(c) => c,
        None => RunConfig::default(),
    }
}

pub fn clone_preset(p: &TestPreset) -> (r: TestPreset)
    ensures
        r@ == p@,
{
    TestPreset {
        name: p.name.clone(),
        tag: match &p.tag {
            Some(t) => Some(t.clone()),
            None => None,
        },
        tests: clone_texts(&p.tests),
    }
}

// ---------------------------------------------------------------------------
// Changes
// ---------------------------------------------------------------------------
pub open spec fn next_verbosity(v: Verbosity) -> Verbosity {
    match v {
        Verbosity::Normal => Verbosity::Detailed,
        Verbosity::Detailed => Verbosity::Minimal,
        Verbosity::Minimal => Verbosity::Normal,
    }
}

impl Verbosity {
    pub fn next(self) -> (r: Self)
        ensures
            r == next_verbosity(self),
    {
        match self {
            Verbosity::Normal => Verbosity::Detailed,
            Verbosity::Detailed => Verbosity::Minimal,
            Verbosity::Minimal => Verbosity::Normal,
        }
    }
}

pub open spec fn other_output_mode(m: OutputMode) -> OutputMode {
    match m {
        OutputMode::Split => OutputMode::Fullscreen,
        OutputMode::Fullscreen => OutputMode::Split,
    }
}

impl OutputMode {
    pub fn other(self) -> (r: Self)
        ensures
            r == other_output_mode(self),
    {
        match self {
            OutputMode::Split => OutputMode::Fullscreen,
            OutputMode::Fullscreen => OutputMode::Split,
        }
    }
}

pub open spec fn other_view_mode(m: ViewMode) -> ViewMode {
    match m {
        ViewMode::Results => ViewMode::LiveOutput,
        ViewMode::LiveOutput => ViewMode::Results,
    }
}

impl ViewMode {
    pub fn other(self) -> (r: Self)
        ensures
            r == other_view_mode(self),
    {
        match self {
            ViewMode::Results => ViewMode::LiveOutput,
            ViewMode::LiveOutput => ViewMode::Results,
        }
    }
}

/// The nearest delay that is allowed.
pub open spec fn allowed_delay(ms: int) -> u32 {
    if ms < MIN_WATCH_DELAY_MS {
        MIN_WATCH_DELAY_MS
    } else if ms > MAX_WATCH_DELAY_MS {
        MAX_WATCH_DELAY_MS
    } else {
        ms as u32
    }
}

pub fn clamp_delay(ms: u32) -> (r: u32)
    ensures
        r == allowed_delay(ms as int),
{
    if ms < MIN_WATCH_DELAY_MS {
        MIN_WATCH_DELAY_MS
    } else if ms > MAX_WATCH_DELAY_MS {
        MAX_WATCH_DELAY_MS
    } else {
        ms
    }
}

pub fn shorter_delay(ms: u32) -> (r: u32)
    ensures
        r == allowed_delay(ms - WATCH_DELAY_STEP_MS),
{
    if ms < WATCH_DELAY_STEP_MS {
        MIN_WATCH_DELAY_MS
    } else {
        clamp_delay(ms - WATCH_DELAY_STEP_MS)
    }
}

pub fn longer_delay(ms: u32) -> (r: u32)
    requires
        ms <= u32::MAX - WATCH_DELAY_STEP_MS,
    ensures
        r == allowed_delay(ms + WATCH_DELAY_STEP_MS),
{
    clamp_delay(ms + WATCH_DELAY_STEP_MS)
}

/// Every press of the key shows more detail, until the third leads back to the
/// least; two lead back to the same layout and the same view.
pub proof fn law_settings_cycle(v: Verbosity, o: OutputMode, m: ViewMode)
    ensures
        next_verbosity(next_verbosity(next_verbosity(v))) == v,
        next_verbosity(v) != v,
        v == Verbosity::Minimal <==> next_verbosity(v) == Verbosity::Normal,
        v == Verbosity::Normal <==> next_verbosity(v) == Verbosity::Detailed,
        other_output_mode(other_output_mode(o)) == o,
        other_output_mode(o) != o,
        other_view_mode(other_view_mode(m)) == m,
        other_view_mode(m) != m,
{
}

/// A delay stays what it is once it is allowed, and every change of it is
/// allowed.
pub proof fn law_delays_are_allowed(ms: int)
    ensures
        MIN_WATCH_DELAY_MS <= allowed_delay(ms) <= MAX_WATCH_DELAY_MS,
        MIN_WATCH_DELAY_MS <= ms <= MAX_WATCH_DELAY_MS ==> allowed_delay(ms) == ms,
        allowed_delay(allowed_delay(ms) as int) == allowed_delay(ms),
{
}

/// What the runner is told about its log.
pub open spec fn logger_argument(v: Verbosity) -> Seq<char> {
    match v {
        Verbosity::Minimal => "console"@,
        Verbosity::Normal => "console;verbosity=normal"@,
        Verbosity::Detailed => "console;verbosity=detailed"@,
    }
}

impl Verbosity {
    pub fn logger(self) -> (r: String)
        ensures
            r@ == logger_argument(self),
    {
        match self {
            Verbosity::Minimal => "console".to_owned(),
            Verbosity::Normal => "console;verbosity=normal".to_owned(),
            Verbosity::Detailed => "console;verbosity=detailed".to_owned(),
        }
    }
}

} // verus!
