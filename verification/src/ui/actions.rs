//! What a session asks to be done outside it.

use vstd::prelude::*;

use crate::text::texts;
use crate::ui::failure_summary::{StackTarget, TargetView};
use crate::ui::output::{RunRequest, RunRequestView};

verus! {

/// A churn that the sidecar is to run.
#[derive(Clone, Debug)]
pub struct SidecarPlan {
    pub target_path: String,
    pub filter: String,
    pub test_names: Vec<String>,
    pub iteration_limit: Option<usize>,
    pub no_build: bool,
    pub no_restore: bool,
}

#[verifier::ext_equal]
pub struct SidecarPlanView {
    pub target_path: Seq<char>,
    pub filter: Seq<char>,
    pub test_names: Seq<Seq<char>>,
    pub iteration_limit: Option<usize>,
    pub no_build: bool,
    pub no_restore: bool,
}

impl View for SidecarPlan {
    type V = SidecarPlanView;

    open spec fn view(&self) -> SidecarPlanView {
        SidecarPlanView {
            target_path: self.target_path@,
            filter: self.filter@,
            test_names: texts(self.test_names@),
            iteration_limit: self.iteration_limit,
            no_build: self.no_build,
            no_restore: self.no_restore,
        }
    }
}

#[derive(Clone, Debug)]
pub enum Action {
    Nothing,
    /// The session is over.
    Quit,
    SaveConfig,
    /// Source files are to be watched, or not, as the settings say.
    ApplyWatch,
    SaveConfigAndApplyWatch,
    /// The file with the outcomes of the last run is to go.
    DeleteResults,
    SaveResults,
    /// A text for the clipboard, and what to say when it is there or could not
    /// be put there.
    Copy { text: String, done: String, refused: String },
    /// A place in a file is to be shown in the editor.
    Open(StackTarget),
    StartRun(RunRequest),
    /// The first iteration of a churn.
    StartChurn(RunRequest),
    StartSidecar(SidecarPlan),
    /// Any later iteration of a churn.
    NextIteration(RunRequest),
    /// The process is to be ended.
    Kill(u32),
    /// The tests are to be looked for again.
    Rediscover { no_restore: bool },
}

/// What an [`Action`] says, as values.
#[verifier::ext_equal]
pub enum ActionView {
    Nothing,
    Quit,
    SaveConfig,
    ApplyWatch,
    SaveConfigAndApplyWatch,
    DeleteResults,
    SaveResults,
    Copy { text: Seq<char>, done: Seq<char>, refused: Seq<char> },
    Open(TargetView),
    StartRun(RunRequestView),
    StartChurn(RunRequestView),
    StartSidecar(SidecarPlanView),
    NextIteration(RunRequestView),
    Kill(u32),
    Rediscover { no_restore: bool },
}

impl View for Action {
    type V = ActionView;

    open spec fn view(&self) -> ActionView {
        match self {
            Action::Nothing => ActionView::Nothing,
            Action::Quit => ActionView::Quit,
            Action::SaveConfig => ActionView::SaveConfig,
            Action::ApplyWatch => ActionView::ApplyWatch,
            Action::SaveConfigAndApplyWatch => ActionView::SaveConfigAndApplyWatch,
            Action::DeleteResults => ActionView::DeleteResults,
            Action::SaveResults => ActionView::SaveResults,
            Action::Copy { text, done, refused } => ActionView::Copy {
                text: text@,
                done: done@,
                refused: refused@,
            },
            Action::Open(target) => ActionView::Open(target@),
            Action::StartRun(r) => ActionView::StartRun(r@),
            Action::StartChurn(r) => ActionView::StartChurn(r@),
            Action::StartSidecar(p) => ActionView::StartSidecar(p@),
            Action::NextIteration(r) => ActionView::NextIteration(r@),
            Action::Kill(pid) => ActionView::Kill(*pid),
            Action::Rediscover { no_restore } => ActionView::Rediscover { no_restore: *no_restore },
        }
    }
}

} // verus!
