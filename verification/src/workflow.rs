//! The workflows of the command line: picking a session or project, loading
//! a project (cloning it when missing, opening a branch worktree, creating a
//! managed worktree), and opening an ad hoc session.
//!
//! A workflow never touches the machine itself. Each [`FlowStep::Run`] names
//! what it needs ([`Need`]); the caller provides it and hands the
//! [`Outcome`] to [`Flow::step`].
use vstd::prelude::*;

use crate::backend::{
    backend_error_text, combined_output, combined_text, BackendError, Call, CallSpec, CommandOutput, InputSpec,
    RequestSpec,
};
use crate::cli::{
    branch_session, branch_session_name, build_pick_targets, clone_prompt, clone_question, confirms,
    confirms_clone, pick_map, pick_target, picker_items, PickTarget, PickTargetSpec, PickTargets,
};
use crate::fzf::{fzf_error_text, FzfError};
use crate::git::{
    branch_before_path_text, branch_index, branch_names, clone_repository_request, create_worktree_request,
    git_in, list_local_branches_request, list_worktrees_request, managed_path, parse_local_branches_output,
    parse_worktrees_output, parsed_worktrees, registered_at, worktree_for_branch, Worktree, WorktreeSpec,
};
use crate::opener::{open_session, opener_next, opener_start, OpenerSpec, OpenerStep, SessionOpener, StepSpec};
use crate::paths::{debug_path, file_name, path_debug, path_parent};
use crate::sort::{sorted_of, views};
use crate::text::{concat2, concat3, has_name_char, sanitize, str_views};
use crate::tmux::{list_sessions_request, parse_list_sessions_output, sessions_in, tmux, TmuxError, TmuxErrorSpec};
use crate::{
    opt_str_view, project_lookup, template_for, valid_names, Config, ConfigSpec, ResolvedProject, ResolvedSpec,
    SessionConfig, SessionSpec,
};

verus! {

/// What a workflow needs from its caller.
#[derive(Debug)]
pub enum Need {
    /// Run a command; answered by [`Outcome::Output`].
    Run(Call),
    /// Whether a path exists; answered by [`Outcome::Flag`].
    PathExists(String),
    /// Whether a path is a directory; answered by [`Outcome::Flag`].
    PathIsDir(String),
    /// Create a directory and its parents; answered by [`Outcome::Created`].
    CreateDir(String),
    /// The canonical form of a path; answered by [`Outcome::Path`].
    Canonicalize(String),
    /// The working directory; answered by [`Outcome::Path`].
    CurrentDir,
    /// Show the question on stderr and read a line from stdin; answered by
    /// [`Outcome::Line`].
    Ask(String),
    /// Let the user pick one of `items` with fzf under `prompt`; answered by
    /// [`Outcome::Picked`].
    Pick { items: Vec<String>, prompt: String },
}

/// What a [`Need`] stands for.
pub enum NeedSpec {
    Run(CallSpec),
    PathExists(Seq<char>),
    PathIsDir(Seq<char>),
    CreateDir(Seq<char>),
    Canonicalize(Seq<char>),
    CurrentDir,
    Ask(Seq<char>),
    Pick { items: Seq<Seq<char>>, prompt: Seq<char> },
}

impl View for Need {
    type V = NeedSpec;

    open spec fn view(&self) -> NeedSpec {
        match self {
            Need::Run(c) => NeedSpec::Run(c@),
            Need::PathExists(p) => NeedSpec::PathExists(p@),
            Need::PathIsDir(p) => NeedSpec::PathIsDir(p@),
            Need::CreateDir(p) => NeedSpec::CreateDir(p@),
            Need::Canonicalize(p) => NeedSpec::Canonicalize(p@),
            Need::CurrentDir => NeedSpec::CurrentDir,
            Need::Ask(q) => NeedSpec::Ask(q@),
            Need::Pick { items, prompt } => NeedSpec::Pick { items: str_views(items@), prompt: prompt@ },
        }
    }
}

/// The answer to a [`Need`].
#[derive(Debug)]
pub enum Outcome {
    /// The captured result of a command (for a status call, an empty output
    /// with its exit status).
    Output(Result<CommandOutput, BackendError>),
    /// A yes or no.
    Flag(Result<bool, BackendError>),
    /// A directory was created.
    Created(Result<(), BackendError>),
    /// A path.
    Path(Result<String, BackendError>),
    /// The line read, or why it could not be read.
    Line(Result<String, String>),
    /// What the user picked.
    Picked(Result<Option<String>, FzfError>),
}

/// A project to open and the template to open it with.
#[derive(Debug)]
pub struct Job {
    pub project: ResolvedProject,
    pub template: SessionConfig,
}

/// What a [`Job`] stands for.
pub struct JobSpec {
    pub project: ResolvedSpec,
    pub template: SessionSpec,
}

impl View for Job {
    type V = JobSpec;

    open spec fn view(&self) -> JobSpec {
        JobSpec { project: self.project@, template: self.template@ }
    }
}

/// What to do once a project's directory is there.
#[derive(Debug)]
pub enum Then {
    /// Open the project's session in its directory.
    Open,
    /// Open the worktree of this branch.
    Branch(String),
    /// Let the user pick a branch, if the project has any.
    Interactive,
}

/// What a [`Then`] stands for.
pub enum ThenSpec {
    Open,
    Branch(Seq<char>),
    Interactive,
}

impl View for Then {
    type V = ThenSpec;

    open spec fn view(&self) -> ThenSpec {
        match self {
            Then::Open => ThenSpec::Open,
            Then::Branch(b) => ThenSpec::Branch(b@),
            Then::Interactive => ThenSpec::Interactive,
        }
    }
}

/// Where a workflow stands: what it asked for last.
pub enum Phase {
    /// The running sessions were asked for, to build the picker.
    ListSessions { projects: Vec<String> },
    /// The user is picking a session or project.
    Choose { targets: PickTargets },
    /// The picked session is being attached.
    AttachChosen,
    /// Whether the project's directory exists.
    PathExists { job: Job, then: Then },
    /// Whether the project's path is a directory.
    PathIsDir { job: Job, then: Then },
    /// Whether the user wants the missing project cloned.
    ConfirmClone { job: Job, then: Then },
    /// The directory that will hold the clone is being created.
    CloneParent { job: Job, then: Then, parent: String },
    /// The repository is being cloned.
    Clone { job: Job, then: Then },
    /// The project's local branches were asked for: to check the `wanted`
    /// branch, or, without one, to offer them.
    ListBranches { job: Job, wanted: Option<String> },
    /// The user is picking a branch.
    ChooseBranch { job: Job },
    /// The project's worktrees were asked for, to find `branch`'s.
    ListWorktrees { job: Job, branch: String },
    /// Whether the managed worktree path exists.
    ManagedExists { job: Job, branch: String, worktrees: Vec<Worktree>, path: String },
    /// Canonical forms are being gathered: of `path` (`next` is 0), then of
    /// each worktree's path (`next` is its position plus one).
    Canonical {
        job: Job,
        branch: String,
        worktrees: Vec<Worktree>,
        path: String,
        next: usize,
        canonical: Vec<(String, String)>,
    },
    /// The directory that will hold the new worktree is being created.
    WorktreeParent { job: Job, branch: String, path: String, parent: String },
    /// The worktree is being added.
    AddWorktree { job: Job, branch: String, path: String },
    /// The working directory was asked for, as the session's root.
    CurrentDir { template: SessionConfig, name: Option<String> },
    /// Whether the session's root exists.
    RootExists { template: SessionConfig, name: Option<String>, root: String },
    /// Whether the session's root is a directory.
    RootIsDir { template: SessionConfig, name: Option<String>, root: String },
    /// The tmux session is being opened.
    Opening(SessionOpener),
}

/// What a [`Phase`] stands for.
pub enum PhaseV {
    ListSessions { projects: Seq<Seq<char>> },
    Choose { targets: Map<Seq<char>, PickTargetSpec> },
    AttachChosen,
    PathExists { job: JobSpec, then: ThenSpec },
    PathIsDir { job: JobSpec, then: ThenSpec },
    ConfirmClone { job: JobSpec, then: ThenSpec },
    CloneParent { job: JobSpec, then: ThenSpec, parent: Seq<char> },
    Clone { job: JobSpec, then: ThenSpec },
    ListBranches { job: JobSpec, wanted: Option<Seq<char>> },
    ChooseBranch { job: JobSpec },
    ListWorktrees { job: JobSpec, branch: Seq<char> },
    ManagedExists { job: JobSpec, branch: Seq<char>, worktrees: Seq<WorktreeSpec>, path: Seq<char> },
    Canonical {
        job: JobSpec,
        branch: Seq<char>,
        worktrees: Seq<WorktreeSpec>,
        path: Seq<char>,
        next: nat,
        canonical: Seq<(Seq<char>, Seq<char>)>,
    },
    WorktreeParent { job: JobSpec, branch: Seq<char>, path: Seq<char>, parent: Seq<char> },
    AddWorktree { job: JobSpec, branch: Seq<char>, path: Seq<char> },
    CurrentDir { template: SessionSpec, name: Option<Seq<char>> },
    RootExists { template: SessionSpec, name: Option<Seq<char>>, root: Seq<char> },
    RootIsDir { template: SessionSpec, name: Option<Seq<char>>, root: Seq<char> },
    Opening(OpenerSpec),
}

impl View for Phase {
    type V = PhaseV;

    open spec fn view(&self) -> PhaseV {
        match self {
            Phase::ListSessions { projects } => PhaseV::ListSessions { projects: str_views(projects@) },
            Phase::Choose { targets } => PhaseV::Choose { targets: targets@ },
            Phase::AttachChosen => PhaseV::AttachChosen,
            Phase::PathExists { job, then } => PhaseV::PathExists { job: job@, then: then@ },
            Phase::PathIsDir { job, then } => PhaseV::PathIsDir { job: job@, then: then@ },
            Phase::ConfirmClone { job, then } => PhaseV::ConfirmClone { job: job@, then: then@ },
            Phase::CloneParent { job, then, parent } => PhaseV::CloneParent { job: job@, then: then@, parent: parent@ },
            Phase::Clone { job, then } => PhaseV::Clone { job: job@, then: then@ },
            Phase::ListBranches { job, wanted } => PhaseV::ListBranches {
                job: job@,
                wanted: crate::git::opt_view(*wanted),
            },
            Phase::ChooseBranch { job } => PhaseV::ChooseBranch { job: job@ },
            Phase::ListWorktrees { job, branch } => PhaseV::ListWorktrees { job: job@, branch: branch@ },
            Phase::ManagedExists { job, branch, worktrees, path } => PhaseV::ManagedExists {
                job: job@,
                branch: branch@,
                worktrees: views(worktrees@),
                path: path@,
            },
            Phase::Canonical { job, branch, worktrees, path, next, canonical } => PhaseV::Canonical {
                job: job@,
                branch: branch@,
                worktrees: views(worktrees@),
                path: path@,
                next: *next as nat,
                canonical: views(canonical@),
            },
            Phase::WorktreeParent { job, branch, path, parent } => PhaseV::WorktreeParent {
                job: job@,
                branch: branch@,
                path: path@,
                parent: parent@,
            },
            Phase::AddWorktree { job, branch, path } => PhaseV::AddWorktree { job: job@, branch: branch@, path: path@ },
            Phase::CurrentDir { template, name } => PhaseV::CurrentDir {
                template: template@,
                name: crate::git::opt_view(*name),
            },
            Phase::RootExists { template, name, root } => PhaseV::RootExists {
                template: template@,
                name: crate::git::opt_view(*name),
                root: root@,
            },
            Phase::RootIsDir { template, name, root } => PhaseV::RootIsDir {
                template: template@,
                name: crate::git::opt_view(*name),
                root: root@,
            },
            Phase::Opening(o) => PhaseV::Opening(o@),
        }
    }
}

/// A workflow in progress: the configuration, whether the process runs
/// inside tmux, the session template override, and the phase.
pub struct Flow {
    config: Config,
    in_tmux: bool,
    session_override: Option<String>,
    phase: Phase,
}

/// What a [`Flow`] stands for.
pub struct FlowSpec {
    pub config: ConfigSpec,
    pub in_tmux: bool,
    pub session_override: Option<Seq<char>>,
    pub phase: PhaseV,
}

impl View for Flow {
    type V = FlowSpec;

    closed spec fn view(&self) -> FlowSpec {
        FlowSpec {
            config: self.config@,
            in_tmux: self.in_tmux,
            session_override: crate::git::opt_view(self.session_override),
            phase: self.phase@,
        }
    }
}

/// The next thing to do in a workflow.
pub enum FlowStep {
    /// Provide what is needed and hand the outcome to the flow's `step`.
    Run(Flow, Need),
    /// Finished: `Ok`, or the message of what went wrong.
    Done(Result<(), String>),
}

/// What a [`FlowStep`] stands for.
pub enum FlowStepSpec {
    Run(FlowSpec, NeedSpec),
    Done(Result<(), Seq<char>>),
}

/// The view of a workflow's result.
pub open spec fn flow_result(r: Result<(), String>) -> Result<(), Seq<char>> {
    match r {
        Ok(()) => Ok(()),
        Err(m) => Err(m@),
    }
}

impl View for FlowStep {
    type V = FlowStepSpec;

    open spec fn view(&self) -> FlowStepSpec {
        match self {
            FlowStep::Run(f, n) => FlowStepSpec::Run(f@, n@),
            FlowStep::Done(r) => FlowStepSpec::Done(flow_result(*r)),
        }
    }
}

// ---------------------------------------------------------------------------
// What each step does.

/// A flow with the given settings, in `phase`.
pub open spec fn flow_at(c: ConfigSpec, in_tmux: bool, ov: Option<Seq<char>>, phase: PhaseV) -> FlowSpec {
    FlowSpec { config: c, in_tmux, session_override: ov, phase }
}

/// `f` in another phase.
pub open spec fn with_phase(f: FlowSpec, phase: PhaseV) -> FlowSpec {
    flow_at(f.config, f.in_tmux, f.session_override, phase)
}

/// Finished with message `m`.
pub open spec fn fail(m: Seq<char>) -> FlowStepSpec {
    FlowStepSpec::Done(Err(m))
}

/// The message for an outcome that does not answer what was needed.
pub open spec fn mismatch_text() -> Seq<char> {
    "the reply does not answer the request"@
}

/// The message of a tmux error.
pub open spec fn tmux_text(e: TmuxErrorSpec) -> Seq<char> {
    match e {
        TmuxErrorSpec::Io(m) => "IO error: "@ + m,
        TmuxErrorSpec::Command(m) => m,
        TmuxErrorSpec::InTmux => "Please do not use this command in tmux"@,
        TmuxErrorSpec::InvalidSessionName(s) => "\""@ + s + "\" is not a valid tmux session name"@,
    }
}

/// Goes on with the tmux session opener's step.
pub open spec fn enter_opener(f: FlowSpec, st: StepSpec) -> FlowStepSpec {
    match st {
        StepSpec::Run(o, c) => FlowStepSpec::Run(with_phase(f, PhaseV::Opening(o)), NeedSpec::Run(c)),
        StepSpec::Done(Ok(())) => FlowStepSpec::Done(Ok(())),
        StepSpec::Done(Err(e)) => fail(tmux_text(e)),
    }
}

/// The message for a project that is not configured.
pub open spec fn not_configured(name: Seq<char>) -> Seq<char> {
    "Project \""@ + name + "\" is not configured"@
}

/// The message for a session template that is not configured.
pub open spec fn template_missing(name: Seq<char>) -> Seq<char> {
    "Session template \""@ + name + "\" is not configured"@
}

/// The git request that lists a project's local branches.
pub open spec fn branches_call(path: Seq<char>) -> NeedSpec {
    NeedSpec::Run(
        CallSpec::Output(git_in(path, seq!["for-each-ref"@, "--format=%(refname:short)"@, "refs/heads"@])),
    )
}

/// How opening project `name` begins: refused inside tmux; the project and
/// its template must be configured; then the project's directory is checked.
pub open spec fn start_project(
    c: ConfigSpec,
    in_tmux: bool,
    ov: Option<Seq<char>>,
    name: Seq<char>,
    then: ThenSpec,
) -> FlowStepSpec {
    if in_tmux {
        fail(tmux_text(TmuxErrorSpec::InTmux))
    } else {
        match project_lookup(c, name) {
            None => fail(not_configured(name)),
            Some(p) => match template_for(c, p, ov) {
                None => fail(
                    template_missing(
                        match ov {
                            Some(t) => t,
                            None => "<project default>"@,
                        },
                    ),
                ),
                Some(t) => FlowStepSpec::Run(
                    flow_at(c, in_tmux, ov, PhaseV::PathExists { job: JobSpec { project: p, template: t }, then }),
                    NeedSpec::PathExists(p.path),
                ),
            },
        }
    }
}

/// Once the project's directory is there: open it, or go on to its branches.
pub open spec fn path_ready(f: FlowSpec, job: JobSpec, then: ThenSpec) -> FlowStepSpec {
    match then {
        ThenSpec::Open => enter_opener(f, opener_start(job.project.name, job.project.path, job.template.windows)),
        ThenSpec::Branch(b) => FlowStepSpec::Run(
            with_phase(f, PhaseV::ListBranches { job, wanted: Some(b) }),
            branches_call(job.project.path),
        ),
        ThenSpec::Interactive => FlowStepSpec::Run(
            with_phase(f, PhaseV::ListBranches { job, wanted: None }),
            branches_call(job.project.path),
        ),
    }
}

/// Opens the session of `branch`'s worktree at `path`.
pub open spec fn open_worktree(f: FlowSpec, job: JobSpec, branch: Seq<char>, path: Seq<char>) -> FlowStepSpec {
    enter_opener(f, opener_start(branch_session(job.project.name, branch), path, job.template.windows))
}

/// The git call that adds the worktree of `branch` at `path`.
pub open spec fn add_worktree_call(job: JobSpec, branch: Seq<char>, path: Seq<char>) -> NeedSpec {
    NeedSpec::Run(CallSpec::Output(git_in(job.project.path, seq!["worktree"@, "add"@, path, branch])))
}

/// Creates `branch`'s worktree at `path`: its parent directory first, if
/// it has one.
pub open spec fn create_worktree_step(f: FlowSpec, job: JobSpec, branch: Seq<char>, path: Seq<char>) -> FlowStepSpec {
    match path_parent(path) {
        Some(parent) => FlowStepSpec::Run(
            with_phase(f, PhaseV::WorktreeParent { job, branch, path, parent }),
            NeedSpec::CreateDir(parent),
        ),
        None => FlowStepSpec::Run(
            with_phase(f, PhaseV::AddWorktree { job, branch, path }),
            add_worktree_call(job, branch, path),
        ),
    }
}

/// The path whose canonical form is gathered at position `k`.
pub open spec fn canon_target(path: Seq<char>, ws: Seq<WorktreeSpec>, k: nat) -> Seq<char> {
    if k == 0 {
        path
    } else {
        ws[k - 1].path
    }
}

/// The message for a reused managed worktree path.
pub open spec fn conflict_text(path: Seq<char>, branch: Seq<char>) -> Seq<char> {
    "Managed worktree path "@ + path + " already exists but is not registered for branch \""@ + branch + "\""@
}

/// After the canonical forms: create the worktree, unless the path belongs
/// to something other than `branch`'s worktree.
pub open spec fn after_canonical(
    f: FlowSpec,
    job: JobSpec,
    branch: Seq<char>,
    ws: Seq<WorktreeSpec>,
    path: Seq<char>,
    canonical: Seq<(Seq<char>, Seq<char>)>,
) -> FlowStepSpec {
    if registered_at(ws, path, branch, canonical) {
        create_worktree_step(f, job, branch, path)
    } else {
        fail(conflict_text(path, branch))
    }
}

/// The tmux session name of an ad hoc session: the override, else the last
/// component of the root.
pub open spec fn adhoc_name(name: Option<Seq<char>>, root: Seq<char>) -> Option<Seq<char>> {
    match name {
        Some(n) => Some(n),
        None => file_name(root),
    }
}

/// How a workflow goes on after outcome `o`.
pub open spec fn flow_next(f: FlowSpec, o: Outcome) -> FlowStepSpec {
    match f.phase {
        PhaseV::ListSessions { projects } => match o {
            Outcome::Output(Err(e)) => fail(tmux_text(crate::tmux::tmux_error_from(e))),
            Outcome::Output(Ok(out)) => match sessions_in(out.status.spec_success(), combined_text(out)) {
                Err(m) => fail(m),
                Ok(names) => FlowStepSpec::Run(
                    with_phase(f, PhaseV::Choose { targets: pick_map(names, projects) }),
                    NeedSpec::Pick { items: picker_items(names, projects), prompt: "piquel> "@ },
                ),
            },
            _ => fail(mismatch_text()),
        },
        PhaseV::Choose { targets } => match o {
            Outcome::Picked(Err(e)) => fail(fzf_error_text(e)),
            Outcome::Picked(Ok(None)) => FlowStepSpec::Done(Ok(())),
            Outcome::Picked(Ok(Some(sel))) => if !targets.contains_key(sel@) {
                fail(crate::cli::unknown_item_text(sel@))
            } else {
                match targets[sel@] {
                    PickTargetSpec::TmuxSession(n) => if f.in_tmux {
                        fail(tmux_text(TmuxErrorSpec::InTmux))
                    } else {
                        FlowStepSpec::Run(
                            with_phase(f, PhaseV::AttachChosen),
                            NeedSpec::Run(CallSpec::Output(tmux(seq!["attach"@, "-t"@, n]))),
                        )
                    },
                    PickTargetSpec::Project(n) => start_project(
                        f.config,
                        f.in_tmux,
                        f.session_override,
                        n,
                        ThenSpec::Interactive,
                    ),
                }
            },
            _ => fail(mismatch_text()),
        },
        PhaseV::AttachChosen => match o {
            Outcome::Output(Err(e)) => fail(tmux_text(crate::tmux::tmux_error_from(e))),
            Outcome::Output(Ok(out)) => if out.status.spec_success() {
                FlowStepSpec::Done(Ok(()))
            } else {
                fail(combined_text(out))
            },
            _ => fail(mismatch_text()),
        },
        PhaseV::PathExists { job, then } => match o {
            Outcome::Flag(Err(e)) => fail(backend_error_text(e)),
            Outcome::Flag(Ok(true)) => FlowStepSpec::Run(
                with_phase(f, PhaseV::PathIsDir { job, then }),
                NeedSpec::PathIsDir(job.project.path),
            ),
            Outcome::Flag(Ok(false)) => FlowStepSpec::Run(
                with_phase(f, PhaseV::ConfirmClone { job, then }),
                NeedSpec::Ask(clone_question(job.project.name, job.project.path, job.project.repository)),
            ),
            _ => fail(mismatch_text()),
        },
        PhaseV::PathIsDir { job, then } => match o {
            Outcome::Flag(Err(e)) => fail(backend_error_text(e)),
            Outcome::Flag(Ok(true)) => path_ready(f, job, then),
            Outcome::Flag(Ok(false)) => fail(
                "Project \""@ + job.project.name + "\" path "@ + job.project.path + " is not a directory"@,
            ),
            _ => fail(mismatch_text()),
        },
        PhaseV::ConfirmClone { job, then } => match o {
            Outcome::Line(Err(m)) => fail(m@),
            Outcome::Line(Ok(answer)) => if !confirms(answer@) {
                fail(
                    "Project \""@ + job.project.name + "\" path "@ + job.project.path
                        + " does not exist; clone cancelled"@,
                )
            } else {
                match path_parent(job.project.path) {
                    Some(parent) => FlowStepSpec::Run(
                        with_phase(f, PhaseV::CloneParent { job, then, parent }),
                        NeedSpec::CreateDir(parent),
                    ),
                    None => FlowStepSpec::Run(
                        with_phase(f, PhaseV::Clone { job, then }),
                        NeedSpec::Run(
                            CallSpec::Status(
                                RequestSpec {
                                    program: "git"@,
                                    args: seq!["clone"@, job.project.repository, job.project.path],
                                    stdin: InputSpec::Inherit,
                                },
                            ),
                        ),
                    ),
                }
            },
            _ => fail(mismatch_text()),
        },
        PhaseV::CloneParent { job, then, parent } => match o {
            Outcome::Created(Err(_)) => fail("Failed to create project parent directory "@ + parent),
            Outcome::Created(Ok(())) => FlowStepSpec::Run(
                with_phase(f, PhaseV::Clone { job, then }),
                NeedSpec::Run(
                    CallSpec::Status(
                        RequestSpec {
                            program: "git"@,
                            args: seq!["clone"@, job.project.repository, job.project.path],
                            stdin: InputSpec::Inherit,
                        },
                    ),
                ),
            ),
            _ => fail(mismatch_text()),
        },
        PhaseV::Clone { job, then } => match o {
            Outcome::Output(Err(e)) => fail(backend_error_text(e)),
            Outcome::Output(Ok(out)) => if out.status.spec_success() {
                path_ready(f, job, then)
            } else {
                fail("Failed to clone repository "@ + job.project.repository + " into "@ + job.project.path)
            },
            _ => fail(mismatch_text()),
        },
        PhaseV::ListBranches { job, wanted } => match o {
            Outcome::Output(Err(e)) => fail(backend_error_text(e)),
            Outcome::Output(Ok(out)) => if !out.status.spec_success() {
                fail(combined_text(out))
            } else {
                let names = sorted_of(branch_names(combined_text(out)));
                match wanted {
                    None => if names.len() == 0 {
                        enter_opener(f, opener_start(job.project.name, job.project.path, job.template.windows))
                    } else {
                        FlowStepSpec::Run(
                            with_phase(f, PhaseV::ChooseBranch { job }),
                            NeedSpec::Pick { items: names, prompt: "branch> "@ },
                        )
                    },
                    Some(b) => if !names.contains(b) {
                        fail(
                            "Branch \""@ + b + "\" is not a local branch for project \""@ + job.project.name
                                + "\""@,
                        )
                    } else {
                        FlowStepSpec::Run(
                            with_phase(f, PhaseV::ListWorktrees { job, branch: b }),
                            NeedSpec::Run(
                                CallSpec::Output(git_in(job.project.path, seq!["worktree"@, "list"@, "--porcelain"@])),
                            ),
                        )
                    },
                }
            },
            _ => fail(mismatch_text()),
        },
        PhaseV::ChooseBranch { job } => match o {
            Outcome::Picked(Err(e)) => fail(fzf_error_text(e)),
            Outcome::Picked(Ok(None)) => FlowStepSpec::Done(Ok(())),
            Outcome::Picked(Ok(Some(b))) => FlowStepSpec::Run(
                with_phase(f, PhaseV::ListBranches { job, wanted: Some(b@) }),
                branches_call(job.project.path),
            ),
            _ => fail(mismatch_text()),
        },
        PhaseV::ListWorktrees { job, branch } => match o {
            Outcome::Output(Err(e)) => fail(backend_error_text(e)),
            Outcome::Output(Ok(out)) => if !out.status.spec_success() {
                fail(combined_text(out))
            } else {
                match parsed_worktrees(combined_text(out)) {
                    None => fail(branch_before_path_text()),
                    Some(ws) => if branch_index(ws, branch) < ws.len() {
                        open_worktree(f, job, branch, ws[branch_index(ws, branch) as int].path)
                    } else if sanitize(branch).len() == 0 {
                        fail("Branch \""@ + branch + "\" cannot be used as a managed worktree path segment"@)
                    } else {
                        let p = managed_path(f.config.worktrees_dir, job.project.name, branch);
                        FlowStepSpec::Run(
                            with_phase(f, PhaseV::ManagedExists { job, branch, worktrees: ws, path: p }),
                            NeedSpec::PathExists(p),
                        )
                    },
                }
            },
            _ => fail(mismatch_text()),
        },
        PhaseV::ManagedExists { job, branch, worktrees, path } => match o {
            Outcome::Flag(Err(e)) => fail(backend_error_text(e)),
            Outcome::Flag(Ok(false)) => create_worktree_step(f, job, branch, path),
            Outcome::Flag(Ok(true)) => FlowStepSpec::Run(
                with_phase(f, PhaseV::Canonical { job, branch, worktrees, path, next: 0, canonical: seq![] }),
                NeedSpec::Canonicalize(path),
            ),
            _ => fail(mismatch_text()),
        },
        PhaseV::Canonical { job, branch, worktrees, path, next, canonical } => match o {
            Outcome::Path(r) => {
                let gathered = match r {
                    Ok(c) => canonical.push((canon_target(path, worktrees, next), c@)),
                    Err(_) => canonical,
                };
                if next < worktrees.len() {
                    FlowStepSpec::Run(
                        with_phase(
                            f,
                            PhaseV::Canonical { job, branch, worktrees, path, next: next + 1, canonical: gathered },
                        ),
                        NeedSpec::Canonicalize(canon_target(path, worktrees, next + 1)),
                    )
                } else {
                    after_canonical(f, job, branch, worktrees, path, gathered)
                }
            },
            _ => fail(mismatch_text()),
        },
        PhaseV::WorktreeParent { job, branch, path, parent } => match o {
            Outcome::Created(Err(_)) => fail("Failed to create managed worktree directory "@ + parent),
            Outcome::Created(Ok(())) => FlowStepSpec::Run(
                with_phase(f, PhaseV::AddWorktree { job, branch, path }),
                add_worktree_call(job, branch, path),
            ),
            _ => fail(mismatch_text()),
        },
        PhaseV::AddWorktree { job, branch, path } => match o {
            Outcome::Output(Err(e)) => fail(backend_error_text(e)),
            Outcome::Output(Ok(out)) => if out.status.spec_success() {
                open_worktree(f, job, branch, path)
            } else {
                fail(combined_text(out))
            },
            _ => fail(mismatch_text()),
        },
        PhaseV::CurrentDir { template, name } => match o {
            Outcome::Path(Err(e)) => fail(backend_error_text(e)),
            Outcome::Path(Ok(root)) => FlowStepSpec::Run(
                with_phase(f, PhaseV::RootExists { template, name, root: root@ }),
                NeedSpec::PathExists(root@),
            ),
            _ => fail(mismatch_text()),
        },
        PhaseV::RootExists { template, name, root } => match o {
            Outcome::Flag(Err(e)) => fail(backend_error_text(e)),
            Outcome::Flag(Ok(false)) => fail("Session path "@ + path_debug(root) + " does not exist"@),
            Outcome::Flag(Ok(true)) => FlowStepSpec::Run(
                with_phase(f, PhaseV::RootIsDir { template, name, root }),
                NeedSpec::PathIsDir(root),
            ),
            _ => fail(mismatch_text()),
        },
        PhaseV::RootIsDir { template, name, root } => match o {
            Outcome::Flag(Err(e)) => fail(backend_error_text(e)),
            Outcome::Flag(Ok(false)) => fail("Session path "@ + path_debug(root) + " is not a directory"@),
            Outcome::Flag(Ok(true)) => match adhoc_name(name, root) {
                None => fail("Could not derive session name from path "@ + path_debug(root)),
                Some(n) => enter_opener(f, opener_start(n, root, template.windows)),
            },
            _ => fail(mismatch_text()),
        },
        PhaseV::Opening(op) => match o {
            Outcome::Output(r) => enter_opener(f, opener_next(op, r)),
            _ => fail(mismatch_text()),
        },
    }
}

/// Law: starting a session reads the home directory only for a path that
/// starts with `~`; otherwise any answer to the home lookup gives the same
/// first step.
pub proof fn law_session_reads_home_only_for_tilde(
    c: ConfigSpec,
    in_tmux: bool,
    h1: Result<String, BackendError>,
    h2: Result<String, BackendError>,
    path: Option<Seq<char>>,
    ov: Option<Seq<char>>,
    name: Option<Seq<char>>,
)
    requires
        !(path matches Some(p) && crate::paths::tilde_rest(p) is Some),
    ensures
        session_start(c, in_tmux, h1, path, ov, name) == session_start(c, in_tmux, h2, path, ov, name),
{
}

/// How picking begins: with a project named, that project is opened and
/// its branches offered; otherwise the running sessions are listed.
pub open spec fn pick_start(c: ConfigSpec, in_tmux: bool, ov: Option<Seq<char>>, project: Option<Seq<char>>) -> FlowStepSpec {
    match project {
        Some(p) => start_project(c, in_tmux, ov, p, ThenSpec::Interactive),
        None => FlowStepSpec::Run(
            flow_at(c, in_tmux, ov, PhaseV::ListSessions { projects: valid_names(c.projects) }),
            NeedSpec::Run(CallSpec::Output(tmux(seq!["list-sessions"@, "-F"@, "#{session_name}"@]))),
        ),
    }
}

/// How an ad hoc session begins: refused inside tmux; the template (the
/// override, else the default) must be configured; the root is the given
/// path with `~` expanded (left as it is when there is no home directory),
/// else the working directory.
pub open spec fn session_start(
    c: ConfigSpec,
    in_tmux: bool,
    home: Result<String, BackendError>,
    path: Option<Seq<char>>,
    ov: Option<Seq<char>>,
    name: Option<Seq<char>>,
) -> FlowStepSpec {
    let t = match ov {
        Some(x) => x,
        None => c.default_session,
    };
    if in_tmux {
        fail(tmux_text(TmuxErrorSpec::InTmux))
    } else if !c.sessions.contains_key(t) {
        fail(template_missing(t))
    } else {
        match path {
            Some(p) => {
                let root = match crate::expand_spec(p, home) {
                    Ok(r) => r,
                    Err(_) => p,
                };
                FlowStepSpec::Run(
                    flow_at(c, in_tmux, ov, PhaseV::RootExists { template: c.sessions[t], name, root }),
                    NeedSpec::PathExists(root),
                )
            },
            None => FlowStepSpec::Run(
                flow_at(c, in_tmux, ov, PhaseV::CurrentDir { template: c.sessions[t], name }),
                NeedSpec::CurrentDir,
            ),
        }
    }
}

fn failed(m: String) -> (r: FlowStep)
    ensures
        r@ == fail(m@),
{
    FlowStep::Done(Err(m))
}

fn mismatch() -> (r: FlowStep)
    ensures
        r@ == fail(mismatch_text()),
{
    failed("the reply does not answer the request".to_owned())
}

fn as_str_opt(s: &Option<String>) -> (r: Option<&str>)
    ensures
        opt_str_view(r) == crate::git::opt_view(*s),
{
    match s {
        Some(x) => Some(x.as_str()),
        None => None,
    }
}

fn to_flow(config: Config, in_tmux: bool, ov: Option<String>, st: OpenerStep) -> (r: FlowStep)
    ensures
        r@ == enter_opener(flow_at(config@, in_tmux, crate::git::opt_view(ov), PhaseV::AttachChosen), st@),
{
    match st {
        OpenerStep::Run(o, c) => FlowStep::Run(Flow { config, in_tmux, session_override: ov, phase: Phase::Opening(o) }, Need::Run(c)),
        OpenerStep::Done(Ok(())) => FlowStep::Done(Ok(())),
        OpenerStep::Done(Err(e)) => failed(e.message()),
    }
}

fn start(config: Config, in_tmux: bool, ov: Option<String>, name: &str, then: Then) -> (r: FlowStep)
    ensures
        r@ == start_project(config@, in_tmux, crate::git::opt_view(ov), name@, then@),
{
    if in_tmux {
        return failed(TmuxError::InTmux.message());
    }
    let project = match config.project(name) {
        None => {
            return failed(concat3("Project \"", name, "\" is not configured"));
        },
        Some(p) => p,
    };
    let template = match config.project_session_template(&project, as_str_opt(&ov)) {
        None => {
            let t = match &ov {
                Some(x) => x.as_str(),
                None => "<project default>",
            };
            return failed(concat3("Session template \"", t, "\" is not configured"));
        },
        Some(t) => t.duplicate(),
    };
    let path = project.path.clone();
    let job = Job { project, template };
    FlowStep::Run(Flow { config, in_tmux, session_override: ov, phase: Phase::PathExists { job, then } }, Need::PathExists(path))
}

/// Loads a configured project: opens its session, or, given `worktree`,
/// the session of that branch's worktree.
pub fn load_project(
    config: Config,
    in_tmux: bool,
    project_name: &str,
    session_override: Option<String>,
    worktree: Option<String>,
) -> (r: FlowStep)
    ensures
        r@ == start_project(
            config@,
            in_tmux,
            crate::git::opt_view(session_override),
            project_name@,
            match worktree {
                Some(b) => ThenSpec::Branch(b@),
                None => ThenSpec::Open,
            },
        ),
{
    let then = match worktree {
        Some(b) => Then::Branch(b),
        None => Then::Open,
    };
    start(config, in_tmux, session_override, project_name, then)
}

/// Opens a configured project, offering its local branches when it has any.
pub fn open_project_interactive(config: Config, in_tmux: bool, project_name: &str, session_override: Option<String>) -> (r: FlowStep)
    ensures
        r@ == start_project(config@, in_tmux, crate::git::opt_view(session_override), project_name@, ThenSpec::Interactive),
{
    start(config, in_tmux, session_override, project_name, Then::Interactive)
}

/// Picks a running tmux session or a configured project with fzf, or opens
/// `project` directly; `session` overrides the template of a project.
pub fn pick(config: Config, in_tmux: bool, project: Option<String>, session: Option<String>) -> (r: FlowStep)
    ensures
        r@ == pick_start(config@, in_tmux, crate::git::opt_view(session), crate::git::opt_view(project)),
{
    match project {
        Some(p) => start(config, in_tmux, session, p.as_str(), Then::Interactive),
        None => {
            let projects = config.project_names();
            FlowStep::Run(
                Flow { config, in_tmux, session_override: session, phase: Phase::ListSessions { projects } },
                Need::Run(Call::Output(list_sessions_request())),
            )
        },
    }
}

/// Opens an ad hoc tmux session in `path` (else the working directory) with
/// a session template; `home` is the home directory as the backend reported
/// it, for `~`.  Without a home directory a `~` path is kept unexpanded.
pub fn session(
    config: Config,
    in_tmux: bool,
    home: &Result<String, BackendError>,
    path: Option<String>,
    session_override: Option<String>,
    name: Option<String>,
) -> (r: FlowStep)
    ensures
        r@ == session_start(
            config@,
            in_tmux,
            *home,
            crate::git::opt_view(path),
            crate::git::opt_view(session_override),
            crate::git::opt_view(name),
        ),
{
    if in_tmux {
        return failed(TmuxError::InTmux.message());
    }
    let template = {
        let t = match &session_override {
            Some(x) => x.as_str(),
            None => config.default_session.as_str(),
        };
        match config.session_template(t) {
            None => {
                return failed(concat3("Session template \"", t, "\" is not configured"));
            },
            Some(s) => s.duplicate(),
        }
    };
    match path {
        Some(p) => {
            let root = match crate::paths::expand_home(p.as_str(), home) {
                Ok(r) => r,
                Err(_) => p,
            };
            let need = Need::PathExists(root.clone());
            FlowStep::Run(
                Flow { config, in_tmux, session_override, phase: Phase::RootExists { template, name, root } },
                need,
            )
        },
        None => FlowStep::Run(
            Flow { config, in_tmux, session_override, phase: Phase::CurrentDir { template, name } },
            Need::CurrentDir,
        ),
    }
}

fn branches_need(path: &str) -> (n: Need)
    ensures
        n@ == branches_call(path@),
{
    Need::Run(Call::Output(list_local_branches_request(path)))
}

fn clone_need(job: &Job) -> (n: Need)
    ensures
        n@ == NeedSpec::Run(
            CallSpec::Status(
                RequestSpec {
                    program: "git"@,
                    args: seq!["clone"@, job@.project.repository, job@.project.path],
                    stdin: InputSpec::Inherit,
                },
            ),
        ),
{
    Need::Run(Call::Status(clone_repository_request(job.project.repository.as_str(), job.project.path.as_str())))
}

fn ready(config: Config, in_tmux: bool, ov: Option<String>, job: Job, then: Then) -> (r: FlowStep)
    ensures
        r@ == path_ready(flow_at(config@, in_tmux, crate::git::opt_view(ov), PhaseV::AttachChosen), job@, then@),
{
    match then {
        Then::Open => {
            let st = open_session(job.project.name.as_str(), job.project.path.as_str(), &job.template);
            to_flow(config, in_tmux, ov, st)
        },
        Then::Branch(b) => {
            let need = branches_need(job.project.path.as_str());
            FlowStep::Run(Flow { config, in_tmux, session_override: ov, phase: Phase::ListBranches { job, wanted: Some(b) } }, need)
        },
        Then::Interactive => {
            let need = branches_need(job.project.path.as_str());
            FlowStep::Run(Flow { config, in_tmux, session_override: ov, phase: Phase::ListBranches { job, wanted: None } }, need)
        },
    }
}

fn worktree_session(config: Config, in_tmux: bool, ov: Option<String>, job: Job, branch: &str, path: &str) -> (r: FlowStep)
    ensures
        r@ == open_worktree(flow_at(config@, in_tmux, crate::git::opt_view(ov), PhaseV::AttachChosen), job@, branch@, path@),
{
    let name = branch_session_name(job.project.name.as_str(), branch);
    let st = open_session(name.as_str(), path, &job.template);
    to_flow(config, in_tmux, ov, st)
}

fn create_step(config: Config, in_tmux: bool, ov: Option<String>, job: Job, branch: String, path: String) -> (r: FlowStep)
    ensures
        r@ == create_worktree_step(
            flow_at(config@, in_tmux, crate::git::opt_view(ov), PhaseV::AttachChosen),
            job@,
            branch@,
            path@,
        ),
{
    match crate::paths::parent_of(path.as_str()) {
        Some(parent) => {
            let need = Need::CreateDir(parent.clone());
            FlowStep::Run(
                Flow { config, in_tmux, session_override: ov, phase: Phase::WorktreeParent { job, branch, path, parent } },
                need,
            )
        },
        None => {
            let need = Need::Run(
                Call::Output(create_worktree_request(job.project.path.as_str(), path.as_str(), branch.as_str())),
            );
            FlowStep::Run(Flow { config, in_tmux, session_override: ov, phase: Phase::AddWorktree { job, branch, path } }, need)
        },
    }
}

fn canon_path(path: &String, worktrees: &Vec<Worktree>, k: usize) -> (p: String)
    requires
        k <= worktrees@.len(),
    ensures
        p@ == canon_target(path@, views(worktrees@), k as nat),
{
    if k == 0 {
        path.clone()
    } else {
        worktrees[k - 1].path.clone()
    }
}

impl Flow {
    #[verifier::type_invariant]
    spec fn canonical_in_range(self) -> bool {
        match self.phase {
            Phase::Canonical { worktrees, next, .. } => next <= worktrees@.len(),
            _ => true,
        }
    }

    /// Goes on with the outcome of what was needed last.
    pub fn step(self, o: Outcome) -> (r: FlowStep)
        ensures
            r@ == flow_next(self@, o),
    {
        proof {
            use_type_invariant(&self);
        }
        let Flow { config, in_tmux, session_override: ov, phase } = self;
        match phase {
            Phase::ListSessions { projects } => match o {
                Outcome::Output(Err(e)) => failed(TmuxError::from_backend(e).message()),
                Outcome::Output(Ok(out)) => match parse_list_sessions_output(&out) {
                    Err(e) => failed(e.message()),
                    Ok(names) => {
                        let (items, targets) = build_pick_targets(names, projects);
                        FlowStep::Run(
                            Flow { config, in_tmux, session_override: ov, phase: Phase::Choose { targets } },
                            Need::Pick { items, prompt: "piquel> ".to_owned() },
                        )
                    },
                },
                _ => mismatch(),
            },
            Phase::Choose { targets } => match o {
                Outcome::Picked(Err(e)) => failed(e.message()),
                Outcome::Picked(Ok(picked)) => match pick_target(&targets, picked) {
                    Err(m) => failed(m),
                    Ok(None) => FlowStep::Done(Ok(())),
                    Ok(Some(PickTarget::TmuxSession(n))) => {
                        if in_tmux {
                            return failed(TmuxError::InTmux.message());
                        }
                        let need = Need::Run(Call::Output(crate::tmux::attach_request(n.as_str())));
                        FlowStep::Run(Flow { config, in_tmux, session_override: ov, phase: Phase::AttachChosen }, need)
                    },
                    Ok(Some(PickTarget::Project(n))) => start(config, in_tmux, ov, n.as_str(), Then::Interactive),
                },
                _ => mismatch(),
            },
            Phase::AttachChosen => match o {
                Outcome::Output(Err(e)) => failed(TmuxError::from_backend(e).message()),
                Outcome::Output(Ok(out)) => if out.status.success() {
                    FlowStep::Done(Ok(()))
                } else {
                    failed(combined_output(&out))
                },
                _ => mismatch(),
            },
            Phase::PathExists { job, then } => match o {
                Outcome::Flag(Err(e)) => failed(e.message()),
                Outcome::Flag(Ok(true)) => {
                    let need = Need::PathIsDir(job.project.path.clone());
                    FlowStep::Run(Flow { config, in_tmux, session_override: ov, phase: Phase::PathIsDir { job, then } }, need)
                },
                Outcome::Flag(Ok(false)) => {
                    let q = clone_prompt(job.project.name.as_str(), job.project.path.as_str(), job.project.repository.as_str());
                    FlowStep::Run(Flow { config, in_tmux, session_override: ov, phase: Phase::ConfirmClone { job, then } }, Need::Ask(q))
                },
                _ => mismatch(),
            },
            Phase::PathIsDir { job, then } => match o {
                Outcome::Flag(Err(e)) => failed(e.message()),
                Outcome::Flag(Ok(true)) => ready(config, in_tmux, ov, job, then),
                Outcome::Flag(Ok(false)) => {
                    let a = concat3("Project \"", job.project.name.as_str(), "\" path ");
                    failed(concat3(a.as_str(), job.project.path.as_str(), " is not a directory"))
                },
                _ => mismatch(),
            },
            Phase::ConfirmClone { job, then } => match o {
                Outcome::Line(Err(m)) => failed(m),
                Outcome::Line(Ok(answer)) => {
                    if !confirms_clone(answer.as_str()) {
                        let a = concat3("Project \"", job.project.name.as_str(), "\" path ");
                        return failed(concat3(a.as_str(), job.project.path.as_str(), " does not exist; clone cancelled"));
                    }
                    match crate::paths::parent_of(job.project.path.as_str()) {
                        Some(parent) => {
                            let need = Need::CreateDir(parent.clone());
                            FlowStep::Run(
                                Flow { config, in_tmux, session_override: ov, phase: Phase::CloneParent { job, then, parent } },
                                need,
                            )
                        },
                        None => {
                            let need = clone_need(&job);
                            FlowStep::Run(Flow { config, in_tmux, session_override: ov, phase: Phase::Clone { job, then } }, need)
                        },
                    }
                },
                _ => mismatch(),
            },
            Phase::CloneParent { job, then, parent } => match o {
                Outcome::Created(Err(_)) => failed(concat2("Failed to create project parent directory ", parent.as_str())),
                Outcome::Created(Ok(())) => {
                    let need = clone_need(&job);
                    FlowStep::Run(Flow { config, in_tmux, session_override: ov, phase: Phase::Clone { job, then } }, need)
                },
                _ => mismatch(),
            },
            Phase::Clone { job, then } => match o {
                Outcome::Output(Err(e)) => failed(e.message()),
                Outcome::Output(Ok(out)) => if out.status.success() {
                    ready(config, in_tmux, ov, job, then)
                } else {
                    let a = concat3("Failed to clone repository ", job.project.repository.as_str(), " into ");
                    failed(concat2(a.as_str(), job.project.path.as_str()))
                },
                _ => mismatch(),
            },
            Phase::ListBranches { job, wanted } => match o {
                Outcome::Output(Err(e)) => failed(e.message()),
                Outcome::Output(Ok(out)) => match parse_local_branches_output(&out) {
                    Err(e) => failed(e.message()),
                    Ok(names) => match wanted {
                        None => if names.len() == 0 {
                            let st = open_session(job.project.name.as_str(), job.project.path.as_str(), &job.template);
                            to_flow(config, in_tmux, ov, st)
                        } else {
                            FlowStep::Run(
                                Flow { config, in_tmux, session_override: ov, phase: Phase::ChooseBranch { job } },
                                Need::Pick { items: names, prompt: "branch> ".to_owned() },
                            )
                        },
                        Some(b) => if !crate::opener::contains_str(&names, b.as_str()) {
                            let a = concat3("Branch \"", b.as_str(), "\" is not a local branch for project \"");
                            failed(concat3(a.as_str(), job.project.name.as_str(), "\""))
                        } else {
                            let need = Need::Run(Call::Output(list_worktrees_request(job.project.path.as_str())));
                            FlowStep::Run(
                                Flow { config, in_tmux, session_override: ov, phase: Phase::ListWorktrees { job, branch: b } },
                                need,
                            )
                        },
                    },
                },
                _ => mismatch(),
            },
            Phase::ChooseBranch { job } => match o {
                Outcome::Picked(Err(e)) => failed(e.message()),
                Outcome::Picked(Ok(None)) => FlowStep::Done(Ok(())),
                Outcome::Picked(Ok(Some(b))) => {
                    let need = branches_need(job.project.path.as_str());
                    FlowStep::Run(Flow { config, in_tmux, session_override: ov, phase: Phase::ListBranches { job, wanted: Some(b) } }, need)
                },
                _ => mismatch(),
            },
            Phase::ListWorktrees { job, branch } => match o {
                Outcome::Output(Err(e)) => failed(e.message()),
                Outcome::Output(Ok(out)) => match parse_worktrees_output(&out) {
                    Err(e) => failed(e.message()),
                    Ok(ws) => match worktree_for_branch(ws.as_slice(), branch.as_str()) {
                        Some(w) => worktree_session(config, in_tmux, ov, job, branch.as_str(), w.path.as_str()),
                        None => match crate::git::managed_worktree_path(
                            config.worktrees_dir.as_str(),
                            job.project.name.as_str(),
                            branch.as_str(),
                        ) {
                            Err(e) => failed(e.message()),
                            Ok(p) => {
                                let need = Need::PathExists(p.clone());
                                FlowStep::Run(
                                    Flow {
                                        config,
                                        in_tmux,
                                        session_override: ov,
                                        phase: Phase::ManagedExists { job, branch, worktrees: ws, path: p },
                                    },
                                    need,
                                )
                            },
                        },
                    },
                },
                _ => mismatch(),
            },
            Phase::ManagedExists { job, branch, worktrees, path } => match o {
                Outcome::Flag(Err(e)) => failed(e.message()),
                Outcome::Flag(Ok(false)) => create_step(config, in_tmux, ov, job, branch, path),
                Outcome::Flag(Ok(true)) => {
                    let need = Need::Canonicalize(path.clone());
                    let canonical: Vec<(String, String)> = Vec::new();
                    proof {
                        assert(views(canonical@) =~= Seq::<(Seq<char>, Seq<char>)>::empty());
                    }
                    FlowStep::Run(
                        Flow {
                            config,
                            in_tmux,
                            session_override: ov,
                            phase: Phase::Canonical { job, branch, worktrees, path, next: 0, canonical },
                        },
                        need,
                    )
                },
                _ => mismatch(),
            },
            Phase::Canonical { job, branch, worktrees, path, next, canonical } => match o {
                Outcome::Path(r) => {
                    let mut gathered = canonical;
                    let ghost before = views(gathered@);
                    match r {
                        Ok(c) => {
                            let target = canon_path(&path, &worktrees, next);
                            gathered.push((target, c));
                            proof {
                                assert(views(gathered@) =~= before.push((canon_target(path@, views(worktrees@), next as nat), c@)));
                            }
                        },
                        Err(_) => {},
                    }
                    if next < worktrees.len() {
                        let need = Need::Canonicalize(canon_path(&path, &worktrees, next + 1));
                        FlowStep::Run(
                            Flow {
                                config,
                                in_tmux,
                                session_override: ov,
                                phase: Phase::Canonical { job, branch, worktrees, path, next: next + 1, canonical: gathered },
                            },
                            need,
                        )
                    } else if crate::git::registered_worktree(worktrees.as_slice(), path.as_str(), branch.as_str(), gathered.as_slice()) {
                        create_step(config, in_tmux, ov, job, branch, path)
                    } else {
                        let a = concat3("Managed worktree path ", path.as_str(), " already exists but is not registered for branch \"");
                        failed(concat3(a.as_str(), branch.as_str(), "\""))
                    }
                },
                _ => mismatch(),
            },
            Phase::WorktreeParent { job, branch, path, parent } => match o {
                Outcome::Created(Err(_)) => failed(concat2("Failed to create managed worktree directory ", parent.as_str())),
                Outcome::Created(Ok(())) => {
                    let need = Need::Run(
                        Call::Output(create_worktree_request(job.project.path.as_str(), path.as_str(), branch.as_str())),
                    );
                    FlowStep::Run(Flow { config, in_tmux, session_override: ov, phase: Phase::AddWorktree { job, branch, path } }, need)
                },
                _ => mismatch(),
            },
            Phase::AddWorktree { job, branch, path } => match o {
                Outcome::Output(Err(e)) => failed(e.message()),
                Outcome::Output(Ok(out)) => match crate::git::parse_create_worktree_output(&out) {
                    Ok(()) => worktree_session(config, in_tmux, ov, job, branch.as_str(), path.as_str()),
                    Err(e) => failed(e.message()),
                },
                _ => mismatch(),
            },
            Phase::CurrentDir { template, name } => match o {
                Outcome::Path(Err(e)) => failed(e.message()),
                Outcome::Path(Ok(root)) => {
                    let need = Need::PathExists(root.clone());
                    FlowStep::Run(Flow { config, in_tmux, session_override: ov, phase: Phase::RootExists { template, name, root } }, need)
                },
                _ => mismatch(),
            },
            Phase::RootExists { template, name, root } => match o {
                Outcome::Flag(Err(e)) => failed(e.message()),
                Outcome::Flag(Ok(false)) => failed(concat3("Session path ", debug_path(root.as_str()).as_str(), " does not exist")),
                Outcome::Flag(Ok(true)) => {
                    let need = Need::PathIsDir(root.clone());
                    FlowStep::Run(Flow { config, in_tmux, session_override: ov, phase: Phase::RootIsDir { template, name, root } }, need)
                },
                _ => mismatch(),
            },
            Phase::RootIsDir { template, name, root } => match o {
                Outcome::Flag(Err(e)) => failed(e.message()),
                Outcome::Flag(Ok(false)) => failed(concat3("Session path ", debug_path(root.as_str()).as_str(), " is not a directory")),
                Outcome::Flag(Ok(true)) => {
                    let n = match name {
                        Some(n) => n,
                        None => match crate::paths::file_name_of(root.as_str()) {
                            Some(n) => n,
                            None => {
                                return failed(concat2("Could not derive session name from path ", debug_path(root.as_str()).as_str()));
                            },
                        },
                    };
                    let st = open_session(n.as_str(), root.as_str(), &template);
                    to_flow(config, in_tmux, ov, st)
                },
                _ => mismatch(),
            },
            Phase::Opening(op) => match o {
                Outcome::Output(r) => {
                    let st = op.step(r);
                    to_flow(config, in_tmux, ov, st)
                },
                _ => mismatch(),
            },
        }
    }
}

/// Law: a running session picked from the picker is attached as it is:
/// the template override plays no part, and nothing else is run.
pub proof fn law_picked_session_is_attached_unchanged(
    f: FlowSpec,
    sessions: Seq<Seq<char>>,
    projects: Seq<Seq<char>>,
    sel: String,
    out: CommandOutput,
)
    requires
        f.phase == (PhaseV::Choose { targets: pick_map(sessions, projects) }),
        sessions.contains(sel@),
        !f.in_tmux,
    ensures
        flow_next(f, Outcome::Picked(Ok(Some(sel)))) == FlowStepSpec::Run(
            with_phase(f, PhaseV::AttachChosen),
            NeedSpec::Run(CallSpec::Output(tmux(seq!["attach"@, "-t"@, sel@]))),
        ),
        out.status.spec_success() ==> flow_next(with_phase(f, PhaseV::AttachChosen), Outcome::Output(Ok(out)))
            == FlowStepSpec::Done(Ok(())),
{
}

/// Law: a project picked from the picker is opened with the template
/// override, offering its branches.
pub proof fn law_picked_project_uses_override(
    f: FlowSpec,
    sessions: Seq<Seq<char>>,
    projects: Seq<Seq<char>>,
    sel: String,
)
    requires
        f.phase == (PhaseV::Choose { targets: pick_map(sessions, projects) }),
        !sessions.contains(sel@),
        projects.contains(sel@),
    ensures
        flow_next(f, Outcome::Picked(Ok(Some(sel)))) == start_project(
            f.config,
            f.in_tmux,
            f.session_override,
            sel@,
            ThenSpec::Interactive,
        ),
{
}

/// Law: a project whose directory is missing is cloned only when the user
/// agrees; otherwise the workflow ends with an error and opens nothing.
pub proof fn law_missing_project_needs_consent(f: FlowSpec, job: JobSpec, then: ThenSpec, answer: String)
    requires
        f.phase == (PhaseV::PathExists { job, then }),
        !confirms(answer@),
    ensures
        flow_next(f, Outcome::Flag(Ok(false))) == FlowStepSpec::Run(
            with_phase(f, PhaseV::ConfirmClone { job, then }),
            NeedSpec::Ask(clone_question(job.project.name, job.project.path, job.project.repository)),
        ),
        flow_next(with_phase(f, PhaseV::ConfirmClone { job, then }), Outcome::Line(Ok(answer))) == fail(
            "Project \""@ + job.project.name + "\" path "@ + job.project.path + " does not exist; clone cancelled"@,
        ),
{
}

/// Law: a branch's session is named `project--branch` (sanitised when the
/// session is opened) and opens in the branch's worktree, also when that
/// worktree is the project's own directory.
pub proof fn law_branch_session_is_named_after_branch(
    f: FlowSpec,
    job: JobSpec,
    branch: Seq<char>,
    out: CommandOutput,
)
    requires
        f.phase == (PhaseV::ListWorktrees { job, branch }),
        out.status.spec_success(),
        parsed_worktrees(combined_text(out)) is Some,
        branch_index(parsed_worktrees(combined_text(out))->Some_0, branch) < parsed_worktrees(
            combined_text(out),
        )->Some_0.len(),
    ensures
        ({
            let ws = parsed_worktrees(combined_text(out))->Some_0;
            flow_next(f, Outcome::Output(Ok(out))) == enter_opener(
                f,
                opener_start(
                    job.project.name + "--"@ + branch,
                    ws[branch_index(ws, branch) as int].path,
                    job.template.windows,
                ),
            )
        }),
{
}

/// Law: a branch without a worktree gets a managed one at
/// `<worktrees_dir>/<project>/<sanitised branch>`, whose existence is
/// checked first.
pub proof fn law_managed_worktree_location(f: FlowSpec, job: JobSpec, branch: Seq<char>, out: CommandOutput)
    requires
        f.phase == (PhaseV::ListWorktrees { job, branch }),
        out.status.spec_success(),
        parsed_worktrees(combined_text(out)) is Some,
        branch_index(parsed_worktrees(combined_text(out))->Some_0, branch) >= parsed_worktrees(
            combined_text(out),
        )->Some_0.len(),
        sanitize(branch).len() > 0,
    ensures
        ({
            let ws = parsed_worktrees(combined_text(out))->Some_0;
            let p = crate::paths::path_join(
                crate::paths::path_join(f.config.worktrees_dir, job.project.name),
                sanitize(branch),
            );
            flow_next(f, Outcome::Output(Ok(out))) == FlowStepSpec::Run(
                with_phase(f, PhaseV::ManagedExists { job, branch, worktrees: ws, path: p }),
                NeedSpec::PathExists(p),
            )
        }),
{
}

/// Law: the plain `project` session name is used only when the project has
/// no local branches; otherwise the branches are offered, sorted.
pub proof fn law_plain_name_only_without_branches(f: FlowSpec, job: JobSpec, out: CommandOutput)
    requires
        f.phase == (PhaseV::ListBranches { job, wanted: None }),
        out.status.spec_success(),
    ensures
        branch_names(combined_text(out)).len() == 0 ==> flow_next(f, Outcome::Output(Ok(out))) == enter_opener(
            f,
            opener_start(job.project.name, job.project.path, job.template.windows),
        ),
        branch_names(combined_text(out)).len() > 0 ==> flow_next(f, Outcome::Output(Ok(out))) == FlowStepSpec::Run(
            with_phase(f, PhaseV::ChooseBranch { job }),
            NeedSpec::Pick { items: sorted_of(branch_names(combined_text(out))), prompt: "branch> "@ },
        ),
{
    broadcast use vstd::seq_lib::group_to_multiset_ensures;

    let names = branch_names(combined_text(out));
    let q = sorted_of(names);
    crate::sort::lemma_sorted_of_exists(names);
    vstd::seq_lib::to_multiset_len(q);
    vstd::seq_lib::to_multiset_len(names);
}

/// Law: inside tmux, loading a project and opening an ad hoc session are
/// refused before anything is run.
pub proof fn law_refused_inside_tmux(
    c: ConfigSpec,
    ov: Option<Seq<char>>,
    name: Seq<char>,
    then: ThenSpec,
    home: Result<String, BackendError>,
    path: Option<Seq<char>>,
    session_name: Option<Seq<char>>,
)
    ensures
        start_project(c, true, ov, name, then) == fail(tmux_text(TmuxErrorSpec::InTmux)),
        session_start(c, true, home, path, ov, session_name) == fail(tmux_text(TmuxErrorSpec::InTmux)),
{
}

/// What a workflow asks for, and how it ends (`None` while it still waits),
/// when `outcomes` answer its needs in turn.
pub open spec fn flow_run(step: FlowStepSpec, outcomes: Seq<Outcome>) -> (Seq<NeedSpec>, Option<Result<(), Seq<char>>>)
    decreases outcomes.len(),
{
    match step {
        FlowStepSpec::Done(r) => (seq![], Some(r)),
        FlowStepSpec::Run(f, n) => if outcomes.len() == 0 {
            (seq![n], None)
        } else {
            let rest = flow_run(flow_next(f, outcomes[0]), outcomes.drop_first());
            (seq![n] + rest.0, rest.1)
        },
    }
}

/// The needs of running `calls`.
pub open spec fn as_needs(calls: Seq<CallSpec>) -> Seq<NeedSpec> {
    calls.map_values(|c: CallSpec| NeedSpec::Run(c))
}

/// The outcomes that carry `replies`.
pub open spec fn as_outcomes(replies: Seq<Result<CommandOutput, BackendError>>) -> Seq<Outcome> {
    replies.map_values(|r: Result<CommandOutput, BackendError>| Outcome::Output(r))
}

/// How a workflow ends when the tmux session opener ends with `e`.
pub open spec fn opener_end(e: Option<Result<(), TmuxErrorSpec>>) -> Option<Result<(), Seq<char>>> {
    match e {
        None => None,
        Some(Ok(())) => Some(Ok(())),
        Some(Err(x)) => Some(Err(tmux_text(x))),
    }
}

/// While a workflow opens a tmux session, it asks for exactly the opener's
/// calls and ends as the opener does.
pub proof fn lemma_flow_follows_opener(f: FlowSpec, st: StepSpec, replies: Seq<Result<CommandOutput, BackendError>>)
    ensures
        flow_run(enter_opener(f, st), as_outcomes(replies)) == (
            as_needs(crate::opener::opener_run(st, replies).0),
            opener_end(crate::opener::opener_run(st, replies).1),
        ),
    decreases replies.len(),
{
    match st {
        StepSpec::Done(r) => {
            assert(as_needs(Seq::<CallSpec>::empty()) =~= Seq::<NeedSpec>::empty());
        },
        StepSpec::Run(o, c) => {
            if replies.len() == 0 {
                assert(as_needs(seq![c]) =~= seq![NeedSpec::Run(c)]);
            } else {
                let f1 = with_phase(f, PhaseV::Opening(o));
                let st1 = opener_next(o, replies[0]);
                assert(as_outcomes(replies)[0] == Outcome::Output(replies[0]));
                assert(as_outcomes(replies).drop_first() =~= as_outcomes(replies.drop_first()));
                lemma_flow_follows_opener(f1, st1, replies.drop_first());
                let rest = crate::opener::opener_run(st1, replies.drop_first());
                assert(as_needs(seq![c] + rest.0) =~= seq![NeedSpec::Run(c)] + as_needs(rest.0));
            }
        },
    }
}

/// Law: loading a project whose directory is there, when its session is not
/// running and every command succeeds, checks the directory, then makes
/// exactly the calls that create the session from the project's template in
/// that directory and attach it, and ends well.
pub proof fn law_project_load_follows_template(
    c: ConfigSpec,
    name: Seq<char>,
    replies: Seq<Result<CommandOutput, BackendError>>,
)
    requires
        project_lookup(c, name) is Some,
        template_for(c, project_lookup(c, name)->Some_0, None) is Some,
        has_name_char(crate::text::trim(project_lookup(c, name)->Some_0.name)),
        replies.len() == crate::opener::creation_call_count(
            template_for(c, project_lookup(c, name)->Some_0, None)->Some_0.windows,
        ),
        forall|k: int| 0 <= k < replies.len() ==> crate::opener::reply_ok(#[trigger] replies[k]),
        !crate::opener::listed_sessions(replies[0]).contains(
            sanitize(crate::text::trim(project_lookup(c, name)->Some_0.name)),
        ),
    ensures
        ({
            let p = project_lookup(c, name)->Some_0;
            let ws = template_for(c, p, None)->Some_0.windows;
            flow_run(
                start_project(c, false, None, name, ThenSpec::Open),
                seq![Outcome::Flag(Ok(true)), Outcome::Flag(Ok(true))] + as_outcomes(replies),
            ) == (
                seq![NeedSpec::PathExists(p.path), NeedSpec::PathIsDir(p.path)] + as_needs(
                    crate::opener::creation_calls(
                        sanitize(crate::text::trim(p.name)),
                        p.path,
                        ws,
                        crate::opener::reply_text(replies[2]),
                        crate::opener::window_ids(ws, replies),
                    ),
                ),
                Some(Ok::<(), Seq<char>>(())),
            )
        }),
{
    let p = project_lookup(c, name)->Some_0;
    let t = template_for(c, p, None)->Some_0;
    let job = JobSpec { project: p, template: t };
    let f0 = flow_at(c, false, None, PhaseV::PathExists { job, then: ThenSpec::Open });
    let f1 = with_phase(f0, PhaseV::PathIsDir { job, then: ThenSpec::Open });
    let outcomes = seq![Outcome::Flag(Ok(true)), Outcome::Flag(Ok(true))] + as_outcomes(replies);
    let st = opener_start(p.name, p.path, t.windows);
    crate::opener::law_new_session_follows_template(p.name, p.path, t.windows, replies);
    lemma_flow_follows_opener(f1, st, replies);
    assert(outcomes[0] == Outcome::Flag(Ok(true)));
    assert(outcomes.drop_first()[0] == Outcome::Flag(Ok(true)));
    assert(outcomes.drop_first().drop_first() =~= as_outcomes(replies));
    assert(flow_next(f1, Outcome::Flag(Ok(true))) == enter_opener(f1, st));
    let tail = flow_run(enter_opener(f1, st), as_outcomes(replies));
    assert(flow_run(FlowStepSpec::Run(f1, NeedSpec::PathIsDir(p.path)), outcomes.drop_first()) == (
        seq![NeedSpec::PathIsDir(p.path)] + tail.0,
        tail.1,
    ));
    assert(seq![NeedSpec::PathExists(p.path)] + (seq![NeedSpec::PathIsDir(p.path)] + tail.0) =~= seq![
        NeedSpec::PathExists(p.path),
        NeedSpec::PathIsDir(p.path),
    ] + tail.0);
}

} // verus!
