//! Opening a tmux session from a template, one tmux command at a time.
//!
//! [`open_session`] starts the work and each [`SessionOpener::step`] takes
//! the reply to the last call: the caller runs the calls and the library
//! decides what comes next.
use vstd::prelude::*;

use crate::backend::{combined_output, combined_text, failure_text, BackendError, Call, CallSpec, CommandOutput};
use crate::text::{chars_of, concat2, concat3, decimal, has_name_char, sanitize, str_eq, trim, trim_pat, trimmed, CharPat};
use crate::tmux::{
    attach_request, kill_window_request, list_sessions_request, list_windows_request, new_session_request,
    new_window_args, new_window_request, parse_list_sessions_output, select_window_request, send_keys,
    send_keys_request, sessions_in, tmux, validated_session_name, TmuxError, TmuxErrorSpec, tmux_error_from,
};
use crate::{SessionConfig, WindowConfig, WindowSpec};

verus! {

/// Where an opening session stands: which tmux command was sent last.
#[derive(Debug)]
pub enum OpenerPhase {
    /// Listing the running sessions.
    ListSessions,
    /// Attaching to the session, which was already running.
    AttachExisting,
    /// Creating the session.
    NewSession,
    /// Listing the new session's windows to find its bootstrap window.
    ListWindows,
    /// Creating window `window` of the template.
    NewWindow { window: usize, bootstrap: String, first: Option<String> },
    /// Typing command `command` of window `window`, whose id is `window_id`.
    SendKeys { window: usize, command: usize, window_id: String, bootstrap: String, first: Option<String> },
    /// Killing the bootstrap window.
    KillBootstrap { first: Option<String> },
    /// Selecting the first template window.
    SelectFirst,
    /// Attaching to the newly built session.
    AttachNew,
}

/// What an [`OpenerPhase`] stands for.
pub enum PhaseSpec {
    ListSessions,
    AttachExisting,
    NewSession,
    ListWindows,
    NewWindow { window: nat, bootstrap: Seq<char>, first: Option<Seq<char>> },
    SendKeys { window: nat, command: nat, window_id: Seq<char>, bootstrap: Seq<char>, first: Option<Seq<char>> },
    KillBootstrap { first: Option<Seq<char>> },
    SelectFirst,
    AttachNew,
}

impl View for OpenerPhase {
    type V = PhaseSpec;

    open spec fn view(&self) -> PhaseSpec {
        match self {
            OpenerPhase::ListSessions => PhaseSpec::ListSessions,
            OpenerPhase::AttachExisting => PhaseSpec::AttachExisting,
            OpenerPhase::NewSession => PhaseSpec::NewSession,
            OpenerPhase::ListWindows => PhaseSpec::ListWindows,
            OpenerPhase::NewWindow { window, bootstrap, first } => PhaseSpec::NewWindow {
                window: *window as nat,
                bootstrap: bootstrap@,
                first: crate::git::opt_view(*first),
            },
            OpenerPhase::SendKeys { window, command, window_id, bootstrap, first } => PhaseSpec::SendKeys {
                window: *window as nat,
                command: *command as nat,
                window_id: window_id@,
                bootstrap: bootstrap@,
                first: crate::git::opt_view(*first),
            },
            OpenerPhase::KillBootstrap { first } => PhaseSpec::KillBootstrap { first: crate::git::opt_view(*first) },
            OpenerPhase::SelectFirst => PhaseSpec::SelectFirst,
            OpenerPhase::AttachNew => PhaseSpec::AttachNew,
        }
    }
}

/// A tmux session being opened: the session's name, the directory it starts
/// in, the template's windows, and the phase.
#[derive(Debug)]
pub struct SessionOpener {
    name: String,
    root: String,
    windows: Vec<WindowConfig>,
    phase: OpenerPhase,
}

/// What a [`SessionOpener`] stands for.
pub struct OpenerSpec {
    pub name: Seq<char>,
    pub root: Seq<char>,
    pub windows: Seq<WindowSpec>,
    pub phase: PhaseSpec,
}

impl View for SessionOpener {
    type V = OpenerSpec;

    closed spec fn view(&self) -> OpenerSpec {
        OpenerSpec {
            name: self.name@,
            root: self.root@,
            windows: crate::window_views(self.windows@),
            phase: self.phase@,
        }
    }
}

/// The phase refers to windows and commands that exist.
pub open spec fn phase_in_range(phase: PhaseSpec, windows: Seq<WindowSpec>) -> bool {
    match phase {
        PhaseSpec::NewWindow { window, .. } => window < windows.len(),
        PhaseSpec::SendKeys { window, command, .. } => window < windows.len() && command
            < windows[window as int].commands.len(),
        _ => true,
    }
}

/// The next thing to do while opening a session.
#[derive(Debug)]
pub enum OpenerStep {
    /// Run `Call` and hand its reply to the opener's `step`.
    Run(SessionOpener, Call),
    /// Finished, with this result.
    Done(Result<(), TmuxError>),
}

/// What an [`OpenerStep`] stands for.
pub enum StepSpec {
    Run(OpenerSpec, CallSpec),
    Done(Result<(), TmuxErrorSpec>),
}

/// The view of a tmux result.
pub open spec fn tmux_result(r: Result<(), TmuxError>) -> Result<(), TmuxErrorSpec> {
    match r {
        Ok(()) => Ok(()),
        Err(e) => Err(e@),
    }
}

impl View for OpenerStep {
    type V = StepSpec;

    open spec fn view(&self) -> StepSpec {
        match self {
            OpenerStep::Run(o, c) => StepSpec::Run(o@, c@),
            OpenerStep::Done(r) => StepSpec::Done(tmux_result(*r)),
        }
    }
}

/// `s` in another phase.
pub open spec fn with_phase(s: OpenerSpec, phase: PhaseSpec) -> OpenerSpec {
    OpenerSpec { phase, ..s }
}

/// Finished with a command error carrying `m`.
pub open spec fn fail(m: Seq<char>) -> StepSpec {
    StepSpec::Done(Err(TmuxErrorSpec::Command(m)))
}

/// The message for a failure while building window `i` (counted from 0).
pub open spec fn window_failure(i: nat, detail: Seq<char>) -> Seq<char> {
    "Failed to create window "@ + decimal(i + 1) + " with error: "@ + detail
}

/// Create window `i`, or, past the last window, kill the bootstrap window.
pub open spec fn start_window(s: OpenerSpec, i: nat, bootstrap: Seq<char>, first: Option<Seq<char>>) -> StepSpec {
    if i < s.windows.len() {
        StepSpec::Run(
            with_phase(s, PhaseSpec::NewWindow { window: i, bootstrap, first }),
            CallSpec::Output(tmux(new_window_args(s.name, s.root, s.windows[i as int]))),
        )
    } else {
        StepSpec::Run(
            with_phase(s, PhaseSpec::KillBootstrap { first }),
            CallSpec::Status(tmux(seq!["kill-window"@, "-t"@, bootstrap])),
        )
    }
}

/// Type command `j` of window `i`, or, past its last command, go on with the
/// next window.
pub open spec fn start_command(
    s: OpenerSpec,
    i: nat,
    j: nat,
    window_id: Seq<char>,
    bootstrap: Seq<char>,
    first: Option<Seq<char>>,
) -> StepSpec {
    if i < s.windows.len() && j < s.windows[i as int].commands.len() {
        StepSpec::Run(
            with_phase(s, PhaseSpec::SendKeys { window: i, command: j, window_id, bootstrap, first }),
            CallSpec::Output(send_keys(window_id, s.windows[i as int].commands[j as int])),
        )
    } else {
        start_window(s, i + 1, bootstrap, first)
    }
}

/// The attach call for the session.
pub open spec fn attach_call(name: Seq<char>) -> CallSpec {
    CallSpec::Output(tmux(seq!["attach"@, "-t"@, name]))
}

/// How opening goes on after `reply`, the reply to the call of phase
/// `s.phase`.
pub open spec fn opener_next(s: OpenerSpec, reply: Result<CommandOutput, BackendError>) -> StepSpec {
    match s.phase {
        PhaseSpec::ListSessions => match reply {
            Err(e) => StepSpec::Done(Err(tmux_error_from(e))),
            Ok(o) => match sessions_in(o.status.spec_success(), combined_text(o)) {
                Err(m) => fail(m),
                Ok(names) => if names.contains(s.name) {
                    StepSpec::Run(with_phase(s, PhaseSpec::AttachExisting), attach_call(s.name))
                } else {
                    StepSpec::Run(
                        with_phase(s, PhaseSpec::NewSession),
                        CallSpec::Status(tmux(seq!["new-session"@, "-d"@, "-c"@, s.root, "-s"@, s.name])),
                    )
                },
            },
        },
        PhaseSpec::AttachExisting => match reply {
            Err(e) => StepSpec::Done(Err(tmux_error_from(e))),
            Ok(o) => if o.status.spec_success() {
                StepSpec::Done(Ok(()))
            } else {
                fail(combined_text(o))
            },
        },
        PhaseSpec::NewSession => if failure_text(reply) is Some {
            fail("Failed to create session with name "@ + s.name)
        } else {
            StepSpec::Run(
                with_phase(s, PhaseSpec::ListWindows),
                CallSpec::Output(tmux(seq!["list-windows"@, "-t"@, s.name, "-F"@, "#{window_id}"@])),
            )
        },
        PhaseSpec::ListWindows => match failure_text(reply) {
            Some(t) => fail("Failed to list tmux windows with error: "@ + t),
            None => start_window(s, 0, trim_pat(combined_text(reply->Ok_0), CharPat::Exactly('\n')), None),
        },
        PhaseSpec::NewWindow { window, bootstrap, first } => match failure_text(reply) {
            Some(t) => fail(window_failure(window, "Failed to create window with error: "@ + t)),
            None => {
                let id = trim_pat(combined_text(reply->Ok_0), CharPat::Exactly('\n'));
                let first = if first is Some {
                    first
                } else {
                    Some(id)
                };
                start_command(s, window, 0, id, bootstrap, first)
            },
        },
        PhaseSpec::SendKeys { window, command, window_id, bootstrap, first } => match failure_text(reply) {
            Some(t) => fail(
                window_failure(
                    window,
                    "Failed to execute command \""@ + s.windows[window as int].commands[command as int]
                        + "\" with error: "@ + t,
                ),
            ),
            None => start_command(s, window, command + 1, window_id, bootstrap, first),
        },
        PhaseSpec::KillBootstrap { first } => if failure_text(reply) is Some {
            fail("Failed to kill first window"@)
        } else {
            match first {
                Some(w) => StepSpec::Run(
                    with_phase(s, PhaseSpec::SelectFirst),
                    CallSpec::Status(tmux(seq!["select-window"@, "-t"@, w])),
                ),
                None => StepSpec::Run(with_phase(s, PhaseSpec::AttachNew), attach_call(s.name)),
            }
        },
        PhaseSpec::SelectFirst => if failure_text(reply) is Some {
            fail("Failed to select first window"@)
        } else {
            StepSpec::Run(with_phase(s, PhaseSpec::AttachNew), attach_call(s.name))
        },
        PhaseSpec::AttachNew => if failure_text(reply) is Some {
            fail("Failed to attach to session with error: "@ + s.name)
        } else {
            StepSpec::Done(Ok(()))
        },
    }
}

/// How opening a session called `name` in `root` from a template with
/// `windows` begins: an invalid name fails at once, before any tmux command;
/// otherwise the running sessions are listed.
pub open spec fn opener_start(name: Seq<char>, root: Seq<char>, windows: Seq<WindowSpec>) -> StepSpec {
    if !has_name_char(trim(name)) {
        StepSpec::Done(Err(TmuxErrorSpec::InvalidSessionName(name)))
    } else {
        StepSpec::Run(
            OpenerSpec { name: sanitize(trim(name)), root, windows, phase: PhaseSpec::ListSessions },
            CallSpec::Output(tmux(seq!["list-sessions"@, "-F"@, "#{session_name}"@])),
        )
    }
}

/// The calls an opening makes, and how it ends (`None` while it still waits
/// for a reply), when `replies` answer its calls in turn.
pub open spec fn opener_run(
    step: StepSpec,
    replies: Seq<Result<CommandOutput, BackendError>>,
) -> (Seq<CallSpec>, Option<Result<(), TmuxErrorSpec>>)
    decreases replies.len(),
{
    match step {
        StepSpec::Done(r) => (seq![], Some(r)),
        StepSpec::Run(o, c) => if replies.len() == 0 {
            (seq![c], None)
        } else {
            let rest = opener_run(opener_next(o, replies[0]), replies.drop_first());
            (seq![c] + rest.0, rest.1)
        },
    }
}

/// The reply reports a command that ran and succeeded.
pub open spec fn reply_ok(r: Result<CommandOutput, BackendError>) -> bool {
    r is Ok && r->Ok_0.status.spec_success()
}

/// The text of a reply without surrounding newlines.
pub open spec fn reply_text(r: Result<CommandOutput, BackendError>) -> Seq<char> {
    trim_pat(combined_text(r->Ok_0), CharPat::Exactly('\n'))
}

/// The sessions named by a successful `list-sessions` reply.
pub open spec fn listed_sessions(r: Result<CommandOutput, BackendError>) -> Seq<Seq<char>> {
    sessions_in(true, combined_text(r->Ok_0))->Ok_0
}

/// Number of calls that build windows `0..i`: one `new-window` and one
/// `send-keys` per command each.
pub open spec fn calls_before(ws: Seq<WindowSpec>, i: nat) -> nat
    decreases i,
{
    if i == 0 {
        0
    } else {
        calls_before(ws, (i - 1) as nat) + 1 + ws[i - 1].commands.len()
    }
}

/// The window ids that tmux reported: the reply to window `i`'s
/// `new-window` call, for each window.
pub open spec fn window_ids(ws: Seq<WindowSpec>, replies: Seq<Result<CommandOutput, BackendError>>) -> Seq<Seq<char>> {
    Seq::new(ws.len(), |i: int| reply_text(replies[(3 + calls_before(ws, i as nat)) as int]))
}

/// The `send-keys` calls that type `cmds` into window `id`.
pub open spec fn command_calls(id: Seq<char>, cmds: Seq<Seq<char>>) -> Seq<CallSpec> {
    cmds.map_values(|c: Seq<char>| CallSpec::Output(send_keys(id, c)))
}

/// The calls that build windows `i..` of `ws`, whose ids are `ids`.
pub open spec fn window_calls(
    name: Seq<char>,
    root: Seq<char>,
    ws: Seq<WindowSpec>,
    ids: Seq<Seq<char>>,
    i: nat,
) -> Seq<CallSpec>
    decreases ws.len() - i,
{
    if i < ws.len() {
        seq![CallSpec::Output(tmux(new_window_args(name, root, ws[i as int])))] + command_calls(
            ids[i as int],
            ws[i as int].commands,
        ) + window_calls(name, root, ws, ids, i + 1)
    } else {
        seq![]
    }
}

/// The calls after the windows: kill the bootstrap window, select the first
/// template window if there is one, attach.
pub open spec fn closing_calls(name: Seq<char>, bootstrap: Seq<char>, ids: Seq<Seq<char>>) -> Seq<CallSpec> {
    seq![CallSpec::Status(tmux(seq!["kill-window"@, "-t"@, bootstrap]))] + (if ids.len() > 0 {
        seq![CallSpec::Status(tmux(seq!["select-window"@, "-t"@, ids[0]]))]
    } else {
        seq![]
    }) + seq![attach_call(name)]
}

/// Every call that creating and attaching session `name` makes.
pub open spec fn creation_calls(
    name: Seq<char>,
    root: Seq<char>,
    ws: Seq<WindowSpec>,
    bootstrap: Seq<char>,
    ids: Seq<Seq<char>>,
) -> Seq<CallSpec> {
    seq![
        CallSpec::Output(tmux(seq!["list-sessions"@, "-F"@, "#{session_name}"@])),
        CallSpec::Status(tmux(seq!["new-session"@, "-d"@, "-c"@, root, "-s"@, name])),
        CallSpec::Output(tmux(seq!["list-windows"@, "-t"@, name, "-F"@, "#{window_id}"@])),
    ] + window_calls(name, root, ws, ids, 0) + closing_calls(name, bootstrap, ids)
}

/// Number of calls that creating a session from `ws` makes.
pub open spec fn creation_call_count(ws: Seq<WindowSpec>) -> nat {
    5 + calls_before(ws, ws.len()) + if ws.len() > 0 {
        1nat
    } else {
        0nat
    }
}

proof fn lemma_calls_before_grows(ws: Seq<WindowSpec>, i: nat, k: nat)
    requires
        i <= k,
    ensures
        calls_before(ws, i) + (k - i) <= calls_before(ws, k),
    decreases k,
{
    if i < k {
        lemma_calls_before_grows(ws, i, (k - 1) as nat);
    }
}

proof fn lemma_run_windows(
    s: OpenerSpec,
    i: nat,
    bootstrap: Seq<char>,
    first: Option<Seq<char>>,
    replies: Seq<Result<CommandOutput, BackendError>>,
)
    requires
        i <= s.windows.len(),
        replies.len() == creation_call_count(s.windows),
        forall|k: int| 0 <= k < replies.len() ==> reply_ok(#[trigger] replies[k]),
        first == (if i == 0 {
            None
        } else {
            Some(window_ids(s.windows, replies)[0])
        }),
    ensures
        opener_run(start_window(s, i, bootstrap, first), replies.skip((3 + calls_before(s.windows, i)) as int)) == (
            window_calls(s.name, s.root, s.windows, window_ids(s.windows, replies), i) + closing_calls(
                s.name,
                bootstrap,
                window_ids(s.windows, replies),
            ),
            Some(Ok::<(), TmuxErrorSpec>(())),
        ),
    decreases s.windows.len() - i, s.windows[i as int].commands.len() + 1,
{
    let ws = s.windows;
    let ids = window_ids(ws, replies);
    let p: int = (3 + calls_before(ws, i)) as int;
    lemma_calls_before_grows(ws, i, ws.len());
    if i < ws.len() {
        let s1 = with_phase(s, PhaseSpec::NewWindow { window: i, bootstrap, first });
        let r = replies[p];
        assert(replies.skip(p)[0] == r);
        assert(replies.skip(p).drop_first() =~= replies.skip(p + 1));
        assert(reply_ok(r));
        assert(ids[i as int] == reply_text(r));
        let f2 = if first is Some {
            first
        } else {
            Some(reply_text(r))
        };
        assert(f2 == Some(ids[0]));
        assert(opener_next(s1, r) == start_command(s1, i, 0, ids[i as int], bootstrap, f2));
        lemma_run_commands(s1, i, 0, bootstrap, replies);
        assert(command_calls(ids[i as int], ws[i as int].commands.skip(0)) =~= command_calls(
            ids[i as int],
            ws[i as int].commands,
        ));
        assert(window_calls(s.name, s.root, ws, ids, i) =~= seq![
            CallSpec::Output(tmux(new_window_args(s.name, s.root, ws[i as int]))),
        ] + command_calls(ids[i as int], ws[i as int].commands) + window_calls(s.name, s.root, ws, ids, i + 1));
        let tail = opener_run(start_command(s1, i, 0, ids[i as int], bootstrap, f2), replies.skip(p + 1));
        assert(opener_run(start_window(s, i, bootstrap, first), replies.skip(p)).0 =~= seq![
            CallSpec::Output(tmux(new_window_args(s.name, s.root, ws[i as int]))),
        ] + tail.0);
    } else {
        let c = calls_before(ws, i);
        let ids_len = ids.len();
        let k = s.windows.len();
        assert(p + 2 + if k > 0 {
            1nat
        } else {
            0nat
        } == replies.len());
        let s1 = with_phase(s, PhaseSpec::KillBootstrap { first });
        let r1 = replies[p];
        assert(replies.skip(p)[0] == r1);
        assert(replies.skip(p).drop_first() =~= replies.skip(p + 1));
        assert(reply_ok(r1));
        assert(window_calls(s.name, s.root, ws, ids, i) =~= Seq::<CallSpec>::empty());
        if first is Some {
            let s2 = with_phase(s, PhaseSpec::SelectFirst);
            let r2 = replies[p + 1];
            assert(replies.skip(p + 1)[0] == r2);
            assert(replies.skip(p + 1).drop_first() =~= replies.skip(p + 2));
            assert(reply_ok(r2));
            let s3 = with_phase(s, PhaseSpec::AttachNew);
            let r3 = replies[p + 2];
            assert(replies.skip(p + 2)[0] == r3);
            assert(replies.skip(p + 2).drop_first() =~= replies.skip(p + 3));
            assert(reply_ok(r3));
            assert(opener_next(s3, r3) == StepSpec::Done(Ok::<(), TmuxErrorSpec>(())));
            assert(opener_run(opener_next(s3, r3), replies.skip(p + 3)) == (
                Seq::<CallSpec>::empty(),
                Some(Ok::<(), TmuxErrorSpec>(())),
            ));
            assert(closing_calls(s.name, bootstrap, ids) =~= seq![
                CallSpec::Status(tmux(seq!["kill-window"@, "-t"@, bootstrap])),
                CallSpec::Status(tmux(seq!["select-window"@, "-t"@, ids[0]])),
                attach_call(s.name),
            ]);
            assert(opener_run(opener_next(s2, r2), replies.skip(p + 2)).0 =~= seq![attach_call(s.name)]);
            assert(opener_run(opener_next(s1, r1), replies.skip(p + 1)).0 =~= seq![
                CallSpec::Status(tmux(seq!["select-window"@, "-t"@, ids[0]])),
                attach_call(s.name),
            ]);
        } else {
            let s3 = with_phase(s, PhaseSpec::AttachNew);
            let r3 = replies[p + 1];
            assert(replies.skip(p + 1)[0] == r3);
            assert(replies.skip(p + 1).drop_first() =~= replies.skip(p + 2));
            assert(reply_ok(r3));
            assert(opener_run(opener_next(s3, r3), replies.skip(p + 2)) == (
                Seq::<CallSpec>::empty(),
                Some(Ok::<(), TmuxErrorSpec>(())),
            ));
            assert(closing_calls(s.name, bootstrap, ids) =~= seq![
                CallSpec::Status(tmux(seq!["kill-window"@, "-t"@, bootstrap])),
                attach_call(s.name),
            ]);
            assert(opener_run(opener_next(s1, r1), replies.skip(p + 1)).0 =~= seq![attach_call(s.name)]);
        }
    }
}

proof fn lemma_run_commands(
    s: OpenerSpec,
    i: nat,
    j: nat,
    bootstrap: Seq<char>,
    replies: Seq<Result<CommandOutput, BackendError>>,
)
    requires
        i < s.windows.len(),
        j <= s.windows[i as int].commands.len(),
        replies.len() == creation_call_count(s.windows),
        forall|k: int| 0 <= k < replies.len() ==> reply_ok(#[trigger] replies[k]),
    ensures
        opener_run(
            start_command(
                s,
                i,
                j,
                window_ids(s.windows, replies)[i as int],
                bootstrap,
                Some(window_ids(s.windows, replies)[0]),
            ),
            replies.skip((3 + calls_before(s.windows, i) + 1 + j) as int),
        ) == (
            command_calls(window_ids(s.windows, replies)[i as int], s.windows[i as int].commands.skip(j as int))
                + window_calls(s.name, s.root, s.windows, window_ids(s.windows, replies), i + 1) + closing_calls(
                s.name,
                bootstrap,
                window_ids(s.windows, replies),
            ),
            Some(Ok::<(), TmuxErrorSpec>(())),
        ),
    decreases s.windows.len() - i, s.windows[i as int].commands.len() - j,
{
    let ws = s.windows;
    let ids = window_ids(ws, replies);
    let id = ids[i as int];
    let f = Some(ids[0]);
    let cmds = ws[i as int].commands;
    let p: int = (3 + calls_before(ws, i) + 1 + j) as int;
    lemma_calls_before_grows(ws, i + 1, ws.len());
    if j < cmds.len() {
        let s1 = with_phase(s, PhaseSpec::SendKeys { window: i, command: j, window_id: id, bootstrap, first: f });
        let r = replies[p];
        assert(replies.skip(p)[0] == r);
        assert(replies.skip(p).drop_first() =~= replies.skip(p + 1));
        assert(reply_ok(r));
        lemma_run_commands(s1, i, j + 1, bootstrap, replies);
        assert(command_calls(id, cmds.skip(j as int)) =~= seq![CallSpec::Output(send_keys(id, cmds[j as int]))]
            + command_calls(id, cmds.skip((j + 1) as int)));
    } else {
        assert(command_calls(id, cmds.skip(j as int)) =~= Seq::<CallSpec>::empty());
        assert(calls_before(ws, i + 1) == calls_before(ws, i) + 1 + cmds.len());
        lemma_run_windows(s, i + 1, bootstrap, f, replies);
    }
}

/// Law: when the session is not running and every command succeeds, opening
/// it makes exactly these calls, in order: list the sessions, create the
/// session in its root, list its windows, create each template window and
/// type its commands, kill the bootstrap window, select the first template
/// window, attach; and it ends well. The bootstrap window and the window ids
/// are those that tmux reported.
pub proof fn law_new_session_follows_template(
    name: Seq<char>,
    root: Seq<char>,
    ws: Seq<WindowSpec>,
    replies: Seq<Result<CommandOutput, BackendError>>,
)
    requires
        has_name_char(trim(name)),
        replies.len() == creation_call_count(ws),
        forall|k: int| 0 <= k < replies.len() ==> reply_ok(#[trigger] replies[k]),
        !listed_sessions(replies[0]).contains(sanitize(trim(name))),
    ensures
        opener_run(opener_start(name, root, ws), replies) == (
            creation_calls(sanitize(trim(name)), root, ws, reply_text(replies[2]), window_ids(ws, replies)),
            Some(Ok::<(), TmuxErrorSpec>(())),
        ),
{
    let n = sanitize(trim(name));
    let s0 = OpenerSpec { name: n, root, windows: ws, phase: PhaseSpec::ListSessions };
    assert(reply_ok(replies[0]) && reply_ok(replies[1]) && reply_ok(replies[2]));
    let b = reply_text(replies[2]);
    lemma_run_windows(s0, 0, b, None, replies);
    let c0 = CallSpec::Output(tmux(seq!["list-sessions"@, "-F"@, "#{session_name}"@]));
    let c1 = CallSpec::Status(tmux(seq!["new-session"@, "-d"@, "-c"@, root, "-s"@, n]));
    let c2 = CallSpec::Output(tmux(seq!["list-windows"@, "-t"@, n, "-F"@, "#{window_id}"@]));
    let s1 = with_phase(s0, PhaseSpec::NewSession);
    let s2 = with_phase(s0, PhaseSpec::ListWindows);
    assert(opener_start(name, root, ws) == StepSpec::Run(s0, c0));
    assert(opener_next(s0, replies[0]) == StepSpec::Run(s1, c1));
    assert(opener_next(s1, replies[1]) == StepSpec::Run(s2, c2));
    assert(with_phase(s2, PhaseSpec::NewWindow { window: 0, bootstrap: b, first: None }) == with_phase(
        s0,
        PhaseSpec::NewWindow { window: 0, bootstrap: b, first: None },
    ));
    assert(opener_next(s2, replies[2]) == start_window(s0, 0, b, None));
    let t1 = replies.drop_first();
    let t2 = t1.drop_first();
    let t3 = t2.drop_first();
    assert(t1[0] == replies[1]);
    assert(t2[0] == replies[2]);
    assert(t3 =~= replies.skip(3));
    let after = opener_run(start_window(s0, 0, b, None), t3);
    assert(opener_run(StepSpec::Run(s2, c2), t2) == (seq![c2] + after.0, after.1));
    assert(opener_run(StepSpec::Run(s1, c1), t1) == (seq![c1] + (seq![c2] + after.0), after.1));
    assert(opener_run(StepSpec::Run(s0, c0), replies) == (seq![c0] + (seq![c1] + (seq![c2] + after.0)), after.1));
    assert(seq![c0] + (seq![c1] + (seq![c2] + after.0)) =~= creation_calls(n, root, ws, b, window_ids(ws, replies)));
}

/// Law: a session that is already running is attached to, and nothing else
/// is run.
pub proof fn law_running_session_is_only_attached(
    name: Seq<char>,
    root: Seq<char>,
    ws: Seq<WindowSpec>,
    replies: Seq<Result<CommandOutput, BackendError>>,
)
    requires
        has_name_char(trim(name)),
        replies.len() == 2,
        reply_ok(replies[0]),
        reply_ok(replies[1]),
        listed_sessions(replies[0]).contains(sanitize(trim(name))),
    ensures
        opener_run(opener_start(name, root, ws), replies) == (
            seq![
                CallSpec::Output(tmux(seq!["list-sessions"@, "-F"@, "#{session_name}"@])),
                attach_call(sanitize(trim(name))),
            ],
            Some(Ok::<(), TmuxErrorSpec>(())),
        ),
{
    let n = sanitize(trim(name));
    let s0 = OpenerSpec { name: n, root, windows: ws, phase: PhaseSpec::ListSessions };
    let s1 = with_phase(s0, PhaseSpec::AttachExisting);
    let c0 = CallSpec::Output(tmux(seq!["list-sessions"@, "-F"@, "#{session_name}"@]));
    assert(opener_start(name, root, ws) == StepSpec::Run(s0, c0));
    assert(opener_next(s0, replies[0]) == StepSpec::Run(s1, attach_call(n)));
    let t1 = replies.drop_first();
    let t2 = t1.drop_first();
    assert(t1[0] == replies[1]);
    assert(opener_next(s1, replies[1]) == StepSpec::Done(Ok::<(), TmuxErrorSpec>(())));
    assert(opener_run(StepSpec::Done(Ok::<(), TmuxErrorSpec>(())), t2) == (
        Seq::<CallSpec>::empty(),
        Some(Ok::<(), TmuxErrorSpec>(())),
    ));
    assert(t1.len() == 1);
    assert(opener_run(StepSpec::Run(s1, attach_call(n)), t1) == (
        seq![attach_call(n)] + Seq::<CallSpec>::empty(),
        Some(Ok::<(), TmuxErrorSpec>(())),
    ));
    assert(seq![c0] + (seq![attach_call(n)] + Seq::<CallSpec>::empty()) =~= seq![c0, attach_call(n)]);
}

/// Law: a name with no letter, digit, `_` or `-` fails with
/// `InvalidSessionName`, before any command is run.
pub proof fn law_invalid_name_runs_nothing(
    name: Seq<char>,
    root: Seq<char>,
    ws: Seq<WindowSpec>,
    replies: Seq<Result<CommandOutput, BackendError>>,
)
    requires
        !has_name_char(trim(name)),
    ensures
        opener_run(opener_start(name, root, ws), replies) == (
            Seq::<CallSpec>::empty(),
            Some(Err::<(), TmuxErrorSpec>(TmuxErrorSpec::InvalidSessionName(name))),
        ),
{
}

/// Failure text of a reply, computed.
fn reply_failure(reply: &Result<CommandOutput, BackendError>) -> (r: Option<String>)
    ensures
        match failure_text(*reply) {
            Some(t) => r matches Some(x) && x@ == t,
            None => r is None,
        },
{
    match reply {
        Err(e) => Some(e.message()),
        Ok(o) => if o.status.success() {
            None
        } else {
            Some(combined_output(o))
        },
    }
}

/// The text of a successful reply without surrounding newlines.
fn reply_line(o: &CommandOutput) -> (r: String)
    ensures
        r@ == trim_pat(combined_text(*o), CharPat::Exactly('\n')),
{
    let text = combined_output(o);
    let v = chars_of(text.as_str());
    let t = trimmed(v.as_slice(), CharPat::Exactly('\n'));
    crate::text::string_of(t.as_slice())
}

pub(crate) fn contains_str(names: &Vec<String>, name: &str) -> (b: bool)
    ensures
        b == crate::text::str_views(names@).contains(name@),
{
    let mut i: usize = 0;
    while i < names.len()
        invariant
            i <= names@.len(),
            forall|k: int| 0 <= k < i ==> #[trigger] names@[k]@ != name@,
        decreases names@.len() - i,
    {
        if str_eq(names[i].as_str(), name) {
            assert(crate::text::str_views(names@)[i as int] == name@);
            return true;
        }
        i = i + 1;
    }
    proof {
        if crate::text::str_views(names@).contains(name@) {
            let k = choose|k: int| 0 <= k < names@.len() && crate::text::str_views(names@)[k] == name@;
            assert(names@[k]@ == name@);
        }
    }
    false
}

fn copy_windows(ws: &Vec<WindowConfig>) -> (r: Vec<WindowConfig>)
    ensures
        crate::window_views(r@) == crate::window_views(ws@),
{
    let mut r: Vec<WindowConfig> = Vec::new();
    let mut i: usize = 0;
    while i < ws.len()
        invariant
            i <= ws@.len(),
            crate::window_views(r@) == crate::window_views(ws@).take(i as int),
        decreases ws@.len() - i,
    {
        let w = ws[i].duplicate();
        let ghost before = r@;
        r.push(w);
        assert(crate::window_views(r@) =~= crate::window_views(before).push(ws@[i as int]@));
        assert(crate::window_views(ws@).take(i + 1) =~= crate::window_views(ws@).take(i as int).push(ws@[i as int]@));
        i = i + 1;
    }
    assert(crate::window_views(ws@).take(ws@.len() as int) =~= crate::window_views(ws@));
    r
}

/// Starts opening a tmux session called `tmux_name` (sanitised) in `root`
/// from `template`, creating it unless it is already running, then attaching.
pub fn open_session(tmux_name: &str, root: &str, template: &SessionConfig) -> (r: OpenerStep)
    ensures
        r@ == opener_start(tmux_name@, root@, template@.windows),
{
    match validated_session_name(tmux_name) {
        Err(e) => OpenerStep::Done(Err(e)),
        Ok(name) => {
            let opener = SessionOpener {
                name,
                root: root.to_owned(),
                windows: copy_windows(&template.windows),
                phase: OpenerPhase::ListSessions,
            };
            OpenerStep::Run(opener, Call::Output(list_sessions_request()))
        },
    }
}

impl SessionOpener {
    #[verifier::type_invariant]
    spec fn in_range(self) -> bool {
        phase_in_range(self.phase@, crate::window_views(self.windows@))
    }

    /// The name of the session being opened.
    pub fn name(&self) -> (n: &str)
        ensures
            n@ == self@.name,
    {
        self.name.as_str()
    }

    fn window_step(self, i: usize, bootstrap: String, first: Option<String>) -> (r: OpenerStep)
        requires
            i <= self.windows@.len(),
        ensures
            r@ == start_window(self@, i as nat, bootstrap@, crate::git::opt_view(first)),
    {
        let SessionOpener { name, root, windows, phase: _ } = self;
        if i < windows.len() {
            let call = Call::Output(new_window_request(name.as_str(), root.as_str(), &windows[i]));
            OpenerStep::Run(SessionOpener { name, root, windows, phase: OpenerPhase::NewWindow { window: i, bootstrap, first } }, call)
        } else {
            let call = Call::Status(kill_window_request(bootstrap.as_str()));
            OpenerStep::Run(SessionOpener { name, root, windows, phase: OpenerPhase::KillBootstrap { first } }, call)
        }
    }

    fn command_step(self, i: usize, j: usize, window_id: String, bootstrap: String, first: Option<String>) -> (r: OpenerStep)
        requires
            i < self.windows@.len(),
            j <= self.windows@[i as int].commands@.len(),
        ensures
            r@ == start_command(self@, i as nat, j as nat, window_id@, bootstrap@, crate::git::opt_view(first)),
    {
        let n = self.windows.len();
        if j < self.windows[i].commands.len() {
            let call = Call::Output(send_keys_request(window_id.as_str(), self.windows[i].commands[j].as_str()));
            let SessionOpener { name, root, windows, phase: _ } = self;
            OpenerStep::Run(
                SessionOpener { name, root, windows, phase: OpenerPhase::SendKeys { window: i, command: j, window_id, bootstrap, first } },
                call,
            )
        } else {
            assert(i < n);
            self.window_step(i + 1, bootstrap, first)
        }
    }

    /// Goes on with the reply to the last call.
    pub fn step(self, reply: Result<CommandOutput, BackendError>) -> (r: OpenerStep)
        ensures
            r@ == opener_next(self@, reply),
    {
        proof {
            use_type_invariant(&self);
        }
        let ghost s = self@;
        let SessionOpener { name, root, windows, phase } = self;
        match phase {
            OpenerPhase::ListSessions => match reply {
                Err(e) => OpenerStep::Done(Err(TmuxError::from_backend(e))),
                Ok(o) => match parse_list_sessions_output(&o) {
                    Err(e) => OpenerStep::Done(Err(e)),
                    Ok(names) => {
                        if contains_str(&names, name.as_str()) {
                            let call = Call::Output(attach_request(name.as_str()));
                            OpenerStep::Run(SessionOpener { name, root, windows, phase: OpenerPhase::AttachExisting }, call)
                        } else {
                            let call = Call::Status(new_session_request(name.as_str(), root.as_str()));
                            OpenerStep::Run(SessionOpener { name, root, windows, phase: OpenerPhase::NewSession }, call)
                        }
                    },
                },
            },
            OpenerPhase::AttachExisting => match reply {
                Err(e) => OpenerStep::Done(Err(TmuxError::from_backend(e))),
                Ok(o) => if o.status.success() {
                    OpenerStep::Done(Ok(()))
                } else {
                    OpenerStep::Done(Err(TmuxError::Command(combined_output(&o))))
                },
            },
            OpenerPhase::NewSession => {
                if reply_failure(&reply).is_some() {
                    return OpenerStep::Done(Err(TmuxError::Command(concat2("Failed to create session with name ", name.as_str()))));
                }
                let call = Call::Output(list_windows_request(name.as_str()));
                OpenerStep::Run(SessionOpener { name, root, windows, phase: OpenerPhase::ListWindows }, call)
            },
            OpenerPhase::ListWindows => match reply_failure(&reply) {
                Some(t) => OpenerStep::Done(Err(TmuxError::Command(concat2("Failed to list tmux windows with error: ", t.as_str())))),
                None => {
                    let bootstrap = match &reply {
                        Ok(o) => reply_line(o),
                        Err(_) => String::new(),
                    };
                    let again = SessionOpener { name, root, windows, phase: OpenerPhase::ListWindows };
                    again.window_step(0, bootstrap, None)
                },
            },
            OpenerPhase::NewWindow { window, bootstrap, first } => {
                match reply_failure(&reply) {
                    Some(t) => {
                        let detail = concat2("Failed to create window with error: ", t.as_str());
                        OpenerStep::Done(Err(TmuxError::Command(window_failure_text(window, detail.as_str()))))
                    },
                    None => {
                        let id = match &reply {
                            Ok(o) => reply_line(o),
                            Err(_) => String::new(),
                        };
                        let first = match first {
                            Some(f) => Some(f),
                            None => Some(id.clone()),
                        };
                        let again = SessionOpener { name, root, windows, phase: OpenerPhase::ListWindows };
                        again.command_step(window, 0, id, bootstrap, first)
                    },
                }
            },
            OpenerPhase::SendKeys { window, command, window_id, bootstrap, first } => {
                match reply_failure(&reply) {
                    Some(t) => {
                        let detail = concat3(
                            "Failed to execute command \"",
                            windows[window].commands[command].as_str(),
                            "\" with error: ",
                        );
                        let detail = concat2(detail.as_str(), t.as_str());
                        OpenerStep::Done(Err(TmuxError::Command(window_failure_text(window, detail.as_str()))))
                    },
                    None => {
                        let m = windows[window].commands.len();
                        assert(command < m);
                        let again = SessionOpener { name, root, windows, phase: OpenerPhase::ListWindows };
                        again.command_step(window, command + 1, window_id, bootstrap, first)
                    },
                }
            },
            OpenerPhase::KillBootstrap { first } => {
                if reply_failure(&reply).is_some() {
                    return OpenerStep::Done(Err(TmuxError::Command("Failed to kill first window".to_owned())));
                }
                match first {
                    Some(w) => {
                        let call = Call::Status(select_window_request(w.as_str()));
                        OpenerStep::Run(SessionOpener { name, root, windows, phase: OpenerPhase::SelectFirst }, call)
                    },
                    None => {
                        let call = Call::Output(attach_request(name.as_str()));
                        OpenerStep::Run(SessionOpener { name, root, windows, phase: OpenerPhase::AttachNew }, call)
                    },
                }
            },
            OpenerPhase::SelectFirst => {
                if reply_failure(&reply).is_some() {
                    return OpenerStep::Done(Err(TmuxError::Command("Failed to select first window".to_owned())));
                }
                let call = Call::Output(attach_request(name.as_str()));
                OpenerStep::Run(SessionOpener { name, root, windows, phase: OpenerPhase::AttachNew }, call)
            },
            OpenerPhase::AttachNew => {
                if reply_failure(&reply).is_some() {
                    return OpenerStep::Done(
                        Err(TmuxError::Command(concat2("Failed to attach to session with error: ", name.as_str()))),
                    );
                }
                OpenerStep::Done(Ok(()))
            },
        }
    }
}

fn window_failure_text(i: usize, detail: &str) -> (s: String)
    requires
        i < usize::MAX,
    ensures
        s@ == window_failure(i as nat, detail@),
{
    let n = crate::text::decimal_string(i + 1);
    let head = concat3("Failed to create window ", n.as_str(), " with error: ");
    concat2(head.as_str(), detail)
}

} // verus!
