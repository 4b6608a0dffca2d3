//! tmux: the commands that list, create and attach sessions, the reading of
//! their output, and session names.
use vstd::prelude::*;

use crate::backend::{
    backend_error_text, combined_output, combined_text, BackendError, CommandInput, CommandOutput,
    CommandRequest, CommandRequests, ExitStatus, InputSpec, RequestSpec,
};
use crate::text::{
    chars_of, concat2, concat3, has_name_char, has_name_char_in, has_prefix, sanitize, sanitize_str,
    split, split_char, starts_with, str_views, trim, trim_bounds, trim_pat, trimmed, CharPat,
};
use crate::{WindowConfig, WindowSpec};

verus! {

/// Errors produced while invoking tmux.
#[derive(Debug, PartialEq, Eq)]
pub enum TmuxError {
    /// The tmux process could not be spawned or observed.
    Io(String),
    /// tmux exited unsuccessfully or returned an unexpected response.
    Command(String),
    /// The command cannot run from inside an existing tmux session.
    InTmux,
    /// The requested tmux session name cannot be sanitized into a valid name.
    InvalidSessionName(String),
}

/// What a [`TmuxError`] stands for.
pub enum TmuxErrorSpec {
    Io(Seq<char>),
    Command(Seq<char>),
    InTmux,
    InvalidSessionName(Seq<char>),
}

impl View for TmuxError {
    type V = TmuxErrorSpec;

    open spec fn view(&self) -> TmuxErrorSpec {
        match self {
            TmuxError::Io(m) => TmuxErrorSpec::Io(m@),
            TmuxError::Command(m) => TmuxErrorSpec::Command(m@),
            TmuxError::InTmux => TmuxErrorSpec::InTmux,
            TmuxError::InvalidSessionName(s) => TmuxErrorSpec::InvalidSessionName(s@),
        }
    }
}

/// The tmux error that a failed backend call becomes.
pub open spec fn tmux_error_from(e: BackendError) -> TmuxErrorSpec {
    match e {
        BackendError::Io(m) => TmuxErrorSpec::Io(m@),
        _ => TmuxErrorSpec::Command(backend_error_text(e)),
    }
}

/// The message of a [`TmuxError`].
pub open spec fn tmux_error_text(e: TmuxError) -> Seq<char> {
    match e {
        TmuxError::Io(m) => "IO error: "@ + m@,
        TmuxError::Command(m) => m@,
        TmuxError::InTmux => "Please do not use this command in tmux"@,
        TmuxError::InvalidSessionName(s) => "\""@ + s@ + "\" is not a valid tmux session name"@,
    }
}

/// The tmux error for a failed backend call: an I/O failure stays one,
/// other failures become a command error with the backend's message.
pub open spec fn tmux_error_of(t: TmuxError, e: BackendError) -> bool {
    match e {
        BackendError::Io(m) => t == TmuxError::Io(m),
        _ => t matches TmuxError::Command(x) && x@ == backend_error_text(e),
    }
}

impl TmuxError {
    /// The error message.
    pub fn message(&self) -> (s: String)
        ensures
            s@ == tmux_error_text(*self),
    {
        match self {
            TmuxError::Io(m) => concat2("IO error: ", m.as_str()),
            TmuxError::Command(m) => m.clone(),
            TmuxError::InTmux => "Please do not use this command in tmux".to_owned(),
            TmuxError::InvalidSessionName(s) => concat3("\"", s.as_str(), "\" is not a valid tmux session name"),
        }
    }

    /// The tmux error for a failed backend call.
    pub fn from_backend(e: BackendError) -> (t: TmuxError)
        ensures
            tmux_error_of(t, e),
            t@ == tmux_error_from(e),
    {
        match e {
            BackendError::Io(m) => TmuxError::Io(m),
            other => TmuxError::Command(other.message()),
        }
    }
}

/// A tmux invocation with the given arguments and stdin inherited.
pub open spec fn tmux(args: Seq<Seq<char>>) -> RequestSpec {
    RequestSpec { program: "tmux"@, args, stdin: InputSpec::Inherit }
}

fn tmux_request(args: &[&str]) -> (r: CommandRequest)
    ensures
        r@ == tmux(crate::backend::slice_views(args@)),
{
    let r = CommandRequest::new("tmux").args(args).stdin(CommandInput::Inherit);
    assert(Seq::<Seq<char>>::empty() + crate::backend::slice_views(args@) =~= crate::backend::slice_views(args@));
    r
}

/// Returns the command request for listing tmux sessions.
pub fn list_sessions_request() -> (r: CommandRequest)
    ensures
        r@ == tmux(seq!["list-sessions"@, "-F"@, "#{session_name}"@]),
{
    let r = tmux_request(&["list-sessions", "-F", "#{session_name}"]);
    assert(crate::backend::slice_views(seq!["list-sessions", "-F", "#{session_name}"]) =~= seq![
        "list-sessions"@,
        "-F"@,
        "#{session_name}"@,
    ]);
    r
}

/// Returns the command request for attaching to a tmux session.
pub fn attach_request(session: &str) -> (r: CommandRequest)
    ensures
        r@ == tmux(seq!["attach"@, "-t"@, session@]),
{
    let r = CommandRequest::new("tmux").arg("attach").arg("-t").arg(session).stdin(CommandInput::Inherit);
    assert(r@.args =~= seq!["attach"@, "-t"@, session@]);
    r
}

/// Returns the command request for creating a detached tmux session
/// called `tmux_name` that starts in `root`.
pub fn new_session_request(tmux_name: &str, root: &str) -> (r: CommandRequest)
    ensures
        r@ == tmux(seq!["new-session"@, "-d"@, "-c"@, root@, "-s"@, tmux_name@]),
{
    let r = CommandRequest::new("tmux").arg("new-session").arg("-d").arg("-c").arg(root).arg("-s").arg(
        tmux_name,
    ).stdin(CommandInput::Inherit);
    assert(r@.args =~= seq!["new-session"@, "-d"@, "-c"@, root@, "-s"@, tmux_name@]);
    r
}

/// Returns the command request for listing tmux windows.
pub fn list_windows_request(tmux_name: &str) -> (r: CommandRequest)
    ensures
        r@ == tmux(seq!["list-windows"@, "-t"@, tmux_name@, "-F"@, "#{window_id}"@]),
{
    let r = CommandRequest::new("tmux").arg("list-windows").arg("-t").arg(tmux_name).arg("-F").arg(
        "#{window_id}",
    ).stdin(CommandInput::Inherit);
    assert(r@.args =~= seq!["list-windows"@, "-t"@, tmux_name@, "-F"@, "#{window_id}"@]);
    r
}

/// The arguments that create `window` in `session_name`, starting in `start_dir`.
pub open spec fn new_window_args(session_name: Seq<char>, start_dir: Seq<char>, window: WindowSpec) -> Seq<Seq<char>> {
    seq!["new-window"@, "-P"@, "-F"@, "#{window_id}"@] + match window.name {
        Some(n) => seq!["-n"@, n],
        None => seq![],
    } + seq!["-t"@, session_name, "-c"@, start_dir]
}

/// Returns the command request for creating a tmux window; it prints the
/// new window's id.
pub fn new_window_request(session_name: &str, start_dir: &str, window: &WindowConfig) -> (r: CommandRequest)
    ensures
        r@ == tmux(new_window_args(session_name@, start_dir@, window@)),
{
    let mut request = CommandRequest::new("tmux").arg("new-window").arg("-P").arg("-F").arg("#{window_id}");
    if let Some(name) = &window.name {
        request = request.arg("-n").arg(name.as_str());
    }
    let r = request.arg("-t").arg(session_name).arg("-c").arg(start_dir).stdin(CommandInput::Inherit);
    assert(r@.args =~= new_window_args(session_name@, start_dir@, window@));
    r
}

/// The request that types `command` into window `window_id`, then `Enter`.
pub open spec fn send_keys(window_id: Seq<char>, command: Seq<char>) -> RequestSpec {
    tmux(seq!["send-keys"@, "-t"@, window_id, command, "Enter"@])
}

/// Returns the command request for sending keys to a tmux window.
pub fn send_keys_request(window_id: &str, command: &str) -> (r: CommandRequest)
    ensures
        r@ == send_keys(window_id@, command@),
{
    let r = CommandRequest::new("tmux").arg("send-keys").arg("-t").arg(window_id).arg(command).arg(
        "Enter",
    ).stdin(CommandInput::Inherit);
    assert(r@.args =~= seq!["send-keys"@, "-t"@, window_id@, command@, "Enter"@]);
    r
}

/// Returns command requests for all configured commands in a tmux window,
/// in order.
pub fn send_keys_requests(window_id: &str, window: &WindowConfig) -> (r: CommandRequests)
    ensures
        r@.len() == window@.commands.len(),
        forall|i: int| 0 <= i < r@.len() ==> #[trigger] r@[i] == send_keys(window_id@, window@.commands[i]),
{
    let mut requests = CommandRequests::new();
    let mut i: usize = 0;
    while i < window.commands.len()
        invariant
            i <= window.commands@.len(),
            requests@.len() == i,
            forall|k: int| 0 <= k < i ==> #[trigger] requests@[k] == send_keys(window_id@, window@.commands[k]),
        decreases window.commands@.len() - i,
    {
        requests.push(send_keys_request(window_id, window.commands[i].as_str()));
        i = i + 1;
    }
    requests
}

/// Returns the command request for killing a tmux window.
pub fn kill_window_request(window_id: &str) -> (r: CommandRequest)
    ensures
        r@ == tmux(seq!["kill-window"@, "-t"@, window_id@]),
{
    let r = CommandRequest::new("tmux").arg("kill-window").arg("-t").arg(window_id).stdin(CommandInput::Inherit);
    assert(r@.args =~= seq!["kill-window"@, "-t"@, window_id@]);
    r
}

/// Returns the command request for selecting a tmux window.
pub fn select_window_request(window_id: &str) -> (r: CommandRequest)
    ensures
        r@ == tmux(seq!["select-window"@, "-t"@, window_id@]),
{
    let r = CommandRequest::new("tmux").arg("select-window").arg("-t").arg(window_id).stdin(CommandInput::Inherit);
    assert(r@.args =~= seq!["select-window"@, "-t"@, window_id@]);
    r
}

/// What `tmux list-sessions` output means: with success, the lines of the
/// output without surrounding newlines; without success, no sessions when no
/// server is running, and otherwise the error message.
pub open spec fn sessions_in(success: bool, text: Seq<char>) -> Result<Seq<Seq<char>>, Seq<char>> {
    if !success {
        if has_prefix(text, "no server running on"@) || has_prefix(text, "error connecting to"@) {
            Ok(seq![])
        } else {
            Err("Failed to list sessions with error: "@ + text)
        }
    } else {
        let t = trim_pat(text, CharPat::Exactly('\n'));
        if t.len() == 0 {
            Ok(seq![])
        } else {
            Ok(split(t, '\n'))
        }
    }
}

/// Whether `r` is what [`sessions_in`] says.
pub open spec fn sessions_result(r: Result<Vec<String>, TmuxError>, expected: Result<Seq<Seq<char>>, Seq<char>>) -> bool {
    match expected {
        Ok(names) => r matches Ok(v) && str_views(v@) == names,
        Err(m) => r matches Err(TmuxError::Command(x)) && x@ == m,
    }
}

/// Session names from `list-sessions` output text.
pub fn sessions_from_text(success: bool, text: &str) -> (r: Result<Vec<String>, TmuxError>)
    ensures
        sessions_result(r, sessions_in(success, text@)),
{
    let v = chars_of(text);
    if !success {
        if starts_with(v.as_slice(), "no server running on") || starts_with(v.as_slice(), "error connecting to") {
            let r: Vec<String> = Vec::new();
            assert(str_views(r@) =~= Seq::<Seq<char>>::empty());
            return Ok(r);
        }
        return Err(TmuxError::Command(concat2("Failed to list sessions with error: ", text)));
    }
    let t = trimmed(v.as_slice(), CharPat::Exactly('\n'));
    if t.len() == 0 {
        let r: Vec<String> = Vec::new();
        assert(str_views(r@) =~= Seq::<Seq<char>>::empty());
        return Ok(r);
    }
    let pieces = split_char(t.as_slice(), '\n');
    let mut names: Vec<String> = Vec::new();
    let mut i: usize = 0;
    while i < pieces.len()
        invariant
            t@ == trim_pat(v@, CharPat::Exactly('\n')),
            v@ == text@,
            pieces@.len() == split(t@, '\n').len(),
            forall|k: int| 0 <= k < pieces@.len() ==> #[trigger] pieces@[k]@ == split(t@, '\n')[k],
            i <= pieces@.len(),
            str_views(names@) == split(t@, '\n').take(i as int),
        decreases pieces@.len() - i,
    {
        let ghost before = names@;
        names.push(crate::text::string_of(pieces[i].as_slice()));
        assert(str_views(names@) =~= str_views(before).push(pieces@[i as int]@));
        assert(split(t@, '\n').take(i + 1) =~= split(t@, '\n').take(i as int).push(split(t@, '\n')[i as int]));
        i = i + 1;
    }
    assert(split(t@, '\n').take(pieces@.len() as int) =~= split(t@, '\n'));
    Ok(names)
}

/// Parses tmux session names from `list-sessions` output.
pub fn parse_list_sessions_output(output: &CommandOutput) -> (r: Result<Vec<String>, TmuxError>)
    ensures
        sessions_result(r, sessions_in(output.status.spec_success(), combined_text(*output))),
{
    let combined = combined_output(output);
    sessions_from_text(output.status.success(), combined.as_str())
}

/// Converts successful command output into combined stdout and stderr text.
pub fn successful_output(output: &CommandOutput) -> (r: Result<String, TmuxError>)
    ensures
        output.status.spec_success() ==> (r matches Ok(s) && s@ == combined_text(*output)),
        !output.status.spec_success() ==> (r matches Err(TmuxError::Command(s)) && s@ == combined_text(*output)),
{
    let combined = combined_output(output);
    if output.status.success() {
        Ok(combined)
    } else {
        Err(TmuxError::Command(combined))
    }
}

/// The message for a failed tmux exit status.
pub open spec fn status_failure_text(status: ExitStatus) -> Seq<char> {
    "tmux exited with status "@ + status.description@
}

/// Converts a command exit status into a tmux result.
pub fn successful_status(status: &ExitStatus) -> (r: Result<(), TmuxError>)
    ensures
        status.spec_success() ==> r is Ok,
        !status.spec_success() ==> (r matches Err(TmuxError::Command(s)) && s@ == status_failure_text(*status)),
{
    if status.success() {
        Ok(())
    } else {
        Err(TmuxError::Command(concat2("tmux exited with status ", status.description.as_str())))
    }
}

/// Converts multiple command exit statuses into a tmux result: the error of
/// the first unsuccessful one.
pub fn successful_statuses(statuses: &Vec<ExitStatus>) -> (r: Result<(), TmuxError>)
    ensures
        (forall|i: int| 0 <= i < statuses@.len() ==> #[trigger] statuses@[i].spec_success()) ==> r is Ok,
        forall|i: int|
            0 <= i < statuses@.len() && !(#[trigger] statuses@[i]).spec_success() && (forall|j: int|
                0 <= j < i ==> statuses@[j].spec_success()) ==> (r matches Err(TmuxError::Command(s)) && s@
                == status_failure_text(statuses@[i])),
{
    let mut i: usize = 0;
    while i < statuses.len()
        invariant
            i <= statuses@.len(),
            forall|j: int| 0 <= j < i ==> #[trigger] statuses@[j].spec_success(),
        decreases statuses@.len() - i,
    {
        match successful_status(&statuses[i]) {
            Ok(()) => {},
            Err(e) => {
                return Err(e);
            },
        }
        i = i + 1;
    }
    Ok(())
}

/// Returns an error when the current process is already running inside tmux.
pub fn err_in_tmux(in_tmux: bool) -> (r: Result<(), TmuxError>)
    ensures
        in_tmux ==> r == Err::<(), TmuxError>(TmuxError::InTmux),
        !in_tmux ==> r is Ok,
{
    if in_tmux {
        Err(TmuxError::InTmux)
    } else {
        Ok(())
    }
}

/// Sanitizes arbitrary text into a tmux-compatible session name.
pub fn sanitize_session_name(input: &str) -> (s: String)
    ensures
        s@ == sanitize(input@),
{
    sanitize_str(input)
}

/// Law: a sanitised name holds only ASCII letters, digits, `_` and `-`,
/// never two `_` in a row, and sanitising it again changes nothing.
pub proof fn law_sanitized_names_are_clean(s: Seq<char>)
    ensures
        crate::text::is_clean_name(sanitize(s)),
        sanitize(sanitize(s)) == sanitize(s),
{
    crate::text::lemma_sanitize_clean(s);
    crate::text::lemma_sanitize_clean(sanitize(s));
}

/// Validates and sanitizes a tmux session name: the name must hold at least
/// one letter, digit, `_` or `-` once trimmed.
pub fn validated_session_name(input: &str) -> (r: Result<String, TmuxError>)
    ensures
        has_name_char(trim(input@)) ==> (r matches Ok(s) && s@ == sanitize(trim(input@))),
        !has_name_char(trim(input@)) ==> (r matches Err(TmuxError::InvalidSessionName(s)) && s@ == input@),
{
    let v = chars_of(input);
    let (a, b) = trim_bounds(v.as_slice(), CharPat::Whitespace);
    let trimmed = crate::text::string_of_range(v.as_slice(), a, b);
    let sanitized = sanitize_session_name(trimmed.as_str());
    let has_valid_char = has_name_char_in(v.as_slice(), a, b);
    proof {
        if has_valid_char {
            crate::text::lemma_squeeze_len(trim(trim(input@)).map_values(|c: char| crate::text::name_char(c)));
            crate::text::lemma_trim_idempotent(input@);
        }
    }
    if sanitized.as_str().is_empty() || !has_valid_char {
        return Err(TmuxError::InvalidSessionName(input.to_owned()));
    }
    Ok(sanitized)
}

} // verus!
