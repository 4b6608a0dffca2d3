//! Commands that the library asks a machine to run, and what comes back.
//!
//! The library never runs a process itself: it describes each command as a
//! [`CommandRequest`] and reads the captured [`CommandOutput`] or
//! [`ExitStatus`] that the caller hands back.
use vstd::prelude::*;

use crate::text::{chars_of, concat2, concat3, str_views};

verus! {

/// Standard input configuration for an executed command.
#[derive(Debug, Clone, PartialEq, Eq)]
pub enum CommandInput {
    /// Close stdin for the child process.
    Closed,
    /// Inherit stdin from the current process.
    Inherit,
    /// Pipe bytes into command stdin.
    Bytes(Vec<u8>),
}

/// What a [`CommandInput`] stands for.
pub enum InputSpec {
    Closed,
    Inherit,
    Bytes(Seq<u8>),
}

impl View for CommandInput {
    type V = InputSpec;

    open spec fn view(&self) -> InputSpec {
        match self {
            CommandInput::Closed => InputSpec::Closed,
            CommandInput::Inherit => InputSpec::Inherit,
            CommandInput::Bytes(b) => InputSpec::Bytes(b@),
        }
    }
}

impl CommandInput {
    /// A copy of this input.
    pub fn duplicate(&self) -> (c: Self)
        ensures
            c@ == self@,
    {
        match self {
            CommandInput::Closed => CommandInput::Closed,
            CommandInput::Inherit => CommandInput::Inherit,
            CommandInput::Bytes(b) => {
                let mut copy: Vec<u8> = Vec::new();
                let mut i: usize = 0;
                while i < b.len()
                    invariant
                        i <= b@.len(),
                        copy@ == b@.take(i as int),
                    decreases b@.len() - i,
                {
                    copy.push(b[i]);
                    assert(b@.take(i + 1) =~= b@.take(i as int).push(b@[i as int]));
                    i = i + 1;
                }
                assert(b@.take(b@.len() as int) =~= b@);
                CommandInput::Bytes(copy)
            },
        }
    }
}

impl Default for CommandInput {
    fn default() -> (r: Self)
        ensures
            r@ == InputSpec::Closed,
    {
        CommandInput::Closed
    }
}

/// Command execution request: a program, its arguments, and its stdin.
#[derive(Debug, Clone, PartialEq, Eq)]
pub struct CommandRequest {
    program: String,
    args: Vec<String>,
    stdin: CommandInput,
}

/// What a [`CommandRequest`] stands for.
pub struct RequestSpec {
    pub program: Seq<char>,
    pub args: Seq<Seq<char>>,
    pub stdin: InputSpec,
}

/// The views of a sequence of string slices.
pub open spec fn slice_views(v: Seq<&str>) -> Seq<Seq<char>> {
    v.map_values(|s: &str| s@)
}

impl View for CommandRequest {
    type V = RequestSpec;

    closed spec fn view(&self) -> RequestSpec {
        RequestSpec { program: self.program@, args: str_views(self.args@), stdin: self.stdin@ }
    }
}

impl CommandRequest {
    /// Creates a request for `program` with no arguments and stdin closed.
    pub fn new(program: &str) -> (r: Self)
        ensures
            r@ == (RequestSpec { program: program@, args: seq![], stdin: InputSpec::Closed }),
    {
        let r = CommandRequest { program: program.to_owned(), args: Vec::new(), stdin: CommandInput::Closed };
        assert(str_views(r.args@) =~= seq![]);
        r
    }

    /// Adds one argument.
    pub fn arg(self, arg: &str) -> (r: Self)
        ensures
            r@ == (RequestSpec { args: self@.args.push(arg@), ..self@ }),
    {
        let mut s = self;
        let ghost before = s.args@;
        s.args.push(arg.to_owned());
        assert(str_views(s.args@) =~= str_views(before).push(arg@));
        s
    }

    /// Adds many arguments, in order.
    pub fn args(self, args: &[&str]) -> (r: Self)
        ensures
            r@ == (RequestSpec { args: self@.args + slice_views(args@), ..self@ }),
    {
        let mut s = self;
        let ghost start = s.args@;
        let mut i: usize = 0;
        while i < args.len()
            invariant
                i <= args@.len(),
                s.program == self.program,
                s.stdin == self.stdin,
                str_views(s.args@) == str_views(start) + slice_views(args@.take(i as int)),
                str_views(start) == self@.args,
            decreases args@.len() - i,
        {
            let ghost before = s.args@;
            s.args.push(args[i].to_owned());
            assert(slice_views(args@.take(i + 1)) =~= slice_views(args@.take(i as int)).push(args@[i as int]@));
            assert(str_views(s.args@) =~= str_views(before).push(args@[i as int]@));
            i = i + 1;
        }
        assert(args@.take(args@.len() as int) =~= args@);
        s
    }

    /// Configures stdin for this command.
    pub fn stdin(self, stdin: CommandInput) -> (r: Self)
        ensures
            r@ == (RequestSpec { stdin: stdin@, ..self@ }),
    {
        CommandRequest { stdin, ..self }
    }

    /// The program to run.
    pub fn program(&self) -> (p: &str)
        ensures
            p@ == self@.program,
    {
        self.program.as_str()
    }

    /// The arguments, in order.
    pub fn args_os(&self) -> (a: &[String])
        ensures
            str_views(a@) == self@.args,
    {
        self.args.as_slice()
    }

    /// The stdin configuration.
    pub fn stdin_config(&self) -> (i: &CommandInput)
        ensures
            i@ == self@.stdin,
    {
        &self.stdin
    }
}

/// Commands to run sequentially.
#[derive(Debug, Clone, PartialEq, Eq)]
pub struct CommandRequests {
    requests: Vec<CommandRequest>,
}

impl View for CommandRequests {
    type V = Seq<RequestSpec>;

    closed spec fn view(&self) -> Seq<RequestSpec> {
        self.requests@.map_values(|r: CommandRequest| r@)
    }
}

impl CommandRequests {
    /// Creates an empty command sequence.
    pub fn new() -> (r: Self)
        ensures
            r@ == Seq::<RequestSpec>::empty(),
    {
        let r = CommandRequests { requests: Vec::new() };
        assert(r@ =~= Seq::<RequestSpec>::empty());
        r
    }

    /// Creates a sequence containing one command.
    pub fn one(request: CommandRequest) -> (r: Self)
        ensures
            r@ == seq![request@],
    {
        let mut r = CommandRequests::new();
        r.push(request);
        assert(r@ =~= seq![request@]);
        r
    }

    /// Appends a command to the sequence.
    pub fn push(&mut self, request: CommandRequest)
        ensures
            final(self)@ == old(self)@.push(request@),
    {
        let ghost before = self.requests@;
        self.requests.push(request);
        assert(self.requests@.map_values(|r: CommandRequest| r@) =~= before.map_values(
            |r: CommandRequest| r@,
        ).push(request@));
    }

    /// Appends many commands to the sequence, in order.
    pub fn extend(&mut self, requests: Vec<CommandRequest>)
        ensures
            final(self)@ == old(self)@ + requests@.map_values(|r: CommandRequest| r@),
    {
        let ghost start = self@;
        let ghost all = requests@;
        let mut rest = requests;
        let mut i: usize = 0;
        let n = rest.len();
        assert(all.skip(0) =~= all);
        assert(all.take(0).map_values(|r: CommandRequest| r@) =~= Seq::<RequestSpec>::empty());
        while i < n
            invariant
                n == all.len(),
                0 <= i <= n,
                self@ == start + all.take(i as int).map_values(|r: CommandRequest| r@),
                rest@ == all.skip(i as int),
            decreases n - i,
        {
            let next = rest.remove(0);
            assert(rest@ =~= all.skip(i + 1));
            proof {
                assert(next == all[i as int]);
            }
            self.push(next);
            assert(all.take(i + 1).map_values(|r: CommandRequest| r@) =~= all.take(i as int).map_values(
                |r: CommandRequest| r@,
            ).push(all[i as int]@));
            i = i + 1;
        }
        assert(all.take(n as int) =~= all);
    }

    /// The number of commands.
    pub fn len(&self) -> (n: usize)
        ensures
            n == self@.len(),
    {
        self.requests.len()
    }

    /// The commands, in order.
    pub fn into_vec(self) -> (v: Vec<CommandRequest>)
        ensures
            v@.map_values(|r: CommandRequest| r@) == self@,
    {
        self.requests
    }
}

/// How a finished command exited.
#[derive(Debug, Clone, PartialEq, Eq)]
pub struct ExitStatus {
    /// The exit code, if the command exited normally.
    pub code: Option<i32>,
    /// How the platform describes the status, such as `exit status: 1`.
    pub description: String,
}

impl ExitStatus {
    /// Whether the command exited normally with code 0.
    pub open spec fn spec_success(&self) -> bool {
        self.code == Some(0i32)
    }

    /// Whether the command exited normally with code 0.
    pub fn success(&self) -> (b: bool)
        ensures
            b == self.spec_success(),
    {
        match self.code {
            Some(c) => c == 0,
            None => false,
        }
    }
}

/// Captured command result.
#[derive(Debug, Clone, PartialEq, Eq)]
pub struct CommandOutput {
    /// Command exit status.
    pub status: ExitStatus,
    /// Captured stdout.
    pub stdout: Vec<u8>,
    /// Captured stderr.
    pub stderr: Vec<u8>,
}

/// The text that `String::from_utf8_lossy` makes of `bytes`.
pub uninterp spec fn utf8_lossy(bytes: Seq<u8>) -> Seq<char>;

/// Decodes bytes as UTF-8, replacing invalid sequences.
///
/// Trusted: calls `String::from_utf8_lossy`. The contract names its result,
/// which depends on the bytes alone, and states what its documentation
/// promises of valid UTF-8: it is decoded as it is. How invalid sequences
/// are replaced is left unsaid.
#[verifier::external_body]
pub(crate) fn lossy_text(bytes: &[u8]) -> (s: String)
    ensures
        s@ == utf8_lossy(bytes@),
        vstd::utf8::valid_utf8(bytes@) ==> s@ == vstd::utf8::decode_utf8(bytes@),
{
    String::from_utf8_lossy(bytes).into_owned()
}

/// Stdout followed by stderr, both decoded.
pub open spec fn combined_text(output: CommandOutput) -> Seq<char> {
    utf8_lossy(output.stdout@) + utf8_lossy(output.stderr@)
}

/// Stdout followed by stderr, both decoded lossily as UTF-8.
pub fn combined_output(output: &CommandOutput) -> (s: String)
    ensures
        s@ == combined_text(*output),
{
    let out = lossy_text(output.stdout.as_slice());
    let err = lossy_text(output.stderr.as_slice());
    concat2(out.as_str(), err.as_str())
}

/// A command that the library asks its caller to run.
#[derive(Debug)]
pub enum Call {
    /// Run with stdout and stderr captured; hand back the output.
    Output(CommandRequest),
    /// Run with stdout and stderr inherited; hand back the exit status, with
    /// nothing captured.
    Status(CommandRequest),
}

/// What a [`Call`] stands for.
pub enum CallSpec {
    Output(RequestSpec),
    Status(RequestSpec),
}

impl View for Call {
    type V = CallSpec;

    open spec fn view(&self) -> CallSpec {
        match self {
            Call::Output(r) => CallSpec::Output(r@),
            Call::Status(r) => CallSpec::Status(r@),
        }
    }
}

/// Why a reply to a call counts as a failure: the backend's error, or the
/// output of an unsuccessful command; `None` for success.
pub open spec fn failure_text(reply: Result<CommandOutput, BackendError>) -> Option<Seq<char>> {
    match reply {
        Err(e) => Some(backend_error_text(e)),
        Ok(o) => if o.status.spec_success() {
            None
        } else {
            Some(combined_text(o))
        },
    }
}

/// Errors produced by a backend.
#[derive(Debug, Clone, PartialEq, Eq)]
pub enum BackendError {
    /// The command process could not be spawned or observed.
    Io(String),
    /// The backend could not determine a home directory.
    HomeDirNotFound,
    /// The requested program is not available to this backend.
    MissingProgram(String),
}

/// The message of a [`BackendError`].
pub open spec fn backend_error_text(e: BackendError) -> Seq<char> {
    match e {
        BackendError::Io(m) => "IO error: "@ + m@,
        BackendError::HomeDirNotFound => "home directory not found"@,
        BackendError::MissingProgram(p) => p@ + " is not installed or not available in PATH"@,
    }
}

impl BackendError {
    /// A copy of this error.
    pub fn duplicate(&self) -> (e: Self)
        ensures
            e == *self,
    {
        match self {
            BackendError::Io(m) => BackendError::Io(m.clone()),
            BackendError::HomeDirNotFound => BackendError::HomeDirNotFound,
            BackendError::MissingProgram(p) => BackendError::MissingProgram(p.clone()),
        }
    }

    /// The error message.
    pub fn message(&self) -> (s: String)
        ensures
            s@ == backend_error_text(*self),
    {
        match self {
            BackendError::Io(m) => concat2("IO error: ", m.as_str()),
            BackendError::HomeDirNotFound => "home directory not found".to_owned(),
            BackendError::MissingProgram(p) => concat2(p.as_str(), " is not installed or not available in PATH"),
        }
    }
}

/// The local machine: commands run as child processes of this one.
#[derive(Debug, Default, Clone, Copy)]
pub struct LocalBackend;

/// Whether `program` may be run: it was found, or the error naming it.
pub fn program_available(program: &str, found: bool) -> (r: Result<(), BackendError>)
    ensures
        found ==> r is Ok,
        !found ==> (r matches Err(BackendError::MissingProgram(p)) && p@ == program@),
{
    if found {
        Ok(())
    } else {
        Err(BackendError::MissingProgram(program.to_owned()))
    }
}

/// `sh -lc <command>` with stdin closed.
pub open spec fn shell_spec(command: Seq<char>) -> RequestSpec {
    RequestSpec { program: "sh"@, args: seq!["-lc"@, command], stdin: InputSpec::Closed }
}

/// The request that runs `command` with a login shell.
pub fn shell_request(command: &str) -> (r: CommandRequest)
    ensures
        r@ == shell_spec(command@),
{
    let r = CommandRequest::new("sh").arg("-lc").arg(command);
    assert(r@.args =~= seq!["-lc"@, command@]);
    r
}

/// The text of a remote command's output that names a path: stdout
/// without trailing whitespace; a failed command is an I/O error.
pub open spec fn output_path(output: CommandOutput) -> Result<Seq<char>, Seq<char>> {
    if output.status.spec_success() {
        Ok(crate::text::trim_end_pat(utf8_lossy(output.stdout@), crate::text::CharPat::Whitespace))
    } else {
        Err("ssh command exited with status "@ + output.status.description@)
    }
}

/// Reads a path from a remote command's output (see [`output_path`]).
pub fn successful_output_path(output: &CommandOutput) -> (r: Result<String, BackendError>)
    ensures
        match output_path(*output) {
            Ok(p) => r matches Ok(x) && x@ == p,
            Err(m) => r matches Err(BackendError::Io(x)) && x@ == m,
        },
{
    if !output.status.success() {
        return Err(BackendError::Io(concat2("ssh command exited with status ", output.status.description.as_str())));
    }
    let text = lossy_text(output.stdout.as_slice());
    let v = chars_of(text.as_str());
    let t = crate::text::trimmed_end(v.as_slice(), crate::text::CharPat::Whitespace);
    Ok(crate::text::string_of(t.as_slice()))
}

/// What a remote `mkdir -p` exiting with `status` means.
pub fn remote_dir_created(status: &ExitStatus) -> (r: Result<(), BackendError>)
    ensures
        status.spec_success() ==> r is Ok,
        !status.spec_success() ==> (r matches Err(BackendError::Io(m)) && m@ == "ssh mkdir exited with status "@
            + status.description@),
{
    if status.success() {
        Ok(())
    } else {
        Err(BackendError::Io(concat2("ssh mkdir exited with status ", status.description.as_str())))
    }
}

/// A backend reached over SSH: the user and host that commands run as.
#[derive(Debug, Clone)]
pub struct SshBackend {
    target: String,
}

/// How one character is written inside single quotes.
pub open spec fn quote_piece(c: char) -> Seq<char> {
    if c == '\'' {
        seq!['\'', '\\', '\'', '\'']
    } else {
        seq![c]
    }
}

/// The characters of `value` as written inside single quotes.
pub open spec fn quote_body(value: Seq<char>) -> Seq<char>
    decreases value.len(),
{
    if value.len() == 0 {
        seq![]
    } else {
        quote_body(value.drop_last()) + quote_piece(value.last())
    }
}

/// `value` quoted for a POSIX shell: wrapped in `'`, with each `'` written as `'\''`.
pub open spec fn shell_quoted(value: Seq<char>) -> Seq<char> {
    seq!['\''] + quote_body(value) + seq!['\'']
}

/// Quotes `value` for a POSIX shell.
pub fn shell_quote(value: &str) -> (q: String)
    ensures
        q@ == shell_quoted(value@),
{
    let v = chars_of(value);
    let mut body = String::new();
    crate::text::push_char(&mut body, '\'');
    let mut i: usize = 0;
    assert(v@.take(0) =~= Seq::<char>::empty());
    while i < v.len()
        invariant
            i <= v@.len(),
            v@ == value@,
            body@ == seq!['\''] + quote_body(v@.take(i as int)),
        decreases v@.len() - i,
    {
        let c = v[i];
        let ghost before = body@;
        if c == '\'' {
            crate::text::push_char(&mut body, '\'');
            crate::text::push_char(&mut body, '\\');
            crate::text::push_char(&mut body, '\'');
            crate::text::push_char(&mut body, '\'');
        } else {
            crate::text::push_char(&mut body, c);
        }
        proof {
            assert(v@.take(i + 1).drop_last() =~= v@.take(i as int));
            assert(body@ =~= before + quote_piece(c));
        }
        i = i + 1;
    }
    crate::text::push_char(&mut body, '\'');
    assert(v@.take(v@.len() as int) =~= v@);
    body
}

/// Characters that a POSIX shell takes literally outside quotes, wherever
/// they stand in a word.
pub open spec fn shell_plain(c: char) -> bool {
    ||| ('a' <= c && c <= 'z')
    ||| ('A' <= c && c <= 'Z')
    ||| ('0' <= c && c <= '9')
    ||| c == '-' || c == '_' || c == '.' || c == '/' || c == ',' || c == ':' || c == '@' || c == '+'
}

/// The word being read, `cur`, with `x` added; quoting starts a word even
/// when it adds nothing.
pub open spec fn grown(cur: Option<Seq<char>>, x: Seq<char>) -> Option<Seq<char>> {
    match cur {
        Some(w) => Some(w + x),
        None => Some(x),
    }
}

/// The words read so far, `done`, with the word being read, if any.
pub open spec fn closed(cur: Option<Seq<char>>, done: Seq<Seq<char>>) -> Seq<Seq<char>> {
    match cur {
        Some(w) => done.push(w),
        None => done,
    }
}

/// The words a POSIX shell reads from `s`, after the words `done` and the
/// word `cur` (if one is started), starting inside single quotes when
/// `quoted` holds.  Inside quotes every character but `'` is literal and
/// `'` closes them; outside, `'` opens quotes, `\` takes the next character
/// literally, a space ends a word and plain characters stand for
/// themselves.  `None` when `s` holds anything else: an unclosed quote, a
/// trailing `\`, or a character that the shell would expand or treat as an
/// operator.
pub open spec fn shell_fields(
    s: Seq<char>,
    quoted: bool,
    cur: Option<Seq<char>>,
    done: Seq<Seq<char>>,
) -> Option<Seq<Seq<char>>>
    decreases s.len(),
{
    if s.len() == 0 {
        if quoted { None } else { Some(closed(cur, done)) }
    } else if quoted {
        if s[0] == '\'' {
            shell_fields(s.skip(1), false, cur, done)
        } else {
            shell_fields(s.skip(1), true, grown(cur, seq![s[0]]), done)
        }
    } else if s[0] == '\'' {
        shell_fields(s.skip(1), true, grown(cur, seq![]), done)
    } else if s[0] == '\\' {
        if s.len() >= 2 {
            shell_fields(s.skip(2), false, grown(cur, seq![s[1]]), done)
        } else {
            None
        }
    } else if s[0] == ' ' {
        shell_fields(s.skip(1), false, None, closed(cur, done))
    } else if shell_plain(s[0]) {
        shell_fields(s.skip(1), false, grown(cur, seq![s[0]]), done)
    } else {
        None
    }
}

/// The words a POSIX shell reads from the command line `s`.
pub open spec fn shell_words(s: Seq<char>) -> Option<Seq<Seq<char>>> {
    shell_fields(s, false, None, seq![])
}

proof fn lemma_piece_read(c: char, t: Seq<char>, w: Seq<char>, d: Seq<Seq<char>>)
    ensures
        shell_fields(quote_piece(c) + t, true, Some(w), d) == shell_fields(t, true, Some(w.push(c)), d),
{
    let s = quote_piece(c) + t;
    if c == '\'' {
        let s1 = seq!['\\', '\'', '\''] + t;
        let s2 = seq!['\''] + t;
        assert(s[0] == '\'' && s.skip(1) =~= s1);
        assert(shell_fields(s, true, Some(w), d) == shell_fields(s1, false, Some(w), d));
        assert(s1[0] == '\\' && s1[1] == '\'' && s1.skip(2) =~= s2);
        assert(w + seq!['\''] =~= w.push(c));
        assert(shell_fields(s1, false, Some(w), d) == shell_fields(s2, false, Some(w.push(c)), d));
        assert(s2[0] == '\'' && s2.skip(1) =~= t);
        assert(w.push(c) + seq![] =~= w.push(c));
        assert(shell_fields(s2, false, Some(w.push(c)), d) == shell_fields(t, true, Some(w.push(c)), d));
    } else {
        assert(s[0] == c && s.skip(1) =~= t);
        assert(w + seq![c] =~= w.push(c));
    }
}

proof fn lemma_body_read(v: Seq<char>, t: Seq<char>, w: Seq<char>, d: Seq<Seq<char>>)
    ensures
        shell_fields(quote_body(v) + t, true, Some(w), d) == shell_fields(t, true, Some(w + v), d),
    decreases v.len(),
{
    if v.len() == 0 {
        assert(quote_body(v) + t =~= t);
        assert(w + v =~= w);
    } else {
        let c = v.last();
        let u = v.drop_last();
        assert(quote_body(v) + t =~= quote_body(u) + (quote_piece(c) + t));
        lemma_body_read(u, quote_piece(c) + t, w, d);
        lemma_piece_read(c, t, w + u, d);
        assert((w + u).push(c) =~= w + v);
    }
}

/// Reading a quoted word adds its value to the word being read.
proof fn lemma_quoted_read(v: Seq<char>, t: Seq<char>, cur: Option<Seq<char>>, d: Seq<Seq<char>>)
    ensures
        shell_fields(shell_quoted(v) + t, false, cur, d) == shell_fields(t, false, grown(cur, v), d),
{
    let s = shell_quoted(v) + t;
    let cw = grown(cur, seq![])->Some_0;
    assert(s[0] == '\'' && s.skip(1) =~= quote_body(v) + (seq!['\''] + t));
    lemma_body_read(v, seq!['\''] + t, cw, d);
    assert((seq!['\''] + t)[0] == '\'' && (seq!['\''] + t).skip(1) =~= t);
    match cur {
        Some(w) => assert(w + seq![] + v =~= w + v),
        None => assert(seq![] + v =~= v),
    }
}

proof fn lemma_join_read(ws: Seq<Seq<char>>, t: Seq<char>, d: Seq<Seq<char>>)
    requires
        ws.len() >= 1,
    ensures
        shell_fields(join_quoted(ws) + t, false, None, d) == shell_fields(t, false, Some(ws.last()), d + ws.drop_last()),
    decreases ws.len(),
{
    reveal_strlit(" ");
    if ws.len() == 1 {
        lemma_quoted_read(ws[0], t, None, d);
        assert(d + ws.drop_last() =~= d);
    } else {
        let u = ws.drop_last();
        let x = ws.last();
        let t1 = seq![' '] + (shell_quoted(x) + t);
        assert(join_quoted(ws) + t =~= join_quoted(u) + t1);
        lemma_join_read(u, t1, d);
        assert(t1[0] == ' ' && t1.skip(1) =~= shell_quoted(x) + t);
        let d2 = closed(Some(u.last()), d + u.drop_last());
        assert(shell_fields(t1, false, Some(u.last()), d + u.drop_last()) == shell_fields(shell_quoted(x) + t, false, None, d2));
        lemma_quoted_read(x, t, None, d2);
        assert(seq![] + x =~= x);
        assert(d2 =~= d + ws.drop_last());
    }
}

/// Law: a POSIX shell reads what `shell_quote` gives as exactly one word,
/// the value itself, whatever characters it holds.
pub proof fn law_shell_quote_reads_back(v: Seq<char>)
    ensures
        shell_words(shell_quoted(v)) == Some(seq![v]),
{
    lemma_quoted_read(v, seq![], None, seq![]);
    assert(shell_quoted(v) + seq![] =~= shell_quoted(v));
    assert(seq![] + v =~= v);
    assert(seq![].push(v) =~= seq![v]);
}

/// Law: the remote shell reads the command line built for a request as
/// exactly the request's program followed by its arguments.
pub proof fn law_remote_command_reads_back(request: RequestSpec)
    ensures
        shell_words(remote_command(request)) == Some(seq![request.program] + request.args),
{
    let ws = seq![request.program] + request.args;
    lemma_join_read(ws, seq![], seq![]);
    assert(join_quoted(ws) + seq![] =~= join_quoted(ws));
    assert(seq![] + ws.drop_last() =~= ws.drop_last());
    assert(ws.drop_last().push(ws.last()) =~= ws);
}

impl SshBackend {
    /// Creates an SSH backend that runs commands as `username` on `address`.
    pub fn new(username: &str, address: &str) -> (b: Self)
        ensures
            b.spec_target() == username@ + "@"@ + address@,
    {
        SshBackend { target: concat3(username, "@", address) }
    }

    /// The `user@host` that commands run as.
    pub closed spec fn spec_target(&self) -> Seq<char> {
        self.target@
    }

    /// The `user@host` that commands run as.
    pub fn target(&self) -> (t: &str)
        ensures
            t@ == self.spec_target(),
    {
        self.target.as_str()
    }

    /// The local `ssh` request that runs `request` remotely: the program and
    /// its arguments are quoted and joined by spaces into one remote command.
    pub fn ssh_request(&self, request: &CommandRequest, stdin: CommandInput, allocate_tty: bool) -> (r: CommandRequest)
        ensures
            r@ == (RequestSpec {
                program: "ssh"@,
                args: seq![
                    if allocate_tty { "-t"@ } else { "-T"@ },
                    "--"@,
                    self.spec_target(),
                    remote_command(request@),
                ],
                stdin: stdin@,
            }),
    {
        let cmd = remote_command_of(request);
        let flag = if allocate_tty { "-t" } else { "-T" };
        let r = CommandRequest::new("ssh").arg(flag).arg("--").arg(self.target.as_str()).arg(cmd.as_str()).stdin(stdin);
        assert(r@.args =~= seq![flag@, "--"@, self.spec_target(), remote_command(request@)]);
        r
    }
}

/// The quoted words of a request, joined by single spaces.
pub open spec fn join_quoted(words: Seq<Seq<char>>) -> Seq<char>
    decreases words.len(),
{
    if words.len() == 0 {
        seq![]
    } else if words.len() == 1 {
        shell_quoted(words[0])
    } else {
        join_quoted(words.drop_last()) + " "@ + shell_quoted(words.last())
    }
}

/// The shell command line that runs `request`.
pub open spec fn remote_command(request: RequestSpec) -> Seq<char> {
    join_quoted(seq![request.program] + request.args)
}

fn remote_command_of(request: &CommandRequest) -> (s: String)
    ensures
        s@ == remote_command(request@),
{
    let ghost words = seq![request@.program] + request@.args;
    let mut s = shell_quote(request.program());
    assert(words.take(1) =~= seq![request@.program]);
    let args = request.args_os();
    let mut i: usize = 0;
    while i < args.len()
        invariant
            i <= args@.len(),
            str_views(args@) == request@.args,
            words == seq![request@.program] + request@.args,
            s@ == join_quoted(words.take(i + 1)),
        decreases args@.len() - i,
    {
        let q = shell_quote(args[i].as_str());
        let t = concat3(s.as_str(), " ", q.as_str());
        proof {
            assert(words.take(i + 2).drop_last() =~= words.take(i + 1));
            assert(words.take(i + 2).last() == args@[i as int]@);
        }
        s = t;
        i = i + 1;
    }
    assert(words.take(args@.len() + 1 as int) =~= words);
    s
}

impl SshBackend {
    /// The `ssh` request that runs shell `command` remotely, stdin closed.
    pub fn shell_call(&self, command: &str) -> (r: CommandRequest)
        ensures
            r@ == (RequestSpec {
                program: "ssh"@,
                args: seq!["-T"@, "--"@, self.spec_target(), remote_command(shell_spec(command@))],
                stdin: InputSpec::Closed,
            }),
    {
        self.ssh_request(&shell_request(command), CommandInput::Closed, false)
    }

    /// The request that runs `request` remotely and captures its output,
    /// passing its stdin on.
    pub fn output_request(&self, request: &CommandRequest) -> (r: CommandRequest)
        ensures
            r@ == (RequestSpec {
                program: "ssh"@,
                args: seq!["-T"@, "--"@, self.spec_target(), remote_command(request@)],
                stdin: request@.stdin,
            }),
    {
        self.ssh_request(request, request.stdin_config().duplicate(), false)
    }

    /// The request that runs `request` remotely with the terminal; a
    /// terminal is allocated when stdin is inherited.
    pub fn status_request(&self, request: &CommandRequest) -> (r: CommandRequest)
        ensures
            r@ == (RequestSpec {
                program: "ssh"@,
                args: seq![
                    if request@.stdin == InputSpec::Inherit { "-t"@ } else { "-T"@ },
                    "--"@,
                    self.spec_target(),
                    remote_command(request@),
                ],
                stdin: request@.stdin,
            }),
    {
        let tty = match request.stdin_config() {
            CommandInput::Inherit => true,
            _ => false,
        };
        self.ssh_request(request, request.stdin_config().duplicate(), tty)
    }

    /// The remote shell command that prints the home directory.
    pub fn home_dir_request(&self) -> (r: CommandRequest)
        ensures
            r@ == self.shell_call_spec("printf '%s\\n' \"$HOME\""@),
    {
        self.shell_call("printf '%s\\n' \"$HOME\"")
    }

    /// The remote shell command that prints the working directory.
    pub fn current_dir_request(&self) -> (r: CommandRequest)
        ensures
            r@ == self.shell_call_spec("pwd -P"@),
    {
        self.shell_call("pwd -P")
    }

    /// The remote test of whether `path` exists.
    pub fn path_exists_request(&self, path: &str) -> (r: CommandRequest)
        ensures
            r@ == self.shell_call_spec("test -e "@ + shell_quoted(path@)),
    {
        let q = shell_quote(path);
        self.shell_call(concat2("test -e ", q.as_str()).as_str())
    }

    /// The remote test of whether `path` is a directory.
    pub fn path_is_dir_request(&self, path: &str) -> (r: CommandRequest)
        ensures
            r@ == self.shell_call_spec("test -d "@ + shell_quoted(path@)),
    {
        let q = shell_quote(path);
        self.shell_call(concat2("test -d ", q.as_str()).as_str())
    }

    /// The remote command that creates `path` and its parents.
    pub fn create_dir_request(&self, path: &str) -> (r: CommandRequest)
        ensures
            r@ == self.shell_call_spec("mkdir -p "@ + shell_quoted(path@)),
    {
        let q = shell_quote(path);
        self.shell_call(concat2("mkdir -p ", q.as_str()).as_str())
    }

    /// The remote command that prints the canonical form of `path`.
    pub fn canonicalize_request(&self, path: &str) -> (r: CommandRequest)
        ensures
            r@ == self.shell_call_spec("cd -P "@ + shell_quoted(path@) + " && pwd -P"@),
    {
        let q = shell_quote(path);
        self.shell_call(concat3("cd -P ", q.as_str(), " && pwd -P").as_str())
    }

    /// The remote test of whether `program` can be run: an executable file
    /// when it names a path, else a command found by the shell.
    pub fn program_request(&self, program: &str) -> (r: CommandRequest)
        ensures
            r@ == self.shell_call_spec(
                if crate::paths::is_program_path(program@) {
                    "test -x "@ + shell_quoted(program@)
                } else {
                    "command -v "@ + shell_quoted(program@) + " >/dev/null 2>&1"@
                },
            ),
    {
        let q = shell_quote(program);
        let command = if crate::paths::program_is_path(program) {
            concat2("test -x ", q.as_str())
        } else {
            concat3("command -v ", q.as_str(), " >/dev/null 2>&1")
        };
        self.shell_call(command.as_str())
    }

    /// The `ssh` request that runs shell `command` remotely, stdin closed.
    pub open spec fn shell_call_spec(&self, command: Seq<char>) -> RequestSpec {
        RequestSpec {
            program: "ssh"@,
            args: seq!["-T"@, "--"@, self.spec_target(), remote_command(shell_spec(command))],
            stdin: InputSpec::Closed,
        }
    }
}

} // verus!
