//! Git branches and worktrees: the commands that list and create them, and
//! the reading of what git prints.
use vstd::prelude::*;

use crate::backend::{combined_output, combined_text, CommandInput, CommandOutput, CommandRequest, RequestSpec, InputSpec};
use crate::paths::{join, path_eq, path_join, same_components};
use crate::sort::{lemma_sorted_strings, lemma_sorted_unique, sort_by_key, sorted_by_key, sorted_of, views};
use crate::text::{
    chars_of, concat2, concat3, has_char, has_prefix, lex_le, lines, sanitize, sanitize_str, split_lines, starts_with, str_eq,
    string_of_range, trim, trimmed, CharPat,
};

verus! {

/// A git worktree discovered from `git worktree list --porcelain`.
#[derive(Debug, PartialEq, Eq)]
pub struct Worktree {
    /// Filesystem path to the worktree.
    pub path: String,
    /// Local branch checked out by the worktree, if any.
    pub branch: Option<String>,
}

/// What a [`Worktree`] stands for.
pub struct WorktreeSpec {
    pub path: Seq<char>,
    pub branch: Option<Seq<char>>,
}

/// The view of an optional string.
pub open spec fn opt_view(s: Option<String>) -> Option<Seq<char>> {
    match s {
        Some(x) => Some(x@),
        None => None,
    }
}

impl View for Worktree {
    type V = WorktreeSpec;

    open spec fn view(&self) -> WorktreeSpec {
        WorktreeSpec { path: self.path@, branch: opt_view(self.branch) }
    }
}

impl Worktree {
    /// A copy of this worktree.
    pub fn duplicate(&self) -> (w: Worktree)
        ensures
            w@ == self@,
    {
        Worktree {
            path: self.path.clone(),
            branch: match &self.branch {
                Some(b) => Some(b.clone()),
                None => None,
            },
        }
    }
}

/// Errors produced while discovering git worktrees.
#[derive(Debug, PartialEq, Eq)]
pub enum GitError {
    /// The git process could not be spawned or observed.
    Io(String),
    /// git exited unsuccessfully.
    Command(String),
    /// The configured project path does not exist.
    MissingProjectPath(String),
    /// No worktree exists for the requested branch.
    MissingWorktree {
        /// Branch that was requested.
        branch: String,
        /// Project path that was searched.
        project_path: String,
    },
    /// The branch cannot be converted into a managed worktree path segment.
    InvalidManagedWorktreeBranch(String),
    /// The managed worktree path exists but belongs to another checkout.
    ManagedWorktreePathConflict {
        /// Existing path that would be reused for the managed worktree.
        path: String,
        /// Branch that was requested.
        branch: String,
    },
    /// git worktree output could not be parsed.
    Parse(String),
}

/// The message of a [`GitError`].
pub open spec fn git_error_text(e: GitError) -> Seq<char> {
    match e {
        GitError::Io(m) => "IO error: "@ + m@,
        GitError::Command(m) => m@,
        GitError::MissingProjectPath(p) => "Project path "@ + p@ + " does not exist"@,
        GitError::MissingWorktree { branch, project_path } => "No local git worktree for branch \""@
            + branch@ + "\" exists under "@ + project_path@,
        GitError::InvalidManagedWorktreeBranch(b) => "Branch \""@ + b@
            + "\" cannot be used as a managed worktree path segment"@,
        GitError::ManagedWorktreePathConflict { path, branch } => "Managed worktree path "@ + path@
            + " already exists but is not registered for branch \""@ + branch@ + "\""@,
        GitError::Parse(m) => m@,
    }
}

impl GitError {
    /// The error message.
    pub fn message(&self) -> (s: String)
        ensures
            s@ == git_error_text(*self),
    {
        match self {
            GitError::Io(m) => concat2("IO error: ", m.as_str()),
            GitError::Command(m) => m.clone(),
            GitError::MissingProjectPath(p) => concat3("Project path ", p.as_str(), " does not exist"),
            GitError::MissingWorktree { branch, project_path } => {
                let a = concat3("No local git worktree for branch \"", branch.as_str(), "\" exists under ");
                concat2(a.as_str(), project_path.as_str())
            },
            GitError::InvalidManagedWorktreeBranch(b) => concat3(
                "Branch \"",
                b.as_str(),
                "\" cannot be used as a managed worktree path segment",
            ),
            GitError::ManagedWorktreePathConflict { path, branch } => {
                let a = concat3(
                    "Managed worktree path ",
                    path.as_str(),
                    " already exists but is not registered for branch \"",
                );
                concat3(a.as_str(), branch.as_str(), "\"")
            },
            GitError::Parse(m) => m.clone(),
        }
    }
}

/// `git -C <project_path> <args...>` with stdin closed.
pub open spec fn git_in(project_path: Seq<char>, args: Seq<Seq<char>>) -> RequestSpec {
    RequestSpec { program: "git"@, args: seq!["-C"@, project_path] + args, stdin: InputSpec::Closed }
}

/// The request that lists local branch names of `project_path`.
pub fn list_local_branches_request(project_path: &str) -> (r: CommandRequest)
    ensures
        r@ == git_in(
            project_path@,
            seq!["for-each-ref"@, "--format=%(refname:short)"@, "refs/heads"@],
        ),
{
    let r = CommandRequest::new("git").arg("-C").arg(project_path).arg("for-each-ref").arg(
        "--format=%(refname:short)",
    ).arg("refs/heads");
    assert(r@.args =~= seq!["-C"@, project_path@] + seq![
        "for-each-ref"@,
        "--format=%(refname:short)"@,
        "refs/heads"@,
    ]);
    r
}

/// The request that lists the worktrees of `project_path` in porcelain form.
pub fn list_worktrees_request(project_path: &str) -> (r: CommandRequest)
    ensures
        r@ == git_in(project_path@, seq!["worktree"@, "list"@, "--porcelain"@]),
{
    let r = CommandRequest::new("git").arg("-C").arg(project_path).arg("worktree").arg("list").arg(
        "--porcelain",
    );
    assert(r@.args =~= seq!["-C"@, project_path@] + seq!["worktree"@, "list"@, "--porcelain"@]);
    r
}

/// The request that creates a worktree for `branch` at `worktree_path`.
pub fn create_worktree_request(project_path: &str, worktree_path: &str, branch: &str) -> (r: CommandRequest)
    ensures
        r@ == git_in(project_path@, seq!["worktree"@, "add"@, worktree_path@, branch@]),
{
    let r = CommandRequest::new("git").arg("-C").arg(project_path).arg("worktree").arg("add").arg(
        worktree_path,
    ).arg(branch);
    assert(r@.args =~= seq!["-C"@, project_path@] + seq!["worktree"@, "add"@, worktree_path@, branch@]);
    r
}

/// The request that clones `repository` into `path`, with stdin inherited
/// so that git can ask for credentials.
pub fn clone_repository_request(repository: &str, path: &str) -> (r: CommandRequest)
    ensures
        r@ == (RequestSpec {
            program: "git"@,
            args: seq!["clone"@, repository@, path@],
            stdin: InputSpec::Inherit,
        }),
{
    let r = CommandRequest::new("git").arg("clone").arg(repository).arg(path).stdin(CommandInput::Inherit);
    assert(r@.args =~= seq!["clone"@, repository@, path@]);
    r
}

/// Trimmed lines that are not empty.
pub open spec fn nonempty_trimmed(ls: Seq<Seq<char>>) -> Seq<Seq<char>>
    decreases ls.len(),
{
    if ls.len() == 0 {
        seq![]
    } else {
        let rest = nonempty_trimmed(ls.drop_last());
        let t = trim(ls.last());
        if t.len() > 0 {
            rest.push(t)
        } else {
            rest
        }
    }
}

/// The branch names in `git for-each-ref` output: its non-empty trimmed lines.
pub open spec fn branch_names(text: Seq<char>) -> Seq<Seq<char>> {
    nonempty_trimmed(lines(text))
}

/// Branch names from `git for-each-ref` output, sorted.
pub fn parse_local_branches(input: &str) -> (r: Vec<String>)
    ensures
        sorted_by_key::<String>(views(r@)),
        views(r@).to_multiset() == branch_names(input@).to_multiset(),
        views(r@) == sorted_of(branch_names(input@)),
{
    let v = chars_of(input);
    let ls = split_lines(v.as_slice());
    let ghost all = lines(input@);
    let mut names: Vec<String> = Vec::new();
    let mut i: usize = 0;
    assert(all.take(0) =~= Seq::<Seq<char>>::empty());
    assert(views(names@) =~= Seq::<Seq<char>>::empty());
    while i < ls.len()
        invariant
            v@ == input@,
            all == lines(input@),
            ls@.len() == all.len(),
            forall|k: int| 0 <= k < ls@.len() ==> #[trigger] ls@[k]@ == all[k],
            i <= ls@.len(),
            views(names@) == nonempty_trimmed(all.take(i as int)),
        decreases ls@.len() - i,
    {
        let t = trimmed(ls[i].as_slice(), CharPat::Whitespace);
        proof {
            assert(all.take(i + 1).drop_last() =~= all.take(i as int));
            assert(all.take(i + 1).last() == ls@[i as int]@);
        }
        if t.len() > 0 {
            let ghost before = names@;
            names.push(crate::text::string_of(t.as_slice()));
            assert(views(names@) =~= views(before).push(t@));
        }
        i = i + 1;
    }
    assert(all.take(ls@.len() as int) =~= all);
    let sorted = sort_by_key(names);
    proof {
        lemma_sorted_strings(views(sorted@));
        let c = sorted_of(branch_names(input@));
        crate::sort::lemma_sorted_of_exists(branch_names(input@));
        lemma_sorted_unique(c, views(sorted@));
    }
    sorted
}

/// Branch names from the output of [`list_local_branches_request`].
pub fn parse_local_branches_output(output: &CommandOutput) -> (r: Result<Vec<String>, GitError>)
    ensures
        !output.status.spec_success() ==> (r matches Err(GitError::Command(m)) && m@ == combined_text(*output)),
        output.status.spec_success() ==> (r matches Ok(names) && sorted_by_key::<String>(views(names@))
            && views(names@).to_multiset() == branch_names(combined_text(*output)).to_multiset()
            && views(names@) == sorted_of(branch_names(combined_text(*output)))),
{
    let combined = combined_output(output);
    if !output.status.success() {
        return Err(GitError::Command(combined));
    }
    let names = parse_local_branches(combined.as_str());
    proof {
        lemma_sorted_strings(views(names@));
        let c = sorted_of(branch_names(combined@));
        lemma_sorted_unique(c, views(names@));
    }
    Ok(names)
}

/// Law: among the sorted branch names of `git for-each-ref` output, a name
/// comes before every longer name that begins with it (`release` before
/// `release-2`).
pub proof fn law_branch_prefix_sorts_first(text: Seq<char>, i: int, j: int)
    requires
        0 <= i < sorted_of(branch_names(text)).len(),
        0 <= j < sorted_of(branch_names(text)).len(),
        sorted_of(branch_names(text))[i].len() < sorted_of(branch_names(text))[j].len(),
        has_prefix(sorted_of(branch_names(text))[j], sorted_of(branch_names(text))[i]),
    ensures
        i < j,
{
    let r = sorted_of(branch_names(text));
    crate::sort::lemma_sorted_of_exists(branch_names(text));
    let a = r[i];
    let s = r[j].skip(a.len() as int);
    assert(a + s =~= r[j]);
    crate::text::law_prefix_sorts_first(a, s);
    if j < i {
        assert(lex_le(r[j], r[i]));
    }
    if i == j {
        assert(false);
    }
}

/// The result of running the request of [`create_worktree_request`].
pub fn parse_create_worktree_output(output: &CommandOutput) -> (r: Result<(), GitError>)
    ensures
        output.status.spec_success() ==> r is Ok,
        !output.status.spec_success() ==> (r matches Err(GitError::Command(m)) && m@ == combined_text(*output)),
{
    if output.status.success() {
        return Ok(());
    }
    Err(GitError::Command(combined_output(output)))
}

/// Partial reading of porcelain output: worktrees completed so far and the
/// path and branch of the one being read.
pub struct PorcelainState {
    pub done: Seq<WorktreeSpec>,
    pub path: Option<Seq<char>>,
    pub branch: Option<Seq<char>>,
}

/// Completes the worktree being read; a branch seen before any path is an error.
pub open spec fn porcelain_flush(st: PorcelainState) -> Option<Seq<WorktreeSpec>> {
    match st.path {
        Some(p) => Some(st.done.push(WorktreeSpec { path: p, branch: st.branch })),
        None => if st.branch is Some {
            None
        } else {
            Some(st.done)
        },
    }
}

/// Reads one porcelain line: an empty line ends a worktree, `worktree <path>`
/// starts one, `branch refs/heads/<name>` names its branch, and other lines
/// are ignored.
pub open spec fn porcelain_line(st: Option<PorcelainState>, line: Seq<char>) -> Option<PorcelainState> {
    match st {
        None => None,
        Some(st) => if line.len() == 0 {
            match porcelain_flush(st) {
                Some(d) => Some(PorcelainState { done: d, path: None, branch: None }),
                None => None,
            }
        } else if has_prefix(line, "worktree "@) {
            match porcelain_flush(st) {
                Some(d) => Some(
                    PorcelainState {
                        done: d,
                        path: Some(line.skip("worktree "@.len() as int)),
                        branch: None,
                    },
                ),
                None => None,
            }
        } else if has_prefix(line, "branch refs/heads/"@) {
            Some(
                PorcelainState {
                    branch: Some(line.skip("branch refs/heads/"@.len() as int)),
                    ..st
                },
            )
        } else {
            Some(st)
        },
    }
}

/// Reads porcelain lines in order.
pub open spec fn porcelain_lines(ls: Seq<Seq<char>>) -> Option<PorcelainState>
    decreases ls.len(),
{
    if ls.len() == 0 {
        Some(PorcelainState { done: seq![], path: None, branch: None })
    } else {
        porcelain_line(porcelain_lines(ls.drop_last()), ls.last())
    }
}

/// Once reading fails, reading more lines does not recover.
pub proof fn lemma_porcelain_failure_sticks(ls: Seq<Seq<char>>, k: int)
    requires
        0 <= k <= ls.len(),
        porcelain_lines(ls.take(k)) is None,
    ensures
        porcelain_lines(ls) is None,
    decreases ls.len(),
{
    if k == ls.len() {
        assert(ls.take(k) =~= ls);
    } else {
        assert(ls.drop_last().take(k) =~= ls.take(k));
        lemma_porcelain_failure_sticks(ls.drop_last(), k);
    }
}

/// The worktrees described by `git worktree list --porcelain` output, or
/// `None` when a branch line comes before any worktree line.
pub open spec fn parsed_worktrees(text: Seq<char>) -> Option<Seq<WorktreeSpec>> {
    match porcelain_lines(lines(text)) {
        Some(st) => porcelain_flush(st),
        None => None,
    }
}

/// The message of the parse error in porcelain output.
pub open spec fn branch_before_path_text() -> Seq<char> {
    "Found git worktree branch before worktree path"@
}

fn push_worktree(
    done: &mut Vec<Worktree>,
    path: Option<String>,
    branch: Option<String>,
) -> (r: Result<(), GitError>)
    ensures
        r is Ok == porcelain_flush(PorcelainState { done: views(old(done)@), path: opt_view(path), branch: opt_view(branch) }) is Some,
        r is Ok ==> porcelain_flush(PorcelainState { done: views(old(done)@), path: opt_view(path), branch: opt_view(branch) }) == Some(views(final(done)@)),
        r is Err ==> (r matches Err(GitError::Parse(m)) && m@ == branch_before_path_text()),
{
    match path {
        Some(p) => {
            let ghost before = done@;
            let ghost b = opt_view(branch);
            done.push(Worktree { path: p, branch });
            assert(views(done@) =~= views(before).push(WorktreeSpec { path: p@, branch: b }));
            Ok(())
        },
        None => {
            if branch.is_some() {
                Err(GitError::Parse("Found git worktree branch before worktree path".to_owned()))
            } else {
                Ok(())
            }
        },
    }
}

/// A line of porcelain output: no line break inside, and no `'\r'` at its
/// end (which `lines` would take as part of the break).
pub open spec fn line_ok(s: Seq<char>) -> bool {
    !has_char(s, '\n') && !(s.len() > 0 && s.last() == '\r')
}

/// The porcelain record git writes for worktree `w`, whose `HEAD` is
/// `head`: its path, its head, its branch (or `detached`), and, when `blank`
/// holds, the blank line that ends it.
pub open spec fn porcelain_record(w: WorktreeSpec, head: Seq<char>, blank: bool) -> Seq<char> {
    "worktree "@ + w.path + seq!['\n'] + "HEAD "@ + head + seq!['\n'] + match w.branch {
        Some(b) => "branch refs/heads/"@ + b,
        None => "detached"@,
    } + seq!['\n'] + if blank { seq!['\n'] } else { seq![] }
}

/// The porcelain output listing worktrees `ws` in order, with heads `heads`
/// and, after each record for which `blanks` holds, a blank line.
pub open spec fn porcelain_text(ws: Seq<WorktreeSpec>, heads: Seq<Seq<char>>, blanks: Seq<bool>) -> Seq<char>
    decreases ws.len(),
{
    if ws.len() == 0 || heads.len() == 0 || blanks.len() == 0 {
        seq![]
    } else {
        porcelain_text(ws.drop_last(), heads.drop_last(), blanks.drop_last()) + porcelain_record(
            ws.last(),
            heads.last(),
            blanks.last(),
        )
    }
}

proof fn lemma_lines_concat(a: Seq<char>, b: Seq<char>)
    requires
        a.len() == 0 || a.last() == '\n',
    ensures
        lines(a + b) == lines(a) + lines(b),
    decreases a.len(),
{
    if a.len() == 0 {
        assert(a + b =~= b);
        assert(lines(a) + lines(b) =~= lines(b));
    } else {
        crate::text::lemma_index_of_meaning(a, '\n');
        let i = crate::text::index_of(a, '\n') as int;
        if i == a.len() {
            assert(a[a.len() - 1] == a.last());
        }
        let s = a + b;
        assert forall|j: int| 0 <= j < i implies #[trigger] s[j] != '\n' by {
            assert(s[j] == a[j]);
        }
        crate::text::lemma_index_of_at(s, '\n', i);
        assert(s.take(i) =~= a.take(i));
        assert(s.skip(i + 1) =~= a.skip(i + 1) + b);
        let t = a.skip(i + 1);
        if t.len() > 0 {
            assert(t.last() == a.last());
        }
        lemma_lines_concat(t, b);
        assert(lines(a + b) =~= lines(a) + lines(b));
    }
}

proof fn lemma_line_then(l: Seq<char>, rest: Seq<char>)
    requires
        line_ok(l),
    ensures
        lines(l + seq!['\n'] + rest) == seq![l] + lines(rest),
{
    let s = l + seq!['\n'] + rest;
    assert forall|j: int| 0 <= j < l.len() implies #[trigger] s[j] != '\n' by {
        assert(s[j] == l[j]);
        if l[j] == '\n' {
            assert(has_char(l, '\n'));
        }
    }
    crate::text::lemma_index_of_at(s, '\n', l.len() as int);
    assert(s.take(l.len() as int) =~= l);
    assert(s.skip(l.len() + 1int) =~= rest);
}

proof fn lemma_line_ok_join(a: Seq<char>, b: Seq<char>)
    requires
        forall|k: int| 0 <= k < a.len() ==> #[trigger] a[k] != '\n',
        line_ok(b),
        b.len() > 0 || (a.len() > 0 && a.last() != '\r'),
    ensures
        line_ok(a + b),
{
    let s = a + b;
    assert forall|k: int| 0 <= k < s.len() implies #[trigger] s[k] != '\n' by {
        if k < a.len() {
            assert(s[k] == a[k]);
        } else {
            assert(s[k] == b[k - a.len()]);
            if b[k - a.len()] == '\n' {
                assert(has_char(b, '\n'));
            }
        }
    }
    if b.len() > 0 {
        assert(s.last() == b.last());
    } else {
        assert(s =~= a);
    }
}

proof fn lemma_porcelain_snoc(ls: Seq<Seq<char>>, x: Seq<char>)
    ensures
        porcelain_lines(ls.push(x)) == porcelain_line(porcelain_lines(ls), x),
{
    assert(ls.push(x).drop_last() =~= ls);
}

/// The reading state after records `ws`, the last closed by a blank line
/// when `closed` holds.
pub open spec fn state_after(ws: Seq<WorktreeSpec>, closed: bool) -> PorcelainState {
    if closed || ws.len() == 0 {
        PorcelainState { done: ws, path: None, branch: None }
    } else {
        PorcelainState { done: ws.drop_last(), path: Some(ws.last().path), branch: ws.last().branch }
    }
}

/// The line that names the branch of `w`, or says it is detached.
pub open spec fn branch_line(w: WorktreeSpec) -> Seq<char> {
    match w.branch {
        Some(b) => "branch refs/heads/"@ + b,
        None => "detached"@,
    }
}

#[verifier::spinoff_prover]
#[verifier::rlimit(40)]
proof fn lemma_record_lines(w: WorktreeSpec, head: Seq<char>, blank: bool)
    requires
        line_ok(w.path),
        line_ok(head),
        w.branch matches Some(b) ==> line_ok(b),
    ensures
        lines(porcelain_record(w, head, blank)) == seq!["worktree "@ + w.path, "HEAD "@ + head, branch_line(w)] + if blank {
            seq![Seq::<char>::empty()]
        } else {
            Seq::<Seq<char>>::empty()
        },
{
    reveal_strlit("worktree ");
    reveal_strlit("HEAD ");
    reveal_strlit("branch refs/heads/");
    reveal_strlit("detached");
    let wt = "worktree "@;
    let hd = "HEAD "@;
    let br = "branch refs/heads/"@;
    let dt = "detached"@;
    assert(wt =~= seq!['w', 'o', 'r', 'k', 't', 'r', 'e', 'e', ' ']);
    assert(hd =~= seq!['H', 'E', 'A', 'D', ' ']);
    assert(br =~= seq!['b', 'r', 'a', 'n', 'c', 'h', ' ', 'r', 'e', 'f', 's', '/', 'h', 'e', 'a', 'd', 's', '/']);
    assert(dt =~= seq!['d', 'e', 't', 'a', 'c', 'h', 'e', 'd']);
    let l1 = wt + w.path;
    let l2 = hd + head;
    let l3 = branch_line(w);
    lemma_line_ok_join(wt, w.path);
    lemma_line_ok_join(hd, head);
    match w.branch {
        Some(b) => lemma_line_ok_join(br, b),
        None => {
            lemma_line_ok_join(dt, seq![]);
            assert(dt + seq![] =~= dt);
        },
    }
    let e = Seq::<char>::empty();
    let tail: Seq<char> = if blank { seq!['\n'] } else { seq![] };
    let rec = porcelain_record(w, head, blank);
    assert(rec =~= l1 + seq!['\n'] + (l2 + seq!['\n'] + (l3 + seq!['\n'] + tail)));
    if blank {
        lemma_line_then(e, e);
        assert(e + seq!['\n'] + e =~= tail);
    }
    assert(lines(e) =~= Seq::<Seq<char>>::empty());
    lemma_line_then(l3, tail);
    lemma_line_then(l2, l3 + seq!['\n'] + tail);
    lemma_line_then(l1, l2 + seq!['\n'] + (l3 + seq!['\n'] + tail));
}

#[verifier::spinoff_prover]
#[verifier::rlimit(40)]
proof fn lemma_record_steps(w: WorktreeSpec, head: Seq<char>, st0: PorcelainState, done: Seq<WorktreeSpec>)
    requires
        porcelain_flush(st0) == Some(done),
    ensures
        porcelain_line(
            porcelain_line(porcelain_line(Some(st0), "worktree "@ + w.path), "HEAD "@ + head),
            branch_line(w),
        ) == Some(PorcelainState { done, path: Some(w.path), branch: w.branch }),
{
    reveal_strlit("worktree ");
    reveal_strlit("HEAD ");
    reveal_strlit("branch refs/heads/");
    reveal_strlit("detached");
    let wt = "worktree "@;
    let hd = "HEAD "@;
    let br = "branch refs/heads/"@;
    let dt = "detached"@;
    assert(wt =~= seq!['w', 'o', 'r', 'k', 't', 'r', 'e', 'e', ' ']);
    assert(hd =~= seq!['H', 'E', 'A', 'D', ' ']);
    assert(br =~= seq!['b', 'r', 'a', 'n', 'c', 'h', ' ', 'r', 'e', 'f', 's', '/', 'h', 'e', 'a', 'd', 's', '/']);
    assert(dt =~= seq!['d', 'e', 't', 'a', 'c', 'h', 'e', 'd']);
    let l1 = wt + w.path;
    let l2 = hd + head;
    let l3 = branch_line(w);
    assert(l1.take(9) =~= wt);
    assert(l1.skip(9) =~= w.path);
    assert(has_prefix(l1, wt));
    let s1 = PorcelainState { done, path: Some(w.path), branch: None };
    assert(porcelain_line(Some(st0), l1) == Some(s1));
    assert(l2[0] == 'H');
    assert(!has_prefix(l2, wt)) by {
        if has_prefix(l2, wt) {
            assert(l2.take(9)[0] == wt[0]);
        }
    }
    assert(!has_prefix(l2, br)) by {
        if has_prefix(l2, br) {
            assert(l2.take(18)[0] == br[0]);
        }
    }
    assert(porcelain_line(Some(s1), l2) == Some(s1));
    match w.branch {
        Some(b) => {
            assert(l3[0] == 'b');
            assert(!has_prefix(l3, wt)) by {
                if has_prefix(l3, wt) {
                    assert(l3.take(9)[0] == wt[0]);
                }
            }
            assert(l3.take(18) =~= br);
            assert(l3.skip(18) =~= b);
            assert(has_prefix(l3, br));
        },
        None => {
            assert(!has_prefix(l3, wt) && !has_prefix(l3, br));
        },
    }
}

proof fn lemma_record_read(
    w: WorktreeSpec,
    head: Seq<char>,
    blank: bool,
    ls: Seq<Seq<char>>,
    done: Seq<WorktreeSpec>,
    closed: bool,
)
    requires
        line_ok(w.path),
        line_ok(head),
        w.branch matches Some(b) ==> line_ok(b),
        porcelain_lines(ls) == Some(state_after(done, closed)),
    ensures
        porcelain_lines(ls + lines(porcelain_record(w, head, blank))) == Some(state_after(done.push(w), blank)),
{
    lemma_record_lines(w, head, blank);
    let l1 = "worktree "@ + w.path;
    let l2 = "HEAD "@ + head;
    let l3 = branch_line(w);
    let e = Seq::<char>::empty();
    let st0 = state_after(done, closed);
    assert(porcelain_flush(st0) == Some(done)) by {
        if !(closed || done.len() == 0) {
            assert(done.drop_last().push(done.last()) =~= done);
        }
    }
    lemma_record_steps(w, head, st0, done);
    lemma_porcelain_snoc(ls, l1);
    lemma_porcelain_snoc(ls.push(l1), l2);
    lemma_porcelain_snoc(ls.push(l1).push(l2), l3);
    let ls3 = ls.push(l1).push(l2).push(l3);
    let s3 = PorcelainState { done, path: Some(w.path), branch: w.branch };
    assert(porcelain_lines(ls3) == Some(s3));
    assert(done.push(w).drop_last() =~= done);
    assert(done.push(w).last() == w);
    let rec = porcelain_record(w, head, blank);
    if blank {
        lemma_porcelain_snoc(ls3, e);
        assert(ls + lines(rec) =~= ls3.push(e));
    } else {
        assert(ls + lines(rec) =~= ls3);
    }
}

proof fn lemma_porcelain_text_read(ws: Seq<WorktreeSpec>, heads: Seq<Seq<char>>, blanks: Seq<bool>)
    requires
        ws.len() == heads.len(),
        ws.len() == blanks.len(),
        forall|i: int|
            0 <= i < ws.len() ==> {
                &&& line_ok((#[trigger] ws[i]).path)
                &&& line_ok(heads[i])
                &&& (ws[i].branch matches Some(b) ==> line_ok(b))
            },
    ensures
        porcelain_lines(lines(porcelain_text(ws, heads, blanks))) == Some(
            state_after(ws, ws.len() == 0 || blanks.last()),
        ),
        porcelain_text(ws, heads, blanks).len() == 0 || porcelain_text(ws, heads, blanks).last() == '\n',
    decreases ws.len(),
{
    if ws.len() == 0 {
        assert(lines(porcelain_text(ws, heads, blanks)) =~= Seq::<Seq<char>>::empty());
        assert(ws =~= Seq::<WorktreeSpec>::empty());
    } else {
        let u = ws.drop_last();
        let hu = heads.drop_last();
        let bu = blanks.drop_last();
        assert forall|i: int| 0 <= i < u.len() implies {
            &&& line_ok((#[trigger] u[i]).path)
            &&& line_ok(hu[i])
            &&& (u[i].branch matches Some(b) ==> line_ok(b))
        } by {
            assert(u[i] == ws[i] && hu[i] == heads[i]);
        }
        lemma_porcelain_text_read(u, hu, bu);
        let prev = porcelain_text(u, hu, bu);
        let rec = porcelain_record(ws.last(), heads.last(), blanks.last());
        lemma_lines_concat(prev, rec);
        assert(ws.last() == ws[ws.len() - 1]);
        lemma_record_read(ws.last(), heads.last(), blanks.last(), lines(prev), u, u.len() == 0 || bu.last());
        assert(u.push(ws.last()) =~= ws);
        let t = prev + rec;
        assert(t.last() == rec.last());
        assert(rec.last() == '\n');
    }
}

/// Law: reading the porcelain output that git writes for a list of
/// worktrees gives back exactly that list, whether or not blank lines
/// separate the records: each worktree's path, and its branch taken from its
/// own record only, with no branch for a `detached` one.
pub proof fn law_porcelain_reads_back(ws: Seq<WorktreeSpec>, heads: Seq<Seq<char>>, blanks: Seq<bool>)
    requires
        ws.len() == heads.len(),
        ws.len() == blanks.len(),
        forall|i: int|
            0 <= i < ws.len() ==> {
                &&& line_ok((#[trigger] ws[i]).path)
                &&& line_ok(heads[i])
                &&& (ws[i].branch matches Some(b) ==> line_ok(b))
            },
    ensures
        parsed_worktrees(porcelain_text(ws, heads, blanks)) == Some(ws),
{
    lemma_porcelain_text_read(ws, heads, blanks);
    if ws.len() > 0 {
        assert(ws.drop_last().push(ws.last()) =~= ws);
    }
}

/// Parses `git worktree list --porcelain` output.
pub fn parse_worktrees(input: &str) -> (r: Result<Vec<Worktree>, GitError>)
    ensures
        match parsed_worktrees(input@) {
            Some(ws) => r matches Ok(v) && views(v@) == ws,
            None => r matches Err(GitError::Parse(m)) && m@ == branch_before_path_text(),
        },
{
    let v = chars_of(input);
    let ls = split_lines(v.as_slice());
    let ghost all = lines(input@);
    let mut worktrees: Vec<Worktree> = Vec::new();
    let mut current_path: Option<String> = None;
    let mut current_branch: Option<String> = None;
    let mut i: usize = 0;
    assert(all.take(0) =~= Seq::<Seq<char>>::empty());
    assert(views(worktrees@) =~= Seq::<WorktreeSpec>::empty());
    while i < ls.len()
        invariant
            v@ == input@,
            all == lines(input@),
            ls@.len() == all.len(),
            forall|k: int| 0 <= k < ls@.len() ==> #[trigger] ls@[k]@ == all[k],
            i <= ls@.len(),
            porcelain_lines(all.take(i as int)) == Some(
                PorcelainState {
                    done: views(worktrees@),
                    path: opt_view(current_path),
                    branch: opt_view(current_branch),
                },
            ),
        decreases ls@.len() - i,
    {
        let line = &ls[i];
        proof {
            assert(all.take(i + 1).drop_last() =~= all.take(i as int));
            assert(all.take(i + 1).last() == line@);
            reveal_strlit("worktree ");
            reveal_strlit("branch refs/heads/");
        }
        if line.len() == 0 {
            let p = current_path;
            let b = current_branch;
            current_path = None;
            current_branch = None;
            if let Err(e) = push_worktree(&mut worktrees, p, b) {
                proof {
                    lemma_porcelain_failure_sticks(all, i + 1);
                }
                return Err(e);
            }
        } else if starts_with(line.as_slice(), "worktree ") {
            let p = current_path;
            let b = current_branch;
            current_path = Some(string_of_range(line.as_slice(), 9, line.len()));
            current_branch = None;
            if let Err(e) = push_worktree(&mut worktrees, p, b) {
                proof {
                    lemma_porcelain_failure_sticks(all, i + 1);
                }
                return Err(e);
            }
        } else if starts_with(line.as_slice(), "branch refs/heads/") {
            current_branch = Some(string_of_range(line.as_slice(), 18, line.len()));
        }
        i = i + 1;
    }
    assert(all.take(ls@.len() as int) =~= all);
    if let Err(e) = push_worktree(&mut worktrees, current_path, current_branch) {
        return Err(e);
    }
    Ok(worktrees)
}

/// Worktrees from the output of [`list_worktrees_request`].
pub fn parse_worktrees_output(output: &CommandOutput) -> (r: Result<Vec<Worktree>, GitError>)
    ensures
        !output.status.spec_success() ==> (r matches Err(GitError::Command(m)) && m@ == combined_text(*output)),
        output.status.spec_success() ==> match parsed_worktrees(combined_text(*output)) {
            Some(ws) => r matches Ok(v) && views(v@) == ws,
            None => r matches Err(GitError::Parse(m)) && m@ == branch_before_path_text(),
        },
{
    let combined = combined_output(output);
    if !output.status.success() {
        return Err(GitError::Command(combined));
    }
    parse_worktrees(combined.as_str())
}

/// Index of the first worktree whose branch is `branch`, or `ws.len()`.
pub open spec fn branch_index(ws: Seq<WorktreeSpec>, branch: Seq<char>) -> nat
    decreases ws.len(),
{
    if ws.len() == 0 {
        0
    } else if ws[0].branch == Some(branch) {
        0
    } else {
        1 + branch_index(ws.drop_first(), branch)
    }
}

pub proof fn lemma_branch_index(ws: Seq<WorktreeSpec>, branch: Seq<char>, k: int)
    requires
        0 <= k <= ws.len(),
        forall|j: int| 0 <= j < k ==> #[trigger] ws[j].branch != Some(branch),
        k < ws.len() ==> ws[k].branch == Some(branch),
    ensures
        branch_index(ws, branch) == k,
    decreases ws.len(),
{
    if ws.len() > 0 && k > 0 {
        let t = ws.drop_first();
        assert forall|j: int| 0 <= j < k - 1 implies #[trigger] t[j].branch != Some(branch) by {
            assert(t[j] == ws[j + 1]);
        }
        lemma_branch_index(t, branch, k - 1);
    }
}

pub(crate) fn on_branch(w: &Worktree, branch: &str) -> (b: bool)
    ensures
        b == (w@.branch == Some(branch@)),
{
    match &w.branch {
        Some(x) => str_eq(x.as_str(), branch),
        None => false,
    }
}

/// Position of the first worktree in `worktrees` on `branch`.
fn position_of_branch(worktrees: &[Worktree], branch: &str) -> (i: usize)
    ensures
        i == branch_index(views(worktrees@), branch@),
        i <= worktrees@.len(),
{
    let mut i: usize = 0;
    while i < worktrees.len() && !on_branch(&worktrees[i], branch)
        invariant
            i <= worktrees@.len(),
            forall|j: int| 0 <= j < i ==> #[trigger] views(worktrees@)[j].branch != Some(branch@),
        decreases worktrees@.len() - i,
    {
        i = i + 1;
    }
    proof {
        lemma_branch_index(views(worktrees@), branch@, i as int);
    }
    i
}

/// The worktree of `branch` among `worktrees`: the first one checked out on
/// exactly that branch.
pub fn worktree_for_branch(worktrees: &[Worktree], branch: &str) -> (r: Option<Worktree>)
    ensures
        branch_index(views(worktrees@), branch@) < worktrees@.len() ==> (r matches Some(w) && w@
            == views(worktrees@)[branch_index(views(worktrees@), branch@) as int]),
        branch_index(views(worktrees@), branch@) >= worktrees@.len() ==> r is None,
{
    let i = position_of_branch(worktrees, branch);
    if i < worktrees.len() {
        Some(worktrees[i].duplicate())
    } else {
        None
    }
}

/// The worktree of `branch` among `worktrees`, or an error naming the branch
/// and the project searched.
pub fn find_worktree_in(worktrees: Vec<Worktree>, project_path: &str, branch: &str) -> (r: Result<Worktree, GitError>)
    ensures
        branch_index(views(worktrees@), branch@) < worktrees@.len() ==> (r matches Ok(w) && w@
            == views(worktrees@)[branch_index(views(worktrees@), branch@) as int]),
        branch_index(views(worktrees@), branch@) >= worktrees@.len() ==> (r matches Err(
            GitError::MissingWorktree { branch: b, project_path: p },
        ) && b@ == branch@ && p@ == project_path@),
{
    match worktree_for_branch(worktrees.as_slice(), branch) {
        Some(w) => Ok(w),
        None => Err(GitError::MissingWorktree { branch: branch.to_owned(), project_path: project_path.to_owned() }),
    }
}

/// The worktree of `branch` from the output of [`list_worktrees_request`]
/// run in `project_path`.
pub fn find_worktree(output: &CommandOutput, project_path: &str, branch: &str) -> (r: Result<Worktree, GitError>)
    ensures
        !output.status.spec_success() ==> (r matches Err(GitError::Command(m)) && m@ == combined_text(*output)),
        output.status.spec_success() ==> match parsed_worktrees(combined_text(*output)) {
            None => r matches Err(GitError::Parse(m)) && m@ == branch_before_path_text(),
            Some(ws) => if branch_index(ws, branch@) < ws.len() {
                r matches Ok(w) && w@ == ws[branch_index(ws, branch@) as int]
            } else {
                r matches Err(GitError::MissingWorktree { branch: b, project_path: p }) && b@ == branch@ && p@ == project_path@
            },
        },
{
    match parse_worktrees_output(output) {
        Ok(worktrees) => find_worktree_in(worktrees, project_path, branch),
        Err(e) => Err(e),
    }
}

/// The `(branch, path)` pairs of the worktrees that have a branch.
pub open spec fn branch_pairs(ws: Seq<WorktreeSpec>) -> Seq<(Seq<char>, Seq<char>)>
    decreases ws.len(),
{
    if ws.len() == 0 {
        seq![]
    } else {
        let rest = branch_pairs(ws.drop_last());
        match ws.last().branch {
            Some(b) => rest.push((b, ws.last().path)),
            None => rest,
        }
    }
}

/// `(branch, path)` choices for worktrees that have a branch, sorted by
/// branch; worktrees on the same branch keep their order.
pub fn branch_worktree_choices(worktrees: &[Worktree]) -> (r: Vec<(String, String)>)
    ensures
        sorted_by_key::<(String, String)>(views(r@)),
        views(r@).to_multiset() == branch_pairs(views(worktrees@)).to_multiset(),
        views(r@) == crate::sort::sorted_stably::<(String, String)>(branch_pairs(views(worktrees@))),
{
    let mut pairs: Vec<(String, String)> = Vec::new();
    let mut i: usize = 0;
    assert(views(worktrees@).take(0) =~= Seq::<WorktreeSpec>::empty());
    assert(views(pairs@) =~= Seq::<(Seq<char>, Seq<char>)>::empty());
    while i < worktrees.len()
        invariant
            i <= worktrees@.len(),
            views(pairs@) == branch_pairs(views(worktrees@).take(i as int)),
        decreases worktrees@.len() - i,
    {
        proof {
            assert(views(worktrees@).take(i + 1).drop_last() =~= views(worktrees@).take(i as int));
            assert(views(worktrees@).take(i + 1).last() == worktrees@[i as int]@);
        }
        match &worktrees[i].branch {
            Some(b) => {
                let ghost before = pairs@;
                pairs.push((b.clone(), worktrees[i].path.clone()));
                assert(views(pairs@) =~= views(before).push((b@, worktrees@[i as int].path@)));
            },
            None => {},
        }
        i = i + 1;
    }
    assert(views(worktrees@).take(worktrees@.len() as int) =~= views(worktrees@));
    sort_by_key(pairs)
}

/// The managed worktree path of `branch`: `<worktrees_dir>/<project>/<sanitised branch>`.
pub open spec fn managed_path(worktrees_dir: Seq<char>, project_name: Seq<char>, branch: Seq<char>) -> Seq<char> {
    path_join(path_join(worktrees_dir, project_name), sanitize(branch))
}

/// `branch` as a path segment: trimmed, characters other than ASCII letters,
/// digits, `_` and `-` replaced by `_`, runs of `_` collapsed.
pub fn sanitized_branch_segment(input: &str) -> (s: String)
    ensures
        s@ == sanitize(input@),
{
    sanitize_str(input)
}

/// Returns the managed worktree path for `project_name` and `branch`, or an
/// error when the branch sanitises to nothing.
pub fn managed_worktree_path(worktrees_dir: &str, project_name: &str, branch: &str) -> (r: Result<String, GitError>)
    ensures
        sanitize(branch@).len() == 0 ==> (r matches Err(GitError::InvalidManagedWorktreeBranch(b)) && b@ == branch@),
        sanitize(branch@).len() > 0 ==> (r matches Ok(p) && p@ == managed_path(worktrees_dir@, project_name@, branch@)),
{
    let segment = sanitized_branch_segment(branch);
    if segment.as_str().is_empty() {
        return Err(GitError::InvalidManagedWorktreeBranch(branch.to_owned()));
    }
    let project_dir = join(worktrees_dir, project_name);
    Ok(join(project_dir.as_str(), segment.as_str()))
}


/// The canonical form recorded for `p` in `canonical`, a list of
/// `(path, canonical path)` pairs for paths whose canonicalisation succeeded.
pub open spec fn canonical_of(canonical: Seq<(Seq<char>, Seq<char>)>, p: Seq<char>) -> Option<Seq<char>>
    decreases canonical.len(),
{
    if canonical.len() == 0 {
        None
    } else if canonical[0].0 == p {
        Some(canonical[0].1)
    } else {
        canonical_of(canonical.drop_first(), p)
    }
}

/// Two paths name the same place: they are equal, or both have canonical
/// forms and those are equal.
#[verifier::opaque]
pub open spec fn same_place(left: Seq<char>, right: Seq<char>, canonical: Seq<(Seq<char>, Seq<char>)>) -> bool {
    ||| same_components(left, right)
    ||| match (canonical_of(canonical, left), canonical_of(canonical, right)) {
        (Some(a), Some(b)) => same_components(a, b),
        _ => false,
    }
}

fn lookup_canonical<'a>(canonical: &'a [(String, String)], p: &str) -> (r: Option<&'a String>)
    ensures
        match r {
            Some(c) => canonical_of(views(canonical@), p@) == Some(c@),
            None => canonical_of(views(canonical@), p@) is None,
        },
{
    let mut i: usize = 0;
    assert(views(canonical@).skip(0) =~= views(canonical@));
    while i < canonical.len()
        invariant
            i <= canonical@.len(),
            canonical_of(views(canonical@), p@) == canonical_of(views(canonical@).skip(i as int), p@),
        decreases canonical@.len() - i,
    {
        proof {
            assert(views(canonical@).skip(i as int).drop_first() =~= views(canonical@).skip(i + 1));
            assert(views(canonical@).skip(i as int)[0] == canonical@[i as int]@);
        }
        if str_eq(canonical[i].0.as_str(), p) {
            return Some(&canonical[i].1);
        }
        i = i + 1;
    }
    None
}

/// Whether two paths name the same place (see [`same_place`]).
pub fn same_path(left: &str, right: &str, canonical: &[(String, String)]) -> (r: bool)
    ensures
        r == same_place(left@, right@, views(canonical@)),
{
    reveal(same_place);
    if path_eq(left, right) {
        return true;
    }
    match (lookup_canonical(canonical, left), lookup_canonical(canonical, right)) {
        (Some(a), Some(b)) => path_eq(a.as_str(), b.as_str()),
        _ => false,
    }
}

/// Number of worktrees that have a branch.
pub open spec fn branch_count(ws: Seq<WorktreeSpec>) -> nat {
    branch_pairs(ws).len()
}

/// A worktree with a branch that is elsewhere than `project_path`.
pub open spec fn branch_elsewhere(
    w: WorktreeSpec,
    project_path: Seq<char>,
    canonical: Seq<(Seq<char>, Seq<char>)>,
) -> bool {
    w.branch is Some && !same_place(w.path, project_path, canonical)
}

/// Whether some worktree with a branch is elsewhere than `project_path`.
pub open spec fn has_branch_elsewhere(
    ws: Seq<WorktreeSpec>,
    project_path: Seq<char>,
    canonical: Seq<(Seq<char>, Seq<char>)>,
) -> bool {
    exists|i: int| 0 <= i < ws.len() && #[trigger] branch_elsewhere(ws[i], project_path, canonical)
}

proof fn lemma_branch_pairs_step(ws: Seq<WorktreeSpec>, i: int)
    requires
        0 <= i < ws.len(),
    ensures
        branch_pairs(ws.take(i + 1)).len() == branch_pairs(ws.take(i)).len() + if ws[i].branch is Some {
            1nat
        } else {
            0nat
        },
{
    assert(ws.take(i + 1).drop_last() =~= ws.take(i));
}

/// Whether `worktrees` includes a branch worktree beyond `project_path`:
/// more than one worktree has a branch, or one with a branch is elsewhere.
/// `canonical` lists the canonical forms of the paths that have one.
pub fn has_additional_worktrees(project_path: &str, worktrees: &[Worktree], canonical: &[(String, String)]) -> (r: bool)
    ensures
        r == (branch_count(views(worktrees@)) > 1 || has_branch_elsewhere(
            views(worktrees@),
            project_path@,
            views(canonical@),
        )),
{
    let ghost ws = views(worktrees@);
    let mut count: usize = 0;
    let mut elsewhere = false;
    let mut i: usize = 0;
    assert(ws.take(0) =~= Seq::<WorktreeSpec>::empty());
    while i < worktrees.len()
        invariant
            ws == views(worktrees@),
            i <= worktrees@.len(),
            count == branch_pairs(ws.take(i as int)).len(),
            count <= i,
            elsewhere == exists|k: int|
                0 <= k < i && #[trigger] branch_elsewhere(ws[k], project_path@, views(canonical@)),
        decreases worktrees@.len() - i,
    {
        proof {
            lemma_branch_pairs_step(ws, i as int);
        }
        let ghost w = ws[i as int];
        assert(w == worktrees@[i as int]@);
        if worktrees[i].branch.is_some() {
            count = count + 1;
            if !same_path(worktrees[i].path.as_str(), project_path, canonical) {
                elsewhere = true;
            }
        }
        assert(elsewhere == exists|k: int|
            0 <= k < i + 1 && #[trigger] branch_elsewhere(ws[k], project_path@, views(canonical@))) by {
            if branch_elsewhere(w, project_path@, views(canonical@)) {
                assert(branch_elsewhere(ws[i as int], project_path@, views(canonical@)));
            }
        }
        i = i + 1;
    }
    assert(ws.take(worktrees@.len() as int) =~= ws);
    count > 1 || elsewhere
}

/// A worktree on `branch` at `path`.
pub open spec fn registered_one(
    w: WorktreeSpec,
    path: Seq<char>,
    branch: Seq<char>,
    canonical: Seq<(Seq<char>, Seq<char>)>,
) -> bool {
    w.branch == Some(branch) && same_place(w.path, path, canonical)
}

/// Whether some worktree on `branch` is at `path`.
pub open spec fn registered_at(
    ws: Seq<WorktreeSpec>,
    path: Seq<char>,
    branch: Seq<char>,
    canonical: Seq<(Seq<char>, Seq<char>)>,
) -> bool {
    exists|i: int| 0 <= i < ws.len() && #[trigger] registered_one(ws[i], path, branch, canonical)
}

/// Whether some worktree on `branch` is at `path` (see [`registered_at`]).
pub fn registered_worktree(worktrees: &[Worktree], path: &str, branch: &str, canonical: &[(String, String)]) -> (r: bool)
    ensures
        r == registered_at(views(worktrees@), path@, branch@, views(canonical@)),
{
    let mut i: usize = 0;
    while i < worktrees.len()
        invariant
            i <= worktrees@.len(),
            forall|k: int| 0 <= k < i ==> !#[trigger] registered_one(views(worktrees@)[k], path@, branch@, views(canonical@)),
        decreases worktrees@.len() - i,
    {
        let ghost w = views(worktrees@)[i as int];
        assert(w == worktrees@[i as int]@);
        if same_path(worktrees[i].path.as_str(), path, canonical) && on_branch(&worktrees[i], branch) {
            assert(registered_one(views(worktrees@)[i as int], path@, branch@, views(canonical@)));
            return true;
        }
        i = i + 1;
    }
    false
}

/// Returns the managed worktree path of `branch`, rejecting a path that
/// already exists (`path_exists`) without being `branch`'s registered
/// worktree.
pub fn managed_worktree_path_for_branch(
    worktrees_dir: &str,
    project_name: &str,
    branch: &str,
    worktrees: &[Worktree],
    path_exists: bool,
    canonical: &[(String, String)],
) -> (r: Result<String, GitError>)
    ensures
        sanitize(branch@).len() == 0 ==> (r matches Err(GitError::InvalidManagedWorktreeBranch(b)) && b@ == branch@),
        sanitize(branch@).len() > 0 ==> {
            let p = managed_path(worktrees_dir@, project_name@, branch@);
            if path_exists && !registered_at(views(worktrees@), p, branch@, views(canonical@)) {
                r matches Err(GitError::ManagedWorktreePathConflict { path, branch: b }) && path@ == p && b@ == branch@
            } else {
                r matches Ok(q) && q@ == p
            }
        },
{
    let path = managed_worktree_path(worktrees_dir, project_name, branch)?;
    if path_exists {
        let mut registered = false;
        let mut i: usize = 0;
        while i < worktrees.len()
            invariant
                i <= worktrees@.len(),
                registered == exists|k: int|
                    0 <= k < i && #[trigger] registered_one(views(worktrees@)[k], path@, branch@, views(canonical@)),
            decreases worktrees@.len() - i,
        {
            let ghost w = views(worktrees@)[i as int];
            assert(w == worktrees@[i as int]@);
            if same_path(worktrees[i].path.as_str(), path.as_str(), canonical) && on_branch(&worktrees[i], branch) {
                registered = true;
            }
            assert(registered == exists|k: int|
                0 <= k < i + 1 && #[trigger] registered_one(views(worktrees@)[k], path@, branch@, views(canonical@))) by {
                if registered_one(w, path@, branch@, views(canonical@)) {
                    assert(registered_one(views(worktrees@)[i as int], path@, branch@, views(canonical@)));
                }
            }
            i = i + 1;
        }
        if !registered {
            return Err(GitError::ManagedWorktreePathConflict { path, branch: branch.to_owned() });
        }
    }
    Ok(path)
}

} // verus!
