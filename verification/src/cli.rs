//! The decisions of the `piquel` command line: its commands, where the
//! configuration lives, the session picker and its targets, and small rules
//! of the project workflows.
use vstd::prelude::*;


use crate::paths::path_join;
use crate::sort::{sort_by_key, sorted_by_key, views};
use crate::text::{chars_of, concat3, lemma_lex_le_antisym, lemma_lex_le_trans, lex_le, lex_lt, str_eq, str_views, trim, trimmed, CharPat};

verus! {

/// Command-line arguments: an optional configuration path and a command.
#[derive(Debug, Clone, PartialEq, Eq)]
pub struct Cli {
    /// Custom path to the configuration.
    pub config_path: Option<String>,
    /// The command to run.
    pub command: Commands,
}

/// Top-level CLI commands.
#[derive(Debug, Clone, PartialEq, Eq)]
pub enum Commands {
    /// List running tmux sessions.
    List,
    /// Interactively pick a running tmux session or configured project.
    Pick {
        /// Project name to open directly.
        project: Option<String>,
        /// Session template override used only when opening a project.
        session: Option<String>,
    },
    /// Manage configured projects.
    Project {
        /// Project subcommand to run.
        command: ProjectCommands,
    },
    /// Open an arbitrary directory with a session template.
    Session {
        /// Root path for the ad hoc session.
        path: Option<String>,
        /// Session template to use.
        session: Option<String>,
        /// tmux session name override.
        name: Option<String>,
    },
}

/// Project management subcommands.
#[derive(Debug, Clone, PartialEq, Eq)]
pub enum ProjectCommands {
    /// List configured projects.
    List,
    /// Load a configured project.
    Load {
        /// Project name to load.
        project: String,
        /// Session template override.
        session: Option<String>,
        /// Git worktree branch to open.
        worktree: Option<String>,
    },
}

/// Where the configuration is read from: the `--config` path, else the
/// path in `PIQUEL_CONFIG`, else `.config/piquel/config.json` under the home
/// directory; without a home directory there is none.
pub open spec fn config_location(
    flag: Option<Seq<char>>,
    env: Option<Seq<char>>,
    home: Option<Seq<char>>,
) -> Result<Seq<char>, Seq<char>> {
    match flag {
        Some(p) => Ok(p),
        None => match env {
            Some(p) => Ok(p),
            None => match home {
                Some(h) => Ok(path_join(h, ".config/piquel/config.json"@)),
                None => Err("home directory not found"@),
            },
        },
    }
}

/// The configuration path (see [`config_location`]); the error is the
/// message to show.
pub fn config_path(flag: Option<String>, env: Option<String>, home: Option<String>) -> (r: Result<String, String>)
    ensures
        match config_location(crate::git::opt_view(flag), crate::git::opt_view(env), crate::git::opt_view(home)) {
            Ok(p) => r matches Ok(x) && x@ == p,
            Err(m) => r matches Err(x) && x@ == m,
        },
{
    match flag {
        Some(p) => Ok(p),
        None => match env {
            Some(p) => Ok(p),
            None => match home {
                Some(h) => Ok(crate::paths::join(h.as_str(), ".config/piquel/config.json")),
                None => Err("home directory not found".to_owned()),
            },
        },
    }
}

/// `c` is the letter `lower` in either ASCII case (`upper` is its capital).
pub open spec fn either_case(c: char, lower: char, upper: char) -> bool {
    c == lower || c == upper
}

/// The answer, trimmed, is `y` or `yes` in any ASCII case.
pub open spec fn confirms(answer: Seq<char>) -> bool {
    let a = trim(answer);
    ||| a.len() == 1 && either_case(a[0], 'y', 'Y')
    ||| a.len() == 3 && either_case(a[0], 'y', 'Y') && either_case(a[1], 'e', 'E') && either_case(a[2], 's', 'S')
}

/// Whether an answer to the clone prompt agrees (see [`confirms`]).
pub fn confirms_clone(answer: &str) -> (b: bool)
    ensures
        b == confirms(answer@),
{
    let v = chars_of(answer);
    let t = trimmed(v.as_slice(), CharPat::Whitespace);
    if t.len() == 1 {
        t[0] == 'y' || t[0] == 'Y'
    } else if t.len() == 3 {
        (t[0] == 'y' || t[0] == 'Y') && (t[1] == 'e' || t[1] == 'E') && (t[2] == 's' || t[2] == 'S')
    } else {
        false
    }
}

/// The question asked before cloning a missing project.
pub open spec fn clone_question(name: Seq<char>, path: Seq<char>, repository: Seq<char>) -> Seq<char> {
    "Project \""@ + name + "\" path "@ + path + " does not exist. Clone "@ + repository + " there? [y/N] "@
}

/// The question asked before cloning a missing project.
pub fn clone_prompt(name: &str, path: &str, repository: &str) -> (s: String)
    ensures
        s@ == clone_question(name@, path@, repository@),
{
    let a = concat3("Project \"", name, "\" path ");
    let b = concat3(a.as_str(), path, " does not exist. Clone ");
    concat3(b.as_str(), repository, " there? [y/N] ")
}

/// The tmux session name of a project's branch, before sanitising.
pub open spec fn branch_session(project: Seq<char>, branch: Seq<char>) -> Seq<char> {
    project + "--"@ + branch
}

/// The tmux session name of a project's branch, before sanitising.
pub fn branch_session_name(project: &str, branch: &str) -> (s: String)
    ensures
        s@ == branch_session(project@, branch@),
{
    concat3(project, "--", branch)
}

/// What a picker entry opens.
#[derive(Debug, Clone, PartialEq, Eq)]
pub enum PickTarget {
    /// A running tmux session, attached as it is.
    TmuxSession(String),
    /// A configured project, opened with its workflow.
    Project(String),
}

/// What a [`PickTarget`] stands for.
pub enum PickTargetSpec {
    TmuxSession(Seq<char>),
    Project(Seq<char>),
}

impl View for PickTarget {
    type V = PickTargetSpec;

    open spec fn view(&self) -> PickTargetSpec {
        match self {
            PickTarget::TmuxSession(s) => PickTargetSpec::TmuxSession(s@),
            PickTarget::Project(p) => PickTargetSpec::Project(p@),
        }
    }
}

/// The name a target is listed under.
pub open spec fn target_name(t: PickTargetSpec) -> Seq<char> {
    match t {
        PickTargetSpec::TmuxSession(s) => s,
        PickTargetSpec::Project(p) => p,
    }
}

/// The picker's targets by name: every session and project, where a name
/// that is both a running session and a project is the session.
pub open spec fn pick_map(sessions: Seq<Seq<char>>, projects: Seq<Seq<char>>) -> Map<Seq<char>, PickTargetSpec> {
    Map::new(
        |k: Seq<char>| sessions.contains(k) || projects.contains(k),
        |k: Seq<char>|
            if sessions.contains(k) {
                PickTargetSpec::TmuxSession(k)
            } else {
                PickTargetSpec::Project(k)
            },
    )
}

/// The targets of the picker, looked up by name.
pub struct PickTargets {
    entries: Vec<PickTarget>,
    sessions: Ghost<Seq<Seq<char>>>,
    projects: Ghost<Seq<Seq<char>>>,
}

impl View for PickTargets {
    type V = Map<Seq<char>, PickTargetSpec>;

    closed spec fn view(&self) -> Map<Seq<char>, PickTargetSpec> {
        pick_map(self.sessions@, self.projects@)
    }
}

impl PickTargets {
    /// The entries are the sessions, then the projects.
    #[verifier::type_invariant]
    spec fn laid_out(self) -> bool {
        let s = self.sessions@;
        let p = self.projects@;
        &&& self.entries@.len() == s.len() + p.len()
        &&& forall|i: int| 0 <= i < s.len() ==> #[trigger] self.entries@[i]@ == PickTargetSpec::TmuxSession(s[i])
        &&& forall|j: int|
            0 <= j < p.len() ==> #[trigger] self.entries@[s.len() + j]@ == PickTargetSpec::Project(p[j])
    }

    /// The target listed as `name`.
    pub fn get(&self, name: &str) -> (r: Option<&PickTarget>)
        ensures
            self@.contains_key(name@) ==> (r matches Some(t) && t@ == self@[name@]),
            !self@.contains_key(name@) ==> r is None,
    {
        proof {
            use_type_invariant(self);
        }
        let ghost s = self.sessions@;
        let ghost p = self.projects@;
        let mut i: usize = 0;
        while i < self.entries.len()
            invariant
                s == self.sessions@,
                p == self.projects@,
                self.entries@.len() == s.len() + p.len(),
                forall|k: int| 0 <= k < s.len() ==> #[trigger] self.entries@[k]@ == PickTargetSpec::TmuxSession(s[k]),
                forall|k: int|
                    0 <= k < p.len() ==> #[trigger] self.entries@[s.len() + k]@ == PickTargetSpec::Project(p[k]),
                i <= self.entries@.len(),
                forall|k: int| 0 <= k < i ==> target_name(#[trigger] self.entries@[k]@) != name@,
            decreases self.entries@.len() - i,
        {
            let t = &self.entries[i];
            let n = match t {
                PickTarget::TmuxSession(x) => x.as_str(),
                PickTarget::Project(x) => x.as_str(),
            };
            assert(target_name(t@) == n@);
            if str_eq(n, name) {
                proof {
                    if (i as int) < s.len() {
                        assert(self.entries@[i as int]@ == PickTargetSpec::TmuxSession(s[i as int]));
                        assert(s[i as int] == name@);
                    } else {
                        let j = i - s.len();
                        assert(self.entries@[s.len() + j]@ == PickTargetSpec::Project(p[j]));
                        assert(p[j] == name@);
                        assert forall|k: int| 0 <= k < s.len() implies s[k] != name@ by {
                            assert(self.entries@[k]@ == PickTargetSpec::TmuxSession(s[k]));
                        }
                    }
                }
                return Some(t);
            }
            i = i + 1;
        }
        proof {
            assert forall|k: int| 0 <= k < s.len() implies s[k] != name@ by {
                assert(self.entries@[k]@ == PickTargetSpec::TmuxSession(s[k]));
            }
            assert forall|k: int| 0 <= k < p.len() implies p[k] != name@ by {
                assert(self.entries@[s.len() + k]@ == PickTargetSpec::Project(p[k]));
            }
        }
        None
    }
}

impl PickTarget {
    /// A copy of this target.
    pub fn duplicate(&self) -> (t: Self)
        ensures
            t@ == self@,
    {
        match self {
            PickTarget::TmuxSession(s) => PickTarget::TmuxSession(s.clone()),
            PickTarget::Project(p) => PickTarget::Project(p.clone()),
        }
    }
}

/// The message for a picked name that the picker did not offer.
pub open spec fn unknown_item_text(sel: Seq<char>) -> Seq<char> {
    "Selected unknown picker item \""@ + sel + "\""@
}

/// The target of what the user picked: none when nothing was picked, and an
/// error for a name the picker did not offer.
pub fn pick_target(targets: &PickTargets, picked: Option<String>) -> (r: Result<Option<PickTarget>, String>)
    ensures
        match picked {
            None => r matches Ok(None),
            Some(sel) => if targets@.contains_key(sel@) {
                r matches Ok(Some(t)) && t@ == targets@[sel@]
            } else {
                r matches Err(m) && m@ == unknown_item_text(sel@)
            },
        },
{
    match picked {
        None => Ok(None),
        Some(sel) => match targets.get(sel.as_str()) {
            Some(t) => Ok(Some(t.duplicate())),
            None => Err(concat3("Selected unknown picker item \"", sel.as_str(), "\"")),
        },
    }
}

/// Every element of `items` comes strictly before the next in
/// lexicographic order: sorted, without repeats.
pub open spec fn strictly_sorted(items: Seq<Seq<char>>) -> bool {
    forall|i: int, j: int| 0 <= i < j < items.len() ==> lex_lt(items[i], items[j])
}

/// Strictly sorted sequences with the same elements are equal.
pub proof fn lemma_strictly_sorted_unique(a: Seq<Seq<char>>, b: Seq<Seq<char>>)
    requires
        strictly_sorted(a),
        strictly_sorted(b),
        forall|k: Seq<char>| a.contains(k) <==> b.contains(k),
    ensures
        a == b,
    decreases a.len(),
{
    if a.len() == 0 || b.len() == 0 {
        if b.len() > 0 {
            assert(b.contains(b[0]));
        }
        if a.len() > 0 {
            assert(a.contains(a[0]));
        }
        assert(a =~= b);
    } else {
        assert(a.contains(a[0]));
        let j = choose|j: int| 0 <= j < b.len() && b[j] == a[0];
        assert(b.contains(b[0]));
        let i = choose|i: int| 0 <= i < a.len() && a[i] == b[0];
        if j > 0 && i > 0 {
            assert(lex_lt(b[0], b[j]));
            assert(lex_lt(a[0], a[i]));
            lemma_lex_le_antisym(a[0], b[0]);
        }
        assert(a[0] == b[0]);
        let a1 = a.drop_first();
        let b1 = b.drop_first();
        assert forall|x: int, y: int| 0 <= x < y < a1.len() implies lex_lt(a1[x], a1[y]) by {
            assert(a1[x] == a[x + 1] && a1[y] == a[y + 1]);
        }
        assert forall|x: int, y: int| 0 <= x < y < b1.len() implies lex_lt(b1[x], b1[y]) by {
            assert(b1[x] == b[x + 1] && b1[y] == b[y + 1]);
        }
        assert forall|k: Seq<char>| a1.contains(k) <==> b1.contains(k) by {
            if a1.contains(k) {
                let x = choose|x: int| 0 <= x < a1.len() && a1[x] == k;
                assert(a[x + 1] == k);
                assert(lex_lt(a[0], a[x + 1]));
                assert(b.contains(k));
                let y = choose|y: int| 0 <= y < b.len() && b[y] == k;
                assert(y != 0);
                assert(b1[y - 1] == k);
            }
            if b1.contains(k) {
                let x = choose|x: int| 0 <= x < b1.len() && b1[x] == k;
                assert(b[x + 1] == k);
                assert(lex_lt(b[0], b[x + 1]));
                assert(a.contains(k));
                let y = choose|y: int| 0 <= y < a.len() && a[y] == k;
                assert(y != 0);
                assert(a1[y - 1] == k);
            }
        }
        lemma_strictly_sorted_unique(a1, b1);
        assert(a =~= seq![a[0]] + a1);
        assert(b =~= seq![b[0]] + b1);
    }
}

/// The picker's names: every session and project name, sorted, each once
/// (there is exactly one such sequence, see [`lemma_strictly_sorted_unique`]).
pub open spec fn picker_items(sessions: Seq<Seq<char>>, projects: Seq<Seq<char>>) -> Seq<Seq<char>> {
    choose|q: Seq<Seq<char>>|
        strictly_sorted(q) && forall|k: Seq<char>| q.contains(k) <==> (sessions.contains(k) || projects.contains(k))
}

fn dedup_sorted(r: Vec<String>) -> (items: Vec<String>)
    requires
        sorted_by_key::<String>(views(r@)),
    ensures
        strictly_sorted(str_views(items@)),
        forall|k: Seq<char>| str_views(items@).contains(k) <==> views(r@).contains(k),
{
    let ghost rv = views(r@);
    let mut items: Vec<String> = Vec::new();
    let mut i: usize = 0;
    while i < r.len()
        invariant
            rv == views(r@),
            sorted_by_key::<String>(rv),
            i <= r@.len(),
            strictly_sorted(str_views(items@)),
            forall|k: Seq<char>| str_views(items@).contains(k) <==> rv.take(i as int).contains(k),
            i > 0 ==> items@.len() > 0 && str_views(items@).last() == rv[i - 1],
            i == 0 ==> items@.len() == 0,
        decreases r@.len() - i,
    {
        let ghost before = str_views(items@);
        let x = &r[i];
        assert(rv[i as int] == x@);
        let fresh = if items.len() == 0 {
            true
        } else {
            !str_eq(items[items.len() - 1].as_str(), x.as_str())
        };
        if fresh {
            items.push(x.clone());
            proof {
                let now = str_views(items@);
                assert(now =~= before.push(x@));
                assert forall|a: int, b: int| 0 <= a < b < now.len() implies lex_lt(now[a], now[b]) by {
                    if b == now.len() - 1 && a < b {
                        let last = before.last();
                        assert(last == rv[i - 1]);
                        assert(lex_le(
                            <String as crate::sort::SortKey>::key_of(rv[i - 1]),
                            <String as crate::sort::SortKey>::key_of(rv[i as int]),
                        ));
                        if a < before.len() - 1 {
                            assert(lex_lt(before[a], last));
                            lemma_lex_le_trans(before[a], last, x@);
                            if before[a] == x@ {
                                lemma_lex_le_antisym(last, x@);
                            }
                        }
                    } else {
                        assert(now[a] == before[a] && now[b] == before[b]);
                    }
                }
            }
        } else {
            assert(before.last() == x@);
        }
        proof {
            let now = str_views(items@);
            let t0 = rv.take(i as int);
            let t1 = rv.take(i + 1);
            assert(t1 =~= t0.push(x@));
            assert(fresh ==> now =~= before.push(x@));
            assert(!fresh ==> now == before);
            assert forall|k: Seq<char>| now.contains(k) <==> t1.contains(k) by {
                if t1.contains(k) {
                    let j = choose|j: int| #![trigger t1[j]] 0 <= j < t1.len() && t1[j] == k;
                    if j < i {
                        assert(t0[j] == k);
                        assert(t0.contains(k));
                        assert(before.contains(k));
                        let m = choose|m: int| #![trigger before[m]] 0 <= m < before.len() && before[m] == k;
                        assert(now[m] == k);
                    } else {
                        assert(now[now.len() - 1] == x@);
                    }
                }
                if now.contains(k) {
                    let j = choose|j: int| #![trigger now[j]] 0 <= j < now.len() && now[j] == k;
                    if fresh && j == now.len() - 1 {
                        assert(t1[i as int] == k);
                    } else {
                        assert(before[j] == k);
                        assert(before.contains(k));
                        assert(t0.contains(k));
                        let m = choose|m: int| #![trigger t0[m]] 0 <= m < t0.len() && t0[m] == k;
                        assert(t1[m] == k);
                    }
                }
            }
        }
        i = i + 1;
    }
    assert(rv.take(r@.len() as int) =~= rv);
    items
}

/// Builds the picker: the names to show, sorted and without repeats, and the
/// target of each name. Running sessions win over projects of the same name.
pub fn build_pick_targets(tmux_sessions: Vec<String>, project_names: Vec<String>) -> (r: (Vec<String>, PickTargets))
    ensures
        strictly_sorted(str_views(r.0@)),
        forall|k: Seq<char>|
            str_views(r.0@).contains(k) <==> (str_views(tmux_sessions@).contains(k) || str_views(
                project_names@,
            ).contains(k)),
        r.1@ == pick_map(str_views(tmux_sessions@), str_views(project_names@)),
        str_views(r.0@) == picker_items(str_views(tmux_sessions@), str_views(project_names@)),
{
    broadcast use vstd::seq_lib::group_to_multiset_ensures;

    let ghost s = str_views(tmux_sessions@);
    let ghost p = str_views(project_names@);
    let mut all: Vec<String> = Vec::new();
    let mut entries: Vec<PickTarget> = Vec::new();
    let mut i: usize = 0;
    while i < tmux_sessions.len()
        invariant
            s == str_views(tmux_sessions@),
            i <= tmux_sessions@.len(),
            views(all@) == s.take(i as int),
            entries@.len() == i,
            forall|k: int| 0 <= k < i ==> #[trigger] entries@[k]@ == PickTargetSpec::TmuxSession(s[k]),
        decreases tmux_sessions@.len() - i,
    {
        let ghost before = all@;
        all.push(tmux_sessions[i].clone());
        entries.push(PickTarget::TmuxSession(tmux_sessions[i].clone()));
        assert(views(all@) =~= views(before).push(s[i as int]));
        assert(s.take(i + 1) =~= s.take(i as int).push(s[i as int]));
        i = i + 1;
    }
    assert(s.take(s.len() as int) =~= s);
    let mut j: usize = 0;
    while j < project_names.len()
        invariant
            s == str_views(tmux_sessions@),
            p == str_views(project_names@),
            j <= project_names@.len(),
            views(all@) == s + p.take(j as int),
            entries@.len() == s.len() + j,
            forall|k: int| 0 <= k < s.len() ==> #[trigger] entries@[k]@ == PickTargetSpec::TmuxSession(s[k]),
            forall|k: int| 0 <= k < j ==> #[trigger] entries@[s.len() + k]@ == PickTargetSpec::Project(p[k]),
        decreases project_names@.len() - j,
    {
        let ghost before = all@;
        let ghost before_e = entries@;
        all.push(project_names[j].clone());
        entries.push(PickTarget::Project(project_names[j].clone()));
        assert(views(all@) =~= views(before).push(p[j as int]));
        assert(p.take(j + 1) =~= p.take(j as int).push(p[j as int]));
        assert(forall|k: int| 0 <= k < s.len() ==> #[trigger] entries@[k] == before_e[k]);
        assert(forall|k: int| 0 <= k < j ==> #[trigger] entries@[s.len() + k] == before_e[s.len() + k]);
        j = j + 1;
    }
    assert(p.take(p.len() as int) =~= p);
    let ghost everything = views(all@);
    let sorted = sort_by_key(all);
    let items = dedup_sorted(sorted);
    proof {
        assert forall|k: Seq<char>| views(sorted@).contains(k) <==> everything.contains(k) by {
            vstd::seq_lib::to_multiset_contains(views(sorted@), k);
            vstd::seq_lib::to_multiset_contains(everything, k);
        }
        assert forall|k: Seq<char>| everything.contains(k) <==> (s.contains(k) || p.contains(k)) by {
            if everything.contains(k) {
                let m = choose|m: int| #![trigger everything[m]] 0 <= m < everything.len() && everything[m] == k;
                if m >= s.len() {
                    assert(p[m - s.len()] == k);
                }
            }
            if s.contains(k) {
                let m = choose|m: int| #![trigger s[m]] 0 <= m < s.len() && s[m] == k;
                assert(everything[m] == k);
            }
            if p.contains(k) {
                let m = choose|m: int| #![trigger p[m]] 0 <= m < p.len() && p[m] == k;
                assert(everything[s.len() + m] == k);
            }
        }
    }
    proof {
        let q = str_views(items@);
        assert(strictly_sorted(q) && forall|k: Seq<char>| q.contains(k) <==> (s.contains(k) || p.contains(k)));
        let c = picker_items(s, p);
        lemma_strictly_sorted_unique(q, c);
    }
    let targets = PickTargets { entries, sessions: Ghost(s), projects: Ghost(p) };
    (items, targets)
}

/// Law: in the picker, a name that is both a running session and a
/// project is the session; a project name that no session has is the
/// project.
pub proof fn law_sessions_win_name_collisions(sessions: Seq<Seq<char>>, projects: Seq<Seq<char>>, k: Seq<char>)
    ensures
        sessions.contains(k) ==> pick_map(sessions, projects).contains_key(k) && pick_map(sessions, projects)[k]
            == PickTargetSpec::TmuxSession(k),
        !sessions.contains(k) && projects.contains(k) ==> pick_map(sessions, projects).contains_key(k) && pick_map(
            sessions,
            projects,
        )[k] == PickTargetSpec::Project(k),
        !sessions.contains(k) && !projects.contains(k) ==> !pick_map(sessions, projects).contains_key(k),
{
}

/// The running sessions, sorted, each once: what `piquel list` prints, read
/// from the output of `tmux list-sessions`.
pub fn sorted_session_names(output: &crate::backend::CommandOutput) -> (r: Result<Vec<String>, crate::tmux::TmuxError>)
    ensures
        match crate::tmux::sessions_in(output.status.spec_success(), crate::backend::combined_text(*output)) {
            Err(m) => r matches Err(crate::tmux::TmuxError::Command(x)) && x@ == m,
            Ok(names) => r matches Ok(v) && str_views(v@) == picker_items(names, seq![]),
        },
{
    let names = match crate::tmux::parse_list_sessions_output(output) {
        Ok(n) => n,
        Err(e) => {
            return Err(e);
        },
    };
    let none: Vec<String> = Vec::new();
    assert(str_views(none@) =~= Seq::<Seq<char>>::empty());
    let (items, _targets) = build_pick_targets(names, none);
    Ok(items)
}

/// The names of the configured projects, sorted: what `piquel project list`
/// prints.
pub fn list_projects(config: &crate::Config) -> (r: Vec<String>)
    ensures
        str_views(r@) == crate::sort::sorted_of(crate::valid_names(config@.projects)),
{
    let names = config.project_names();
    let sorted = sort_by_key(names);
    proof {
        crate::sort::lemma_sorted_strings(views(sorted@));
        let c = crate::sort::sorted_of(crate::valid_names(config@.projects));
        crate::sort::lemma_sorted_of_exists(crate::valid_names(config@.projects));
        assert(views(sorted@) == str_views(sorted@));
        crate::sort::lemma_sorted_unique(c, views(sorted@));
    }
    sorted
}

} // verus!
