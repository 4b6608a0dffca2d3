//! Project and session workspaces for tmux: the configuration model and its
//! validation, git worktree discovery, tmux session planning, and the
//! decisions of the `piquel` command-line tool.
//!
//! The library describes every command it needs as a request and decides
//! from the results handed back to it; running processes and touching the
//! filesystem is left to the caller.

/// Commands to run and their captured results.
pub mod backend;
/// The command line's decisions.
pub mod cli;
/// Configuration errors.
pub mod config;
/// The fzf picker.
pub mod fzf;
/// Git worktree discovery helpers.
pub mod git;
/// Opening a tmux session from a template.
pub mod opener;
/// Unix paths held as text.
pub mod paths;
/// Sorting by a textual key.
pub mod sort;
/// Character-level text operations.
pub mod text;
/// Integration helpers for invoking tmux.
pub mod tmux;
/// The command line's workflows, one need at a time.
pub mod workflow;

use vstd::prelude::*;

use crate::backend::BackendError;
use crate::config::{reports, ConfigError};
use crate::git::opt_view;
use crate::paths::{expand_home, expanded_home, join, path_join, tilde_rest};
use crate::text::{chars_of, concat3, copy_opt, copy_strings, decimal, decimal_string, has_char, str_eq, str_views, trim, trim_str};

verus! {

/// What a [`WindowConfig`] stands for.
pub struct WindowSpec {
    pub name: Option<Seq<char>>,
    pub commands: Seq<Seq<char>>,
}

/// What a [`SessionConfig`] stands for.
pub struct SessionSpec {
    pub windows: Seq<WindowSpec>,
}

/// What a [`ProjectSessionConfig`] stands for.
pub enum ProjectSessionSpec {
    Template(Seq<char>),
    Inline(SessionSpec),
}

/// What a [`ProjectConfig`] stands for.
pub struct ProjectSpec {
    pub repository: Seq<char>,
    pub name: Option<Seq<char>>,
    pub path: Option<Seq<char>>,
    pub default_session: Option<ProjectSessionSpec>,
}

/// What a [`Config`] stands for.
pub struct ConfigSpec {
    pub projects_dir: Seq<char>,
    pub worktrees_dir: Seq<char>,
    pub default_session: Seq<char>,
    pub sessions: Map<Seq<char>, SessionSpec>,
    pub projects: Seq<ProjectSpec>,
}

/// What a [`ResolvedProject`] stands for.
pub struct ResolvedSpec {
    pub repository: Seq<char>,
    pub name: Seq<char>,
    pub path: Seq<char>,
    pub default_session: ProjectSessionSpec,
}

/// Commands to send to a tmux window after creating it.
#[derive(Debug, PartialEq, Eq)]
pub struct WindowConfig {
    /// Window name, if any.
    pub name: Option<String>,
    /// Commands sent to the window, each followed by `Enter`.
    pub commands: Vec<String>,
}

impl View for WindowConfig {
    type V = WindowSpec;

    open spec fn view(&self) -> WindowSpec {
        WindowSpec { name: opt_view(self.name), commands: str_views(self.commands@) }
    }
}

/// Configuration for a tmux session template.
#[derive(Debug, PartialEq, Eq)]
pub struct SessionConfig {
    /// The windows to create, in order.
    pub windows: Vec<WindowConfig>,
}

/// The views of a list of windows.
pub open spec fn window_views(ws: Seq<WindowConfig>) -> Seq<WindowSpec> {
    ws.map_values(|w: WindowConfig| w@)
}

impl View for SessionConfig {
    type V = SessionSpec;

    open spec fn view(&self) -> SessionSpec {
        SessionSpec { windows: window_views(self.windows@) }
    }
}

/// A project's default session, either by template name or inline template.
#[derive(Debug, PartialEq, Eq)]
pub enum ProjectSessionConfig {
    /// Name of a global session template.
    Template(String),
    /// Inline session template defined on the project.
    Inline(SessionConfig),
}

impl View for ProjectSessionConfig {
    type V = ProjectSessionSpec;

    open spec fn view(&self) -> ProjectSessionSpec {
        match self {
            ProjectSessionConfig::Template(t) => ProjectSessionSpec::Template(t@),
            ProjectSessionConfig::Inline(s) => ProjectSessionSpec::Inline(s@),
        }
    }
}

/// The view of an optional project session.
pub open spec fn opt_session_view(s: Option<ProjectSessionConfig>) -> Option<ProjectSessionSpec> {
    match s {
        Some(x) => Some(x@),
        None => None,
    }
}

/// Configuration for a repository-backed project.
#[derive(Debug)]
pub struct ProjectConfig {
    /// Repository URL.
    pub repository: String,
    /// Explicit project name.
    pub name: Option<String>,
    /// Explicit project path.
    pub path: Option<String>,
    /// The project's own default session.
    pub default_session: Option<ProjectSessionConfig>,
}

impl View for ProjectConfig {
    type V = ProjectSpec;

    open spec fn view(&self) -> ProjectSpec {
        ProjectSpec {
            repository: self.repository@,
            name: opt_view(self.name),
            path: opt_view(self.path),
            default_session: opt_session_view(self.default_session),
        }
    }
}

/// The views of a list of projects.
pub open spec fn project_views(ps: Seq<ProjectConfig>) -> Seq<ProjectSpec> {
    ps.map_values(|p: ProjectConfig| p@)
}

/// Named session templates; each name occurs once.
#[derive(Debug)]
pub struct SessionTemplates {
    entries: Vec<(String, SessionConfig)>,
}

/// The templates of `e` by name.
pub open spec fn entries_map(e: Seq<(String, SessionConfig)>) -> Map<Seq<char>, SessionSpec>
    decreases e.len(),
{
    if e.len() == 0 {
        Map::empty()
    } else {
        entries_map(e.drop_last()).insert(e.last().0@, e.last().1@)
    }
}

/// Names of `e` are pairwise distinct.
pub open spec fn distinct_names(e: Seq<(String, SessionConfig)>) -> bool {
    forall|i: int, j: int| 0 <= i < j < e.len() ==> e[i].0@ != e[j].0@
}

proof fn lemma_entries_map(e: Seq<(String, SessionConfig)>)
    requires
        distinct_names(e),
    ensures
        forall|i: int| #![trigger e[i]] 0 <= i < e.len() ==> entries_map(e).contains_key(e[i].0@)
            && entries_map(e)[e[i].0@] == e[i].1@,
        forall|k: Seq<char>|
            #[trigger] entries_map(e).contains_key(k) ==> exists|i: int| #![trigger e[i]] 0 <= i < e.len() && e[i].0@ == k,
    decreases e.len(),
{
    if e.len() > 0 {
        let d = e.drop_last();
        assert forall|i: int, j: int| 0 <= i < j < d.len() implies d[i].0@ != d[j].0@ by {
            assert(d[i] == e[i] && d[j] == e[j]);
        }
        lemma_entries_map(d);
        assert forall|i: int| #![trigger e[i]] 0 <= i < e.len() implies entries_map(e).contains_key(e[i].0@)
            && entries_map(e)[e[i].0@] == e[i].1@ by {
            if i < e.len() - 1 {
                assert(d[i] == e[i]);
                assert(e[i].0@ != e.last().0@);
            }
        }
        assert forall|k: Seq<char>| #[trigger] entries_map(e).contains_key(k) implies exists|i: int|
            #![trigger e[i]] 0 <= i < e.len() && e[i].0@ == k by {
            if k != e.last().0@ {
                assert(entries_map(d).contains_key(k));
                let i = choose|i: int| #![trigger d[i]] 0 <= i < d.len() && d[i].0@ == k;
                assert(e[i] == d[i]);
            } else {
                assert(e[e.len() - 1].0@ == k);
            }
        }
    }
}

impl View for SessionTemplates {
    type V = Map<Seq<char>, SessionSpec>;

    closed spec fn view(&self) -> Map<Seq<char>, SessionSpec> {
        entries_map(self.entries@)
    }
}

impl SessionTemplates {
    #[verifier::type_invariant]
    spec fn names_distinct(self) -> bool {
        distinct_names(self.entries@)
    }

    /// No templates.
    pub fn new() -> (t: Self)
        ensures
            t@ == Map::<Seq<char>, SessionSpec>::empty(),
    {
        SessionTemplates { entries: Vec::new() }
    }

    fn position(&self, name: &str) -> (i: usize)
        ensures
            i <= self.entries@.len(),
            forall|k: int| 0 <= k < i ==> #[trigger] self.entries@[k].0@ != name@,
            i < self.entries@.len() ==> self.entries@[i as int].0@ == name@,
    {
        let mut i: usize = 0;
        while i < self.entries.len() && !str_eq(self.entries[i].0.as_str(), name)
            invariant
                i <= self.entries@.len(),
                forall|k: int| 0 <= k < i ==> #[trigger] self.entries@[k].0@ != name@,
            decreases self.entries@.len() - i,
        {
            i = i + 1;
        }
        i
    }

    /// Adds or replaces the template called `name`.
    pub fn insert(&mut self, name: String, session: SessionConfig)
        ensures
            final(self)@ == old(self)@.insert(name@, session@),
    {
        proof {
            use_type_invariant(&*self);
            lemma_entries_map(self.entries@);
        }
        let i = self.position(name.as_str());
        let mut entries = Vec::new();
        std::mem::swap(&mut entries, &mut self.entries);
        let ghost old_e = entries@;
        let ghost key = name@;
        let ghost val = session@;
        if i < entries.len() {
            entries.set(i, (name, session));
        } else {
            entries.push((name, session));
        }
        proof {
            let e = entries@;
            assert(distinct_names(e)) by {
                assert forall|a: int, b: int| 0 <= a < b < e.len() implies e[a].0@ != e[b].0@ by {
                    if a != i && b != i {
                        assert(e[a] == old_e[a] && e[b] == old_e[b]);
                    } else if a == i {
                        assert(e[b] == old_e[b]);
                    } else {
                        assert(e[a] == old_e[a]);
                    }
                }
            }
            lemma_entries_map(e);
            assert(entries_map(e) =~= entries_map(old_e).insert(key, val)) by {
                assert forall|k: Seq<char>| #![trigger entries_map(e).contains_key(k)]
                    entries_map(e).contains_key(k) == entries_map(old_e).insert(key, val).contains_key(k) by {
                    if entries_map(e).contains_key(k) {
                        let j = choose|j: int| #![trigger e[j]] 0 <= j < e.len() && e[j].0@ == k;
                        if j != i {
                            assert(e[j] == old_e[j]);
                        }
                    }
                    if entries_map(old_e).contains_key(k) && k != key {
                        let j = choose|j: int| #![trigger old_e[j]] 0 <= j < old_e.len() && old_e[j].0@ == k;
                        assert(e[j] == old_e[j]);
                    }
                    if k == key {
                        assert(e[i as int].0@ == key);
                    }
                }
                assert forall|k: Seq<char>| #[trigger] entries_map(e).contains_key(k) implies entries_map(e)[k]
                    == entries_map(old_e).insert(key, val)[k] by {
                    let j = choose|j: int| #![trigger e[j]] 0 <= j < e.len() && e[j].0@ == k;
                    if j != i {
                        assert(e[j] == old_e[j]);
                    }
                }
            }
        }
        self.entries = entries;
    }

    /// The template called `name`.
    pub fn get(&self, name: &str) -> (r: Option<&SessionConfig>)
        ensures
            self@.contains_key(name@) ==> (r matches Some(s) && s@ == self@[name@]),
            !self@.contains_key(name@) ==> r is None,
    {
        proof {
            use_type_invariant(self);
            lemma_entries_map(self.entries@);
        }
        let i = self.position(name);
        if i < self.entries.len() {
            Some(&self.entries[i].1)
        } else {
            None
        }
    }

    /// Whether a template called `name` exists.
    pub fn contains(&self, name: &str) -> (b: bool)
        ensures
            b == self@.contains_key(name@),
    {
        self.get(name).is_some()
    }

    /// Number of templates.
    pub fn len(&self) -> (n: usize)
        ensures
            n == self@.dom().len(),
    {
        proof {
            use_type_invariant(self);
            lemma_entries_map_len(self.entries@);
        }
        self.entries.len()
    }
}

proof fn lemma_entries_map_len(e: Seq<(String, SessionConfig)>)
    requires
        distinct_names(e),
    ensures
        entries_map(e).dom().finite(),
        entries_map(e).dom().len() == e.len(),
    decreases e.len(),
{
    if e.len() > 0 {
        let d = e.drop_last();
        assert forall|i: int, j: int| 0 <= i < j < d.len() implies d[i].0@ != d[j].0@ by {
            assert(d[i] == e[i] && d[j] == e[j]);
        }
        lemma_entries_map_len(d);
        lemma_entries_map(d);
        if entries_map(d).contains_key(e.last().0@) {
            let i = choose|i: int| #![trigger d[i]] 0 <= i < d.len() && d[i].0@ == e.last().0@;
            assert(d[i] == e[i]);
        }
    }
}



/// Complete configuration for the CLI.
#[derive(Debug)]
pub struct Config {
    /// Base directory for projects without an explicit path.
    pub projects_dir: String,
    /// Base directory for managed branch worktrees.
    pub worktrees_dir: String,
    /// The session template used when a project does not specify one.
    pub default_session: String,
    /// Named session templates.
    pub sessions: SessionTemplates,
    /// Configured repositories.
    pub projects: Vec<ProjectConfig>,
}

impl View for Config {
    type V = ConfigSpec;

    open spec fn view(&self) -> ConfigSpec {
        ConfigSpec {
            projects_dir: self.projects_dir@,
            worktrees_dir: self.worktrees_dir@,
            default_session: self.default_session@,
            sessions: self.sessions@,
            projects: project_views(self.projects@),
        }
    }
}

/// Project configuration after name, path, and default session resolution.
#[derive(Debug)]
pub struct ResolvedProject {
    /// Repository URL.
    pub repository: String,
    /// Project name.
    pub name: String,
    /// Project path.
    pub path: String,
    /// Default session of the project.
    pub default_session: ProjectSessionConfig,
}

impl View for ResolvedProject {
    type V = ResolvedSpec;

    open spec fn view(&self) -> ResolvedSpec {
        ResolvedSpec {
            repository: self.repository@,
            name: self.name@,
            path: self.path@,
            default_session: self.default_session@,
        }
    }
}

/// The default `projects_dir`.
pub open spec fn default_projects_dir_text() -> Seq<char> {
    "~/Projects"@
}

/// The default `worktrees_dir`.
pub open spec fn default_worktrees_dir_text() -> Seq<char> {
    "~/.piquel/worktrees"@
}

/// The default `default_session`.
pub open spec fn default_default_session_text() -> Seq<char> {
    "default"@
}

/// The default `projects_dir`: `~/Projects`.
pub fn default_projects_dir() -> (s: String)
    ensures
        s@ == default_projects_dir_text(),
{
    "~/Projects".to_owned()
}

/// The default `worktrees_dir`: `~/.piquel/worktrees`.
pub fn default_worktrees_dir() -> (s: String)
    ensures
        s@ == default_worktrees_dir_text(),
{
    "~/.piquel/worktrees".to_owned()
}

/// The default `default_session`: `default`.
pub fn default_default_session() -> (s: String)
    ensures
        s@ == default_default_session_text(),
{
    "default".to_owned()
}

impl WindowConfig {
    /// A copy of this window.
    pub fn duplicate(&self) -> (w: Self)
        ensures
            w@ == self@,
    {
        WindowConfig { name: copy_opt(&self.name), commands: copy_strings(&self.commands) }
    }

    fn validate(&self, session_name: &str, index: usize) -> (r: Result<(), ConfigError>)
        requires
            index < usize::MAX,
        ensures
            reports(r, window_problem(self@, session_name@, index as nat)),
    {
        match &self.name {
            Some(name) => {
                let t = trim_str(name.as_str());
                if t.as_str().is_empty() {
                    let n = decimal_string(index + 1);
                    let a = concat3("Window ", n.as_str(), " in session template \"");
                    let msg = concat3(
                        a.as_str(),
                        session_name,
                        "\" has an empty name. If you don't want to specify a name, remove the field.",
                    );
                    return Err(ConfigError::Validation(msg));
                }
                Ok(())
            },
            None => Ok(()),
        }
    }
}

/// The problem of window number `index` (from zero) of a template: a name
/// that is blank.
pub open spec fn window_problem(w: WindowSpec, session_name: Seq<char>, index: nat) -> Option<Seq<char>> {
    match w.name {
        Some(n) => if trim(n).len() == 0 {
            Some(
                "Window "@ + decimal(index + 1) + " in session template \""@ + session_name
                    + "\" has an empty name. If you don't want to specify a name, remove the field."@,
            )
        } else {
            None
        },
        None => None,
    }
}

/// The first problem among windows `ws`, the first of which has number `from`.
pub open spec fn windows_problem(ws: Seq<WindowSpec>, session_name: Seq<char>, from: nat) -> Option<Seq<char>>
    decreases ws.len(),
{
    if ws.len() == 0 {
        None
    } else {
        match window_problem(ws[0], session_name, from) {
            Some(m) => Some(m),
            None => windows_problem(ws.drop_first(), session_name, from + 1),
        }
    }
}

/// Whether `name` can name a session template: not blank, without `:`.
pub open spec fn template_name_ok(name: Seq<char>) -> bool {
    trim(name).len() > 0 && !has_char(name, ':')
}

/// The problem of a session template called `name`, if it has one: an
/// invalid name, no windows, or a window with a blank name.
pub open spec fn session_problem(name: Seq<char>, s: SessionSpec) -> Option<Seq<char>> {
    if !template_name_ok(name) {
        Some("\""@ + name + "\" is not a valid session template name"@)
    } else if s.windows.len() == 0 {
        Some("Session template \""@ + name + "\" must have at least one window"@)
    } else {
        windows_problem(s.windows, name, 0)
    }
}

impl SessionConfig {
    /// A copy of this template.
    pub fn duplicate(&self) -> (s: Self)
        ensures
            s@ == self@,
    {
        let mut windows: Vec<WindowConfig> = Vec::new();
        let mut i: usize = 0;
        while i < self.windows.len()
            invariant
                i <= self.windows@.len(),
                window_views(windows@) == window_views(self.windows@.take(i as int)),
            decreases self.windows@.len() - i,
        {
            let ghost before = windows@;
            windows.push(self.windows[i].duplicate());
            assert(window_views(windows@) =~= window_views(before).push(self.windows@[i as int]@));
            assert(window_views(self.windows@.take(i + 1)) =~= window_views(self.windows@.take(i as int)).push(
                self.windows@[i as int]@,
            ));
            i = i + 1;
        }
        assert(self.windows@.take(self.windows@.len() as int) =~= self.windows@);
        SessionConfig { windows }
    }

    /// Checks that the template called `name` is valid.
    pub fn validate(&self, name: &str) -> (r: Result<(), ConfigError>)
        ensures
            reports(r, session_problem(name@, self@)),
    {
        let t = trim_str(name);
        let nv = chars_of(name);
        if t.as_str().is_empty() || crate::text::contains_char(nv.as_slice(), ':') {
            return Err(ConfigError::Validation(concat3("\"", name, "\" is not a valid session template name")));
        }
        if self.windows.len() == 0 {
            return Err(
                ConfigError::Validation(concat3("Session template \"", name, "\" must have at least one window")),
            );
        }
        let ghost ws = window_views(self.windows@);
        let mut i: usize = 0;
        assert(ws.skip(0) =~= ws);
        assert(session_problem(name@, self@) == windows_problem(ws, name@, 0));
        while i < self.windows.len()
            invariant
                session_problem(name@, self@) == windows_problem(ws, name@, 0),
                ws == window_views(self.windows@),
                i <= self.windows@.len(),
                windows_problem(ws, name@, 0) == windows_problem(ws.skip(i as int), name@, i as nat),
            decreases self.windows@.len() - i,
        {
            proof {
                assert(ws.skip(i as int).drop_first() =~= ws.skip(i + 1));
                assert(ws.skip(i as int)[0] == self.windows@[i as int]@);
            }
            match self.windows[i].validate(name, i) {
                Ok(()) => {},
                Err(e) => {
                    assert(window_problem(ws[i as int], name@, i as nat) is Some);
                    assert(windows_problem(ws.skip(i as int), name@, i as nat) == window_problem(
                        ws[i as int],
                        name@,
                        i as nat,
                    ));
                    return Err(e);
                },
            }
            i = i + 1;
        }
        Ok(())
    }
}

impl ProjectSessionConfig {
    /// A copy of this session choice.
    pub fn duplicate(&self) -> (s: Self)
        ensures
            s@ == self@,
    {
        match self {
            ProjectSessionConfig::Template(t) => ProjectSessionConfig::Template(t.clone()),
            ProjectSessionConfig::Inline(s) => ProjectSessionConfig::Inline(s.duplicate()),
        }
    }
}

fn copy_opt_session(s: &Option<ProjectSessionConfig>) -> (r: Option<ProjectSessionConfig>)
    ensures
        opt_session_view(r) == opt_session_view(*s),
{
    match s {
        Some(x) => Some(x.duplicate()),
        None => None,
    }
}

/// Whether `name` is a safe project name: not blank, not `.` or `..`, and
/// free of `:`, `/` and `\`.
pub open spec fn project_name_ok(name: Seq<char>) -> bool {
    let t = trim(name);
    !(t.len() == 0 || t == seq!['.'] || t == seq!['.', '.'] || has_char(name, ':') || has_char(name, '/')
        || has_char(name, '\\'))
}

/// The message for an unsafe project name.
pub open spec fn invalid_project_name_text(name: Seq<char>) -> Seq<char> {
    "\""@ + name + "\" is not a valid project name"@
}

/// The part of `s` after its last `/` or `:`.
pub open spec fn after_last_sep(s: Seq<char>) -> Seq<char>
    decreases s.len(),
{
    if s.len() == 0 {
        s
    } else if s.last() == '/' || s.last() == ':' {
        seq![]
    } else {
        after_last_sep(s.drop_last()).push(s.last())
    }
}

/// `s` without a trailing `.git`.
pub open spec fn strip_git(s: Seq<char>) -> Seq<char> {
    if s.len() >= 4 && s.skip(s.len() - 4) == ".git"@ {
        s.take(s.len() - 4)
    } else {
        s
    }
}

/// The project name a repository URL gives: its last path segment after
/// trimming whitespace and trailing `/`, without `.git`.
pub open spec fn repository_name(repository: Seq<char>) -> Seq<char> {
    strip_git(after_last_sep(crate::text::trim_end_pat(trim(repository), crate::text::CharPat::Exactly('/'))))
}

/// The configured name of a project, or the one its repository gives.
pub open spec fn resolved_name_of(p: ProjectSpec) -> Seq<char> {
    match p.name {
        Some(n) => n,
        None => repository_name(p.repository),
    }
}

proof fn lemma_after_last_sep_tail(x: Seq<char>, y: Seq<char>)
    requires
        x.len() > 0,
        x.last() == '/' || x.last() == ':',
        !has_char(y, '/'),
        !has_char(y, ':'),
    ensures
        after_last_sep(x + y) == y,
    decreases y.len(),
{
    if y.len() == 0 {
        assert(x + y =~= x);
    } else {
        assert((x + y).drop_last() =~= x + y.drop_last());
        assert((x + y).last() == y.last());
        assert(!(y.last() == '/' || y.last() == ':')) by {
            assert(y[y.len() - 1] == y.last());
        }
        assert forall|k: int| 0 <= k < y.drop_last().len() implies y.drop_last()[k] != '/' && y.drop_last()[k] != ':' by {
            assert(y.drop_last()[k] == y[k]);
        }
        lemma_after_last_sep_tail(x, y.drop_last());
        assert(y.drop_last().push(y.last()) =~= y);
    }
}

/// Law: the name a repository URL gives is its last path segment with a
/// trailing `.git` removed, and nothing else: for a URL made of any prefix
/// ending in `/` or `:` and a segment `b` free of `/` and `:`, the name of
/// `<prefix><b>.git` is `b` and, when `b` itself ends in neither `.git`,
/// whitespace nor `/`, the name of `<prefix><b>` is `b` too
/// (`.../socket.io.git` and `.../socket.io` both give `socket.io`).
pub proof fn law_repository_name_is_last_segment(prefix: Seq<char>, b: Seq<char>)
    requires
        prefix.len() > 0,
        prefix.last() == '/' || prefix.last() == ':',
        !has_char(b, '/'),
        !has_char(b, ':'),
    ensures
        repository_name(prefix + b + ".git"@) == b,
        (b.len() > 0 && !crate::text::is_ws(b.last()) && !(b.len() >= 4 && b.skip(b.len() - 4) == ".git"@))
            ==> repository_name(prefix + b) == b,
{
    reveal_strlit(".git");
    let g = ".git"@;
    assert(g =~= seq!['.', 'g', 'i', 't']);
    let bg = b + g;
    assert(!has_char(bg, '/') && !has_char(bg, ':')) by {
        assert forall|k: int| 0 <= k < bg.len() implies bg[k] != '/' && bg[k] != ':' by {
            if k < b.len() {
                assert(bg[k] == b[k]);
            }
        }
    }
    lemma_name_of_segment(prefix, bg);
    assert(prefix + b + g =~= prefix + bg);
    assert(bg.skip(bg.len() - 4) =~= g);
    assert(bg.take(bg.len() - 4) =~= b);
    if b.len() > 0 && !crate::text::is_ws(b.last()) && !(b.len() >= 4 && b.skip(b.len() - 4) == g) {
        lemma_name_of_segment(prefix, b);
    }
}

/// The segment after a separator, when it ends in neither whitespace nor
/// `/`, is what the trimming steps of [`repository_name`] leave after the
/// last separator.
proof fn lemma_name_of_segment(prefix: Seq<char>, b: Seq<char>)
    requires
        prefix.len() > 0,
        prefix.last() == '/' || prefix.last() == ':',
        !has_char(b, '/'),
        !has_char(b, ':'),
        b.len() > 0,
        !crate::text::is_ws(b.last()),
    ensures
        repository_name(prefix + b) == strip_git(b),
{
    let s = prefix + b;
    let ws = crate::text::CharPat::Whitespace;
    crate::text::lemma_lead_count_meaning(s, ws);
    let k = crate::text::lead_count(s, ws) as int;
    assert(s[prefix.len() - 1] == prefix.last());
    assert(k < prefix.len()) by {
        if k >= prefix.len() {
            assert(crate::text::pat_matches(ws, s[prefix.len() - 1]));
        }
    }
    let x = prefix.skip(k);
    let t1 = crate::text::trim_start_pat(s, ws);
    assert(t1 =~= x + b);
    assert(t1.last() == b.last());
    assert(crate::text::trail_count(t1, ws) == 0);
    assert(trim(s) =~= t1);
    let slash = crate::text::CharPat::Exactly('/');
    assert(b.last() != '/') by {
        assert(b[b.len() - 1] == b.last());
    }
    assert(crate::text::trail_count(t1, slash) == 0);
    assert(crate::text::trim_end_pat(trim(s), slash) =~= t1);
    assert(x.len() > 0 && x.last() == prefix.last());
    lemma_after_last_sep_tail(x, b);
}

fn validate_project_name(name: &str) -> (r: Result<(), ConfigError>)
    ensures
        reports(r, if project_name_ok(name@) { None } else { Some(invalid_project_name_text(name@)) }),
{
    let v = chars_of(name);
    let t = crate::text::trimmed(v.as_slice(), crate::text::CharPat::Whitespace);
    proof {
        if t@.len() == 1 {
            assert((t@[0] == '.') == (t@ =~= seq!['.']));
        } else {
            assert(t@ != seq!['.']);
        }
        if t@.len() == 2 {
            assert((t@[0] == '.' && t@[1] == '.') == (t@ =~= seq!['.', '.']));
        } else {
            assert(t@ != seq!['.', '.']);
        }
    }
    let bad = t.len() == 0 || (t.len() == 1 && t[0] == '.') || (t.len() == 2 && t[0] == '.' && t[1] == '.')
        || crate::text::contains_char(v.as_slice(), ':') || crate::text::contains_char(v.as_slice(), '/')
        || crate::text::contains_char(v.as_slice(), '\\');
    if bad {
        return Err(ConfigError::Validation(concat3("\"", name, "\" is not a valid project name")));
    }
    Ok(())
}

fn after_last_sep_start(v: &[char]) -> (k: usize)
    ensures
        k <= v@.len(),
        v@.skip(k as int) == after_last_sep(v@),
{
    let mut k = v.len();
    assert(v@.take(k as int) =~= v@);
    assert(v@.skip(k as int) =~= Seq::<char>::empty());
    while k > 0 && v[k - 1] != '/' && v[k - 1] != ':'
        invariant
            k <= v@.len(),
            after_last_sep(v@) == after_last_sep(v@.take(k as int)) + v@.skip(k as int),
        decreases k,
    {
        proof {
            let t = v@.take(k as int);
            assert(t.drop_last() =~= v@.take(k - 1));
            assert(after_last_sep(t) == after_last_sep(v@.take(k - 1)).push(v@[k - 1]));
            assert(v@.skip(k - 1) =~= seq![v@[k - 1]] + v@.skip(k as int));
            assert(after_last_sep(v@.take(k - 1)).push(v@[k - 1]) + v@.skip(k as int) =~= after_last_sep(
                v@.take(k - 1),
            ) + v@.skip(k - 1));
        }
        k = k - 1;
    }
    proof {
        if k == 0 {
            assert(v@.take(0) =~= Seq::<char>::empty());
        }
        assert(after_last_sep(v@.take(k as int)) =~= Seq::<char>::empty());
        assert(v@.skip(k as int) =~= Seq::<char>::empty() + v@.skip(k as int));
    }
    k
}

fn repository_basename(repository: &str) -> (r: Result<String, ConfigError>)
    ensures
        project_name_ok(repository_name(repository@)) ==> (r matches Ok(n) && n@ == repository_name(repository@)),
        !project_name_ok(repository_name(repository@)) ==> (r matches Err(ConfigError::Validation(m)) && m@
            == invalid_project_name_text(repository_name(repository@))),
{
    let v = chars_of(repository);
    let t = crate::text::trimmed(v.as_slice(), crate::text::CharPat::Whitespace);
    let u = crate::text::trimmed_end(t.as_slice(), crate::text::CharPat::Exactly('/'));
    let k = after_last_sep_start(u.as_slice());
    let b = crate::text::slice_range(u.as_slice(), k, u.len());
    assert(u@.subrange(k as int, u@.len() as int) =~= u@.skip(k as int));
    let name = if crate::text::ends_with(b.as_slice(), ".git") {
        proof {
            reveal_strlit(".git");
        }
        crate::text::string_of_range(b.as_slice(), 0, b.len() - 4)
    } else {
        proof {
            reveal_strlit(".git");
        }
        crate::text::string_of(b.as_slice())
    };
    proof {
        assert(b@.subrange(0, b@.len() - 4) =~= b@.take(b@.len() - 4));
    }
    validate_project_name(name.as_str())?;
    Ok(name)
}

/// `path` with a leading `~` expanded, or the error of the home lookup.
pub open spec fn expand_spec(path: Seq<char>, home: Result<String, BackendError>) -> Result<Seq<char>, BackendError> {
    match tilde_rest(path) {
        None => Ok(path),
        Some(_) => match home {
            Ok(h) => Ok(expanded_home(path, h@)),
            Err(e) => Err(e),
        },
    }
}

/// Why configuration normalisation failed.
pub enum Failure {
    /// A validation error with this message.
    Validation(Seq<char>),
    /// A backend error.
    Backend(BackendError),
    /// Some session template is invalid.
    SomeSession,
}

/// Whether `r` reports `f`.
pub open spec fn fails_with<T>(r: Result<T, ConfigError>, f: Failure) -> bool {
    match f {
        Failure::Validation(m) => r matches Err(ConfigError::Validation(x)) && x@ == m,
        Failure::Backend(e) => r matches Err(ConfigError::Backend(x)) && x == e,
        Failure::SomeSession => false,
    }
}

/// The path of a project: its own path with `~` expanded, or its name
/// under `projects_dir`.
pub open spec fn project_path_of(p: ProjectSpec, projects_dir: Seq<char>, home: Result<String, BackendError>) -> Result<Seq<char>, BackendError> {
    match p.path {
        Some(q) => expand_spec(q, home),
        None => Ok(path_join(projects_dir, resolved_name_of(p))),
    }
}

impl ProjectConfig {
    /// A copy of this project.
    pub fn duplicate(&self) -> (p: Self)
        ensures
            p@ == self@,
    {
        ProjectConfig {
            repository: self.repository.clone(),
            name: copy_opt(&self.name),
            path: copy_opt(&self.path),
            default_session: copy_opt_session(&self.default_session),
        }
    }

    /// Returns the configured project name, or derives one from the repository URL.
    pub fn resolved_name(&self) -> (r: Result<String, ConfigError>)
        ensures
            project_name_ok(resolved_name_of(self@)) ==> (r matches Ok(n) && n@ == resolved_name_of(self@)),
            !project_name_ok(resolved_name_of(self@)) ==> fails_with(
                r,
                Failure::Validation(invalid_project_name_text(resolved_name_of(self@))),
            ),
    {
        let name = match &self.name {
            Some(name) => name.clone(),
            None => repository_basename(self.repository.as_str())?,
        };
        validate_project_name(name.as_str())?;
        Ok(name)
    }

    /// Returns the configured project path with `~` expanded using `home`,
    /// or derives one under `projects_dir`.
    pub fn resolved_path(&self, home: &Result<String, BackendError>, projects_dir: &str) -> (r: Result<String, ConfigError>)
        ensures
            self@.path is Some ==> match project_path_of(self@, projects_dir@, *home) {
                Ok(q) => r matches Ok(x) && x@ == q,
                Err(e) => fails_with(r, Failure::Backend(e)),
            },
            self@.path is None ==> if project_name_ok(resolved_name_of(self@)) {
                r matches Ok(x) && x@ == path_join(projects_dir@, resolved_name_of(self@))
            } else {
                fails_with(r, Failure::Validation(invalid_project_name_text(resolved_name_of(self@))))
            },
    {
        match &self.path {
            Some(path) => match expand_home(path.as_str(), home) {
                Ok(p) => Ok(p),
                Err(e) => Err(ConfigError::Backend(e)),
            },
            None => {
                let name = self.resolved_name()?;
                Ok(join(projects_dir, name.as_str()))
            },
        }
    }

    /// Returns the project default session config, falling back to the global default.
    pub fn resolved_default_session(&self, config: &Config) -> (s: ProjectSessionConfig)
        ensures
            s@ == default_session_of(self@, config@.default_session),
    {
        match &self.default_session {
            Some(s) => s.duplicate(),
            None => ProjectSessionConfig::Template(config.default_session.clone()),
        }
    }
}

/// A project's own default session, or the global default template.
pub open spec fn default_session_of(p: ProjectSpec, global_default: Seq<char>) -> ProjectSessionSpec {
    match p.default_session {
        Some(s) => s,
        None => ProjectSessionSpec::Template(global_default),
    }
}


/// Index of the first project whose valid resolved name is `name`, or the
/// number of projects.
pub open spec fn named_index(ps: Seq<ProjectSpec>, name: Seq<char>) -> nat
    decreases ps.len(),
{
    if ps.len() == 0 {
        0
    } else if project_name_ok(resolved_name_of(ps[0])) && resolved_name_of(ps[0]) == name {
        0
    } else {
        1 + named_index(ps.drop_first(), name)
    }
}

/// The resolved form of project `p` of config `c`.
pub open spec fn resolved_of(c: ConfigSpec, p: ProjectSpec) -> ResolvedSpec {
    let n = resolved_name_of(p);
    ResolvedSpec {
        repository: p.repository,
        name: n,
        path: match p.path {
            Some(q) => q,
            None => path_join(c.projects_dir, n),
        },
        default_session: default_session_of(p, c.default_session),
    }
}

/// The project called `name`, resolved.
pub open spec fn project_lookup(c: ConfigSpec, name: Seq<char>) -> Option<ResolvedSpec> {
    let i = named_index(c.projects, name);
    if i < c.projects.len() {
        Some(resolved_of(c, c.projects[i as int]))
    } else {
        None
    }
}

/// The template a project opens with: the override, else its default.
pub open spec fn template_for(c: ConfigSpec, project: ResolvedSpec, session_override: Option<Seq<char>>) -> Option<SessionSpec> {
    match session_override {
        Some(t) => if c.sessions.contains_key(t) {
            Some(c.sessions[t])
        } else {
            None
        },
        None => match project.default_session {
            ProjectSessionSpec::Template(t) => if c.sessions.contains_key(t) {
                Some(c.sessions[t])
            } else {
                None
            },
            ProjectSessionSpec::Inline(s) => Some(s),
        },
    }
}

/// The view of an optional string slice.
pub open spec fn opt_str_view(s: Option<&str>) -> Option<Seq<char>> {
    match s {
        Some(x) => Some(x@),
        None => None,
    }
}

/// Names of the projects whose resolved name is valid, in order.
pub open spec fn valid_names(ps: Seq<ProjectSpec>) -> Seq<Seq<char>>
    decreases ps.len(),
{
    if ps.len() == 0 {
        seq![]
    } else {
        let rest = valid_names(ps.drop_last());
        let n = resolved_name_of(ps.last());
        if project_name_ok(n) {
            rest.push(n)
        } else {
            rest
        }
    }
}

/// Every session template is valid.
pub open spec fn sessions_valid(sessions: Map<Seq<char>, SessionSpec>) -> bool {
    forall|k: Seq<char>| #[trigger] sessions.contains_key(k) ==> session_problem(k, sessions[k]) is None
}

/// The name of a project's inline template, used in its messages.
pub open spec fn inline_template_name(project: Seq<char>) -> Seq<char> {
    "Project \""@ + project + "\" inline default_session"@
}

/// The check of one project, given the names of earlier ones: a safe,
/// unseen name, a path, and a default session that exists or is valid.
/// Yields the project with its name and path filled in.
pub open spec fn project_check(
    p: ProjectSpec,
    c: ConfigSpec,
    home: Result<String, BackendError>,
    seen: Set<Seq<char>>,
) -> Result<ProjectSpec, Failure> {
    let n = resolved_name_of(p);
    if !project_name_ok(n) {
        Err(Failure::Validation(invalid_project_name_text(n)))
    } else if seen.contains(n) {
        Err(Failure::Validation("Duplicate project name \""@ + n + "\""@))
    } else {
        match project_path_of(p, c.projects_dir, home) {
            Err(e) => Err(Failure::Backend(e)),
            Ok(path) => {
                let q = ProjectSpec { name: Some(n), path: Some(path), ..p };
                match default_session_of(p, c.default_session) {
                    ProjectSessionSpec::Template(t) => if c.sessions.contains_key(t) {
                        Ok(q)
                    } else {
                        Err(
                            Failure::Validation(
                                "Project \""@ + n + "\" references unknown session template \""@ + t + "\""@,
                            ),
                        )
                    },
                    ProjectSessionSpec::Inline(s) => match session_problem(inline_template_name(n), s) {
                        Some(m) => Err(Failure::Validation(m)),
                        None => Ok(q),
                    },
                }
            },
        }
    }
}

/// The checks of projects `ps` in order.
pub open spec fn projects_check(
    ps: Seq<ProjectSpec>,
    c: ConfigSpec,
    home: Result<String, BackendError>,
    seen: Set<Seq<char>>,
) -> Result<Seq<ProjectSpec>, Failure>
    decreases ps.len(),
{
    if ps.len() == 0 {
        Ok(seq![])
    } else {
        match project_check(ps[0], c, home, seen) {
            Err(f) => Err(f),
            Ok(q) => match projects_check(ps.drop_first(), c, home, seen.insert(resolved_name_of(ps[0]))) {
                Err(f) => Err(f),
                Ok(rest) => Ok(seq![q] + rest),
            },
        }
    }
}

/// What validating and normalising `c` gives: directories with `~`
/// expanded, valid templates, an existing default template, and projects
/// with names and paths resolved — or the first failure.
pub open spec fn normalized(c: ConfigSpec, home: Result<String, BackendError>) -> Result<ConfigSpec, Failure> {
    match expand_spec(c.projects_dir, home) {
        Err(e) => Err(Failure::Backend(e)),
        Ok(pd) => match expand_spec(c.worktrees_dir, home) {
            Err(e) => Err(Failure::Backend(e)),
            Ok(wd) => if !sessions_valid(c.sessions) {
                Err(Failure::SomeSession)
            } else if !c.sessions.contains_key(c.default_session) {
                Err(
                    Failure::Validation(
                        "Default session template \""@ + c.default_session + "\" does not exist"@,
                    ),
                )
            } else {
                let c2 = ConfigSpec { projects_dir: pd, worktrees_dir: wd, ..c };
                match projects_check(c.projects, c2, home, Set::empty()) {
                    Err(f) => Err(f),
                    Ok(ps) => Ok(ConfigSpec { projects: ps, ..c2 }),
                }
            },
        },
    }
}

/// The default session can be opened with the templates `sessions`.
pub open spec fn default_opens(sessions: Map<Seq<char>, SessionSpec>, d: ProjectSessionSpec) -> bool {
    match d {
        ProjectSessionSpec::Template(t) => sessions.contains_key(t),
        ProjectSessionSpec::Inline(_) => true,
    }
}

proof fn lemma_projects_checked(
    ps: Seq<ProjectSpec>,
    c: ConfigSpec,
    home: Result<String, BackendError>,
    seen: Set<Seq<char>>,
)
    requires
        projects_check(ps, c, home, seen) is Ok,
    ensures
        ({
            let qs = projects_check(ps, c, home, seen)->Ok_0;
            &&& qs.len() == ps.len()
            &&& forall|i: int|
                0 <= i < qs.len() ==> {
                    &&& project_name_ok(resolved_name_of(#[trigger] qs[i]))
                    &&& !seen.contains(resolved_name_of(qs[i]))
                    &&& default_opens(c.sessions, default_session_of(qs[i], c.default_session))
                }
            &&& forall|i: int, j: int|
                0 <= i < j < qs.len() ==> resolved_name_of(#[trigger] qs[i]) != resolved_name_of(#[trigger] qs[j])
        }),
    decreases ps.len(),
{
    if ps.len() > 0 {
        let n = resolved_name_of(ps[0]);
        let seen2 = seen.insert(n);
        lemma_projects_checked(ps.drop_first(), c, home, seen2);
        let q = project_check(ps[0], c, home, seen)->Ok_0;
        let rest = projects_check(ps.drop_first(), c, home, seen2)->Ok_0;
        let qs = projects_check(ps, c, home, seen)->Ok_0;
        assert(qs == seq![q] + rest);
        assert(resolved_name_of(q) == n);
        assert(default_session_of(q, c.default_session) == default_session_of(ps[0], c.default_session));
        assert forall|i: int| 0 <= i < qs.len() implies {
            &&& project_name_ok(resolved_name_of(#[trigger] qs[i]))
            &&& !seen.contains(resolved_name_of(qs[i]))
            &&& default_opens(c.sessions, default_session_of(qs[i], c.default_session))
        } by {
            if i > 0 {
                assert(qs[i] == rest[i - 1]);
            }
        }
        assert forall|i: int, j: int| 0 <= i < j < qs.len() implies resolved_name_of(#[trigger] qs[i])
            != resolved_name_of(#[trigger] qs[j]) by {
            assert(qs[j] == rest[j - 1]);
            if i > 0 {
                assert(qs[i] == rest[i - 1]);
            } else {
                assert(!seen2.contains(resolved_name_of(rest[j - 1])));
            }
        }
    }
}

proof fn lemma_named_index_unique(ps: Seq<ProjectSpec>, i: int)
    requires
        0 <= i < ps.len(),
        forall|k: int| 0 <= k < ps.len() ==> project_name_ok(resolved_name_of(#[trigger] ps[k])),
        forall|a: int, b: int|
            0 <= a < b < ps.len() ==> resolved_name_of(#[trigger] ps[a]) != resolved_name_of(#[trigger] ps[b]),
    ensures
        named_index(ps, resolved_name_of(ps[i])) == i,
    decreases i,
{
    if i > 0 {
        let t = ps.drop_first();
        assert(resolved_name_of(ps[0]) != resolved_name_of(ps[i]));
        assert forall|k: int| 0 <= k < t.len() implies project_name_ok(resolved_name_of(#[trigger] t[k])) by {
            assert(t[k] == ps[k + 1]);
        }
        assert forall|a: int, b: int| 0 <= a < b < t.len() implies resolved_name_of(#[trigger] t[a])
            != resolved_name_of(#[trigger] t[b]) by {
            assert(t[a] == ps[a + 1] && t[b] == ps[b + 1]);
        }
        assert(t[i - 1] == ps[i]);
        lemma_named_index_unique(t, i - 1);
    }
}

/// Law: a configuration that validates can be used. Every template is
/// valid and the default template exists; every project has a safe name
/// that no other project has, looking it up by that name finds it, and its
/// default session can be opened.
pub proof fn law_validated_config_is_usable(c: ConfigSpec, home: Result<String, BackendError>)
    requires
        normalized(c, home) is Ok,
    ensures
        ({
            let n = normalized(c, home)->Ok_0;
            &&& sessions_valid(n.sessions)
            &&& n.sessions.contains_key(n.default_session)
            &&& forall|i: int| 0 <= i < n.projects.len() ==> project_name_ok(resolved_name_of(#[trigger] n.projects[i]))
            &&& forall|i: int, j: int|
                0 <= i < j < n.projects.len() ==> resolved_name_of(#[trigger] n.projects[i]) != resolved_name_of(
                    #[trigger] n.projects[j],
                )
            &&& forall|i: int|
                0 <= i < n.projects.len() ==> project_lookup(n, resolved_name_of(#[trigger] n.projects[i])) == Some(
                    resolved_of(n, n.projects[i]),
                ) && template_for(n, resolved_of(n, n.projects[i]), None) is Some
        }),
{
    let pd = expand_spec(c.projects_dir, home)->Ok_0;
    let wd = expand_spec(c.worktrees_dir, home)->Ok_0;
    let c2 = ConfigSpec { projects_dir: pd, worktrees_dir: wd, ..c };
    lemma_projects_checked(c.projects, c2, home, Set::empty());
    let n = normalized(c, home)->Ok_0;
    let qs = n.projects;
    assert forall|i: int| 0 <= i < qs.len() implies project_lookup(n, resolved_name_of(#[trigger] qs[i])) == Some(
        resolved_of(n, qs[i]),
    ) && template_for(n, resolved_of(n, qs[i]), None) is Some by {
        lemma_named_index_unique(qs, i);
        assert(default_opens(c2.sessions, default_session_of(qs[i], c2.default_session)));
    }
}

/// `p` is left as it is by `~` expansion with `home`.
pub open spec fn expansion_settled(p: Seq<char>, home: Result<String, BackendError>) -> bool {
    expand_spec(p, home) == Ok::<Seq<char>, BackendError>(p)
}

/// Every path of the normalised configuration `n` is left as it is by a
/// second `~` expansion with `home`.
pub open spec fn paths_settled(n: ConfigSpec, home: Result<String, BackendError>) -> bool {
    &&& expansion_settled(n.projects_dir, home)
    &&& expansion_settled(n.worktrees_dir, home)
    &&& forall|i: int|
        0 <= i < n.projects.len() ==> ((#[trigger] n.projects[i]).path matches Some(q) && expansion_settled(q, home))
}

proof fn lemma_projects_settled(
    ps: Seq<ProjectSpec>,
    c: ConfigSpec,
    c3: ConfigSpec,
    home: Result<String, BackendError>,
    seen: Set<Seq<char>>,
)
    requires
        projects_check(ps, c, home, seen) is Ok,
        forall|i: int|
            0 <= i < projects_check(ps, c, home, seen)->Ok_0.len() ==> ((#[trigger] projects_check(
                ps,
                c,
                home,
                seen,
            )->Ok_0[i]).path matches Some(q) && expansion_settled(q, home)),
        c3.projects_dir == c.projects_dir,
        c3.sessions == c.sessions,
        c3.default_session == c.default_session,
    ensures
        projects_check(projects_check(ps, c, home, seen)->Ok_0, c3, home, seen) == projects_check(ps, c, home, seen),
    decreases ps.len(),
{
    if ps.len() > 0 {
        let p = ps[0];
        let n = resolved_name_of(p);
        let q = project_check(p, c, home, seen)->Ok_0;
        let rest = projects_check(ps.drop_first(), c, home, seen.insert(n))->Ok_0;
        let qs = projects_check(ps, c, home, seen)->Ok_0;
        assert(qs == seq![q] + rest);
        assert(qs[0] == q);
        assert(resolved_name_of(q) == n);
        let path = project_path_of(p, c.projects_dir, home)->Ok_0;
        assert(q.path == Some(path));
        assert(project_path_of(q, c3.projects_dir, home) == Ok::<Seq<char>, BackendError>(path));
        assert(project_check(q, c3, home, seen) == Ok::<ProjectSpec, Failure>(q));
        let t = ps.drop_first();
        assert forall|i: int| 0 <= i < rest.len() implies ((#[trigger] rest[i]).path matches Some(x)
            && expansion_settled(x, home)) by {
            assert(rest[i] == qs[i + 1]);
        }
        lemma_projects_settled(t, c, c3, home, seen.insert(n));
        assert(qs.drop_first() =~= rest);
    }
}

/// Law: normalising a configuration that normalisation produced changes
/// nothing, as long as each of its paths is left as it is by a second `~`
/// expansion.  That fails only where an expansion leaves a leading `~`
/// component that expands further (an empty home with `~/~/x`), or where
/// `projects_dir` is empty and a project without a path is called `~` (its
/// derived path `~` is expanded the second time); it holds, for instance,
/// with an empty home and `~/a`.
pub proof fn law_normalizing_twice_changes_nothing(c: ConfigSpec, home: Result<String, BackendError>)
    requires
        normalized(c, home) is Ok,
        paths_settled(normalized(c, home)->Ok_0, home),
    ensures
        normalized(normalized(c, home)->Ok_0, home) == normalized(c, home),
{
    let pd = expand_spec(c.projects_dir, home)->Ok_0;
    let wd = expand_spec(c.worktrees_dir, home)->Ok_0;
    let c2 = ConfigSpec { projects_dir: pd, worktrees_dir: wd, ..c };
    let n = normalized(c, home)->Ok_0;
    lemma_projects_settled(c.projects, c2, n, home, Set::empty());
    let c4 = ConfigSpec { projects_dir: pd, worktrees_dir: wd, ..n };
    assert(c4 == n);
}

/// Whether project `p` has its own path starting with `~`.
pub open spec fn path_needs_home(p: ProjectSpec) -> bool {
    p.path matches Some(q) && tilde_rest(q) is Some
}

/// Whether some path of `c` starts with `~`.
pub open spec fn config_needs_home(c: ConfigSpec) -> bool {
    ||| tilde_rest(c.projects_dir) is Some
    ||| tilde_rest(c.worktrees_dir) is Some
    ||| exists|i: int| 0 <= i < c.projects.len() && path_needs_home(#[trigger] c.projects[i])
}

proof fn lemma_projects_ignore_home(
    ps: Seq<ProjectSpec>,
    c: ConfigSpec,
    h1: Result<String, BackendError>,
    h2: Result<String, BackendError>,
    seen: Set<Seq<char>>,
)
    requires
        forall|i: int| 0 <= i < ps.len() ==> !path_needs_home(#[trigger] ps[i]),
    ensures
        projects_check(ps, c, h1, seen) == projects_check(ps, c, h2, seen),
    decreases ps.len(),
{
    if ps.len() > 0 {
        assert(!path_needs_home(ps[0]));
        let t = ps.drop_first();
        assert forall|i: int| 0 <= i < t.len() implies !path_needs_home(#[trigger] t[i]) by {
            assert(t[i] == ps[i + 1]);
        }
        lemma_projects_ignore_home(t, c, h1, h2, seen.insert(resolved_name_of(ps[0])));
    }
}

/// Law: the home directory matters to validation only when some configured
/// path starts with `~`; otherwise any answer to the home lookup, failed or
/// not, gives the same result.
pub proof fn law_home_read_only_for_tilde(c: ConfigSpec, h1: Result<String, BackendError>, h2: Result<String, BackendError>)
    requires
        !config_needs_home(c),
    ensures
        normalized(c, h1) == normalized(c, h2),
{
    let c2 = ConfigSpec { projects_dir: c.projects_dir, worktrees_dir: c.worktrees_dir, ..c };
    assert(c2 == c);
    lemma_projects_ignore_home(c.projects, c, h1, h2, Set::empty());
}

fn contains_name(names: &Vec<String>, name: &str) -> (b: bool)
    ensures
        b == str_views(names@).contains(name@),
{
    let mut i: usize = 0;
    while i < names.len()
        invariant
            i <= names@.len(),
            forall|k: int| 0 <= k < i ==> names@[k]@ != name@,
        decreases names@.len() - i,
    {
        if str_eq(names[i].as_str(), name) {
            assert(str_views(names@)[i as int] == name@);
            return true;
        }
        i = i + 1;
    }
    assert forall|k: int| 0 <= k < str_views(names@).len() implies str_views(names@)[k] != name@ by {
        assert(str_views(names@)[k] == names@[k]@);
    }
    false
}

impl Config {
    /// Returns the named global session template.
    pub fn session_template(&self, name: &str) -> (r: Option<&SessionConfig>)
        ensures
            self@.sessions.contains_key(name@) ==> (r matches Some(s) && s@ == self@.sessions[name@]),
            !self@.sessions.contains_key(name@) ==> r is None,
    {
        self.sessions.get(name)
    }

    /// Returns a normalized project by name: the first project whose
    /// resolved name is valid and equal to `name`.
    pub fn project(&self, name: &str) -> (r: Option<ResolvedProject>)
        ensures
            match project_lookup(self@, name@) {
                Some(rp) => r matches Some(x) && x@ == rp,
                None => r is None,
            },
    {
        let ghost ps = self@.projects;
        let mut i: usize = 0;
        assert(ps.skip(0) =~= ps);
        while i < self.projects.len()
            invariant
                ps == self@.projects,
                i <= self.projects@.len(),
                named_index(ps, name@) == i + named_index(ps.skip(i as int), name@),
            decreases self.projects@.len() - i,
        {
            let project = &self.projects[i];
            proof {
                assert(ps.skip(i as int)[0] == project@);
                assert(ps.skip(i as int).drop_first() =~= ps.skip(i + 1));
            }
            match project.resolved_name() {
                Ok(resolved) => {
                    if str_eq(resolved.as_str(), name) {
                        let path = match &project.path {
                            Some(p) => p.clone(),
                            None => join(self.projects_dir.as_str(), resolved.as_str()),
                        };
                        return Some(
                            ResolvedProject {
                                repository: project.repository.clone(),
                                name: resolved,
                                path,
                                default_session: project.resolved_default_session(self),
                            },
                        );
                    }
                },
                Err(_) => {},
            }
            i = i + 1;
        }
        proof {
            assert(ps.skip(i as int).len() == 0);
        }
        None
    }

    /// Returns the session template that should be used for `project`: the
    /// override when given, else the project's default.
    pub fn project_session_template<'a>(
        &'a self,
        project: &'a ResolvedProject,
        session_override: Option<&str>,
    ) -> (r: Option<&'a SessionConfig>)
        ensures
            match template_for(self@, project@, opt_str_view(session_override)) {
                Some(t) => r matches Some(x) && x@ == t,
                None => r is None,
            },
    {
        if let Some(template_name) = session_override {
            return self.session_template(template_name);
        }
        match &project.default_session {
            ProjectSessionConfig::Template(template_name) => self.session_template(template_name.as_str()),
            ProjectSessionConfig::Inline(session) => Some(session),
        }
    }

    /// Names of the projects whose resolved name is valid, in order.
    pub fn project_names(&self) -> (r: Vec<String>)
        ensures
            str_views(r@) == valid_names(self@.projects),
    {
        let ghost ps = self@.projects;
        let mut names: Vec<String> = Vec::new();
        let mut i: usize = 0;
        assert(ps.take(0) =~= Seq::<ProjectSpec>::empty());
        assert(str_views(names@) =~= Seq::<Seq<char>>::empty());
        while i < self.projects.len()
            invariant
                ps == self@.projects,
                i <= self.projects@.len(),
                str_views(names@) == valid_names(ps.take(i as int)),
            decreases self.projects@.len() - i,
        {
            proof {
                assert(ps.take(i + 1).drop_last() =~= ps.take(i as int));
                assert(ps.take(i + 1).last() == self.projects@[i as int]@);
            }
            match self.projects[i].resolved_name() {
                Ok(n) => {
                    let ghost before = names@;
                    names.push(n);
                    assert(str_views(names@) =~= str_views(before).push(resolved_name_of(ps[i as int])));
                },
                Err(_) => {},
            }
            i = i + 1;
        }
        assert(ps.take(ps.len() as int) =~= ps);
        names
    }

    /// Whether validating this configuration reads the home directory: some
    /// configured path starts with `~`.
    pub fn needs_home(&self) -> (b: bool)
        ensures
            b == config_needs_home(self@),
    {
        if crate::paths::needs_home(self.projects_dir.as_str()) || crate::paths::needs_home(self.worktrees_dir.as_str()) {
            return true;
        }
        let ghost ps = self@.projects;
        let mut i: usize = 0;
        while i < self.projects.len()
            invariant
                ps == self@.projects,
                i <= ps.len(),
                forall|k: int| 0 <= k < i ==> !path_needs_home(#[trigger] ps[k]),
            decreases ps.len() - i,
        {
            let found = match &self.projects[i].path {
                Some(p) => crate::paths::needs_home(p.as_str()),
                None => false,
            };
            if found {
                assert(path_needs_home(ps[i as int]));
                return true;
            }
            i = i + 1;
        }
        false
    }

    /// Validates config semantics and expands paths in place, using `home`,
    /// the home directory as the backend reported it.
    pub fn validate_and_normalize(&mut self, home: &Result<String, BackendError>) -> (r: Result<(), ConfigError>)
        ensures
            match normalized(old(self)@, *home) {
                Ok(c) => r is Ok && final(self)@ == c,
                Err(Failure::SomeSession) => r matches Err(ConfigError::Validation(m)) && exists|k: Seq<char>|
                    #[trigger] old(self)@.sessions.contains_key(k) && session_problem(k, old(self)@.sessions[k])
                        == Some(m@),
                Err(f) => fails_with(r, f),
            },
    {
        let ghost c0 = self@;
        let pd = match expand_home(self.projects_dir.as_str(), home) {
            Ok(p) => p,
            Err(e) => {
                return Err(ConfigError::Backend(e));
            },
        };
        let wd = match expand_home(self.worktrees_dir.as_str(), home) {
            Ok(p) => p,
            Err(e) => {
                return Err(ConfigError::Backend(e));
            },
        };
        self.projects_dir = pd;
        self.worktrees_dir = wd;
        let ghost c2 = ConfigSpec { projects_dir: pd@, worktrees_dir: wd@, ..c0 };
        assert(self@ == c2);
        assert(expand_spec(c0.projects_dir, *home) == Ok::<Seq<char>, BackendError>(c2.projects_dir));
        assert(expand_spec(c0.worktrees_dir, *home) == Ok::<Seq<char>, BackendError>(c2.worktrees_dir));

        proof {
            use_type_invariant(&self.sessions);
            lemma_entries_map(self.sessions.entries@);
        }
        let mut k: usize = 0;
        while k < self.sessions.entries.len()
            invariant
                self@ == c2,
                c0 == old(self)@,
                c2 == (ConfigSpec { projects_dir: c2.projects_dir, worktrees_dir: c2.worktrees_dir, ..c0 }),
                expand_spec(c0.projects_dir, *home) == Ok::<Seq<char>, BackendError>(c2.projects_dir),
                expand_spec(c0.worktrees_dir, *home) == Ok::<Seq<char>, BackendError>(c2.worktrees_dir),
                c2.sessions == entries_map(self.sessions.entries@),
                distinct_names(self.sessions.entries@),
                k <= self.sessions.entries@.len(),
                forall|j: int|
                    0 <= j < k ==> session_problem(
                        #[trigger] self.sessions.entries@[j].0@,
                        self.sessions.entries@[j].1@,
                    ) is None,
            decreases self.sessions.entries@.len() - k,
        {
            proof {
                lemma_entries_map(self.sessions.entries@);
            }
            let entry = &self.sessions.entries[k];
            match entry.1.validate(entry.0.as_str()) {
                Ok(()) => {},
                Err(e) => {
                    proof {
                        let key = self.sessions.entries@[k as int].0@;
                        assert(c0.sessions.contains_key(key));
                        assert(c0.sessions[key] == self.sessions.entries@[k as int].1@);
                        assert(!sessions_valid(c0.sessions));
                        if let ConfigError::Validation(m) = &e {
                            assert(session_problem(key, c0.sessions[key]) == Some(m@));
                        }
                    }
                    return Err(e);
                },
            }
            k = k + 1;
        }
        proof {
            lemma_entries_map(self.sessions.entries@);
            assert forall|key: Seq<char>| #[trigger] c0.sessions.contains_key(key) implies session_problem(
                key,
                c0.sessions[key],
            ) is None by {
                let j = choose|j: int| #![trigger self.sessions.entries@[j]] 0 <= j < self.sessions.entries@.len()
                    && self.sessions.entries@[j].0@ == key;
                assert(session_problem(self.sessions.entries@[j].0@, self.sessions.entries@[j].1@) is None);
            }
        }

        if !self.sessions.contains(self.default_session.as_str()) {
            return Err(
                ConfigError::Validation(
                    concat3("Default session template \"", self.default_session.as_str(), "\" does not exist"),
                ),
            );
        }

        let mut names: Vec<String> = Vec::new();
        let ghost all = c0.projects;
        let mut i: usize = 0;
        assert(all.skip(0) =~= all);
        assert(project_views(self.projects@).take(0) =~= Seq::<ProjectSpec>::empty());
        assert(str_views(names@).to_set() =~= Set::<Seq<char>>::empty());
        while i < self.projects.len()
            invariant
                c0 == old(self)@,
                c2 == (ConfigSpec { projects_dir: c2.projects_dir, worktrees_dir: c2.worktrees_dir, ..c0 }),
                all == c0.projects,
                expand_spec(c0.projects_dir, *home) == Ok::<Seq<char>, BackendError>(c2.projects_dir),
                expand_spec(c0.worktrees_dir, *home) == Ok::<Seq<char>, BackendError>(c2.worktrees_dir),
                sessions_valid(c0.sessions),
                self@.projects_dir == c2.projects_dir,
                self@.default_session == c2.default_session,
                self@.sessions == c2.sessions,
                self@.worktrees_dir == c2.worktrees_dir,
                c2.sessions.contains_key(c2.default_session),
                self.projects@.len() == all.len(),
                i <= self.projects@.len(),
                project_views(self.projects@).skip(i as int) == all.skip(i as int),
                projects_check(all, c2, *home, Set::empty()) == match projects_check(
                    all.skip(i as int),
                    c2,
                    *home,
                    str_views(names@).to_set(),
                ) {
                    Ok(rest) => Ok(project_views(self.projects@).take(i as int) + rest),
                    Err(f) => Err(f),
                },
            decreases self.projects@.len() - i,
        {
            let ghost seen = str_views(names@).to_set();
            let ghost p = all[i as int];
            proof {
                assert(all.skip(i as int)[0] == p);
                assert(all.skip(i as int).drop_first() =~= all.skip(i + 1));
                assert(project_views(self.projects@).skip(i as int)[0] == self.projects@[i as int]@);
            }
            let name = match self.projects[i].resolved_name() {
                Ok(n) => n,
                Err(e) => {
                    return Err(e);
                },
            };
            if contains_name(&names, name.as_str()) {
                return Err(ConfigError::Validation(concat3("Duplicate project name \"", name.as_str(), "\"")));
            }
            let path = match self.projects[i].resolved_path(home, self.projects_dir.as_str()) {
                Ok(x) => x,
                Err(e) => {
                    return Err(e);
                },
            };
            let updated = ProjectConfig {
                repository: self.projects[i].repository.clone(),
                name: Some(name.clone()),
                path: Some(path),
                default_session: copy_opt_session(&self.projects[i].default_session),
            };
            let ghost before = self.projects@;
            self.projects.set(i, updated);
            proof {
                assert(project_views(self.projects@).skip(i + 1) =~= project_views(before).skip(i + 1));
                assert(project_views(self.projects@).take(i as int) =~= project_views(before).take(i as int));
                assert(project_views(self.projects@).take(i + 1) =~= project_views(before).take(i as int).push(
                    self.projects@[i as int]@,
                ));
            }
            match &self.projects[i].default_session {
                None => {},
                Some(ProjectSessionConfig::Template(template_name)) => {
                    if !self.sessions.contains(template_name.as_str()) {
                        let a = concat3("Project \"", name.as_str(), "\" references unknown session template \"");
                        return Err(ConfigError::Validation(concat3(a.as_str(), template_name.as_str(), "\"")));
                    }
                },
                Some(ProjectSessionConfig::Inline(session)) => {
                    let label = concat3("Project \"", name.as_str(), "\" inline default_session");
                    match session.validate(label.as_str()) {
                        Ok(()) => {},
                        Err(e) => {
                            return Err(e);
                        },
                    }
                },
            }
            let ghost old_names = names@;
            names.push(name);
            proof {
                assert(str_views(names@) =~= str_views(old_names).push(resolved_name_of(p)));
                str_views(old_names).lemma_push_to_set_commute(resolved_name_of(p));
                assert(str_views(names@).to_set() =~= seen.insert(resolved_name_of(p)));
                let q = self.projects@[i as int]@;
                assert(q == (ProjectSpec { name: Some(resolved_name_of(p)), path: q.path, ..p }));
                assert(project_check(p, c2, *home, seen) == Ok::<ProjectSpec, Failure>(q));
                let s_i = all.skip(i as int);
                assert(s_i[0] == p);
                assert(s_i.drop_first() == all.skip(i + 1));
                match projects_check(all.skip(i + 1), c2, *home, seen.insert(resolved_name_of(p))) {
                    Ok(rest) => {
                        assert(project_views(self.projects@).take(i as int) + (seq![q] + rest)
                            =~= project_views(self.projects@).take(i + 1) + rest);
                    },
                    Err(f) => {},
                }
            }
            i = i + 1;
        }
        proof {
            assert(all.skip(i as int) =~= Seq::<ProjectSpec>::empty());
            assert(project_views(self.projects@).take(i as int) =~= project_views(self.projects@));
        }
        Ok(())
    }
}

} // verus!
