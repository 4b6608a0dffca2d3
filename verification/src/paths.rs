//! Unix paths held as text: joining, `~` expansion and program paths.
use vstd::prelude::*;

use crate::backend::BackendError;
use crate::text::{chars_of, concat2, concat3, split, split_char, string_of_range};

verus! {

/// `PathBuf::join` on Unix: an absolute `p` replaces `base`; otherwise `p`
/// is appended after a `'/'` unless `base` is empty or already ends in one.
pub open spec fn path_join(base: Seq<char>, p: Seq<char>) -> Seq<char> {
    if p.len() > 0 && p[0] == '/' {
        p
    } else if base.len() == 0 || base.last() == '/' {
        base + p
    } else {
        base + "/"@ + p
    }
}

/// `s` without leading separators and `.` segments, as the remainder of a
/// path after a matched prefix is read.
pub open spec fn trim_front(s: Seq<char>) -> Seq<char>
    decreases s.len(),
{
    if s.len() > 0 && s[0] == '/' {
        trim_front(s.skip(1))
    } else if s.len() > 0 && s[0] == '.' && (s.len() == 1 || s[1] == '/') {
        trim_front(s.skip(1))
    } else {
        s
    }
}

/// `s` without trailing separators and `.` segments.
pub open spec fn trim_back(s: Seq<char>) -> Seq<char>
    decreases s.len(),
{
    if s.len() > 0 && s.last() == '/' {
        trim_back(s.drop_last())
    } else if s.len() > 0 && s.last() == '.' && (s.len() == 1 || s[s.len() - 2] == '/') {
        trim_back(s.drop_last())
    } else {
        s
    }
}

/// What is left of `p` after its leading `~` component, if it has one
/// (`Path::strip_prefix("~")`).
pub open spec fn tilde_rest(p: Seq<char>) -> Option<Seq<char>> {
    if p.len() >= 1 && p[0] == '~' && (p.len() == 1 || p[1] == '/') {
        Some(trim_back(trim_front(p.skip(1))))
    } else {
        None
    }
}

/// `p` with a leading `~` component replaced by `home`.
pub open spec fn expanded_home(p: Seq<char>, home: Seq<char>) -> Seq<char> {
    match tilde_rest(p) {
        Some(rest) => path_join(home, rest),
        None => p,
    }
}

/// Joins `p` onto `base` (see [`path_join`]).
pub fn join(base: &str, p: &str) -> (r: String)
    ensures
        r@ == path_join(base@, p@),
{
    let pv = chars_of(p);
    let bv = chars_of(base);
    if pv.len() > 0 && pv[0] == '/' {
        p.to_owned()
    } else if bv.len() == 0 || bv[bv.len() - 1] == '/' {
        concat2(base, p)
    } else {
        proof {
            reveal_strlit("/");
        }
        concat3(base, "/", p)
    }
}

fn trim_front_from(v: &[char], from: usize) -> (i: usize)
    requires
        from <= v@.len(),
    ensures
        from <= i <= v@.len(),
        v@.skip(i as int) == trim_front(v@.skip(from as int)),
{
    let mut i = from;
    while i < v.len() && (v[i] == '/' || (v[i] == '.' && (i + 1 == v.len() || v[i + 1] == '/')))
        invariant
            from <= i <= v@.len(),
            trim_front(v@.skip(from as int)) == trim_front(v@.skip(i as int)),
        decreases v@.len() - i,
    {
        assert(v@.skip(i as int).skip(1) =~= v@.skip(i + 1));
        i = i + 1;
    }
    i
}

fn trim_back_to(v: &[char], from: usize) -> (j: usize)
    requires
        from <= v@.len(),
    ensures
        from <= j <= v@.len(),
        v@.subrange(from as int, j as int) == trim_back(v@.skip(from as int)),
{
    let mut j = v.len();
    assert(v@.subrange(from as int, j as int) =~= v@.skip(from as int));
    while j > from && (v[j - 1] == '/' || (v[j - 1] == '.' && (j - 1 == from || v[j - 2] == '/')))
        invariant
            from <= j <= v@.len(),
            trim_back(v@.skip(from as int)) == trim_back(v@.subrange(from as int, j as int)),
        decreases j,
    {
        assert(v@.subrange(from as int, j as int).drop_last() =~= v@.subrange(from as int, j - 1));
        j = j - 1;
    }
    j
}

/// Whether `path` starts with a `~` component, so that expanding it needs
/// the home directory.
pub fn needs_home(path: &str) -> (b: bool)
    ensures
        b == tilde_rest(path@) is Some,
{
    let v = chars_of(path);
    v.len() >= 1 && v[0] == '~' && (v.len() == 1 || v[1] == '/')
}

/// Expands a leading `~` component of `path` using `home`, the home
/// directory as the backend reported it.  Only a path that starts with `~`
/// needs the home directory; for it a failed lookup is the error returned.
pub fn expand_home(path: &str, home: &Result<String, BackendError>) -> (r: Result<String, BackendError>)
    ensures
        tilde_rest(path@) is None ==> (r matches Ok(p) && p@ == path@),
        tilde_rest(path@) is Some ==> match home {
            Ok(h) => (r matches Ok(p) && p@ == expanded_home(path@, h@)),
            Err(e) => r == Err::<String, BackendError>(*e),
        },
{
    let v = chars_of(path);
    if v.len() >= 1 && v[0] == '~' && (v.len() == 1 || v[1] == '/') {
        match home {
            Ok(h) => {
                let a = trim_front_from(v.as_slice(), 1);
                let b = trim_back_to(v.as_slice(), a);
                let rest = string_of_range(v.as_slice(), a, b);
                Ok(join(h.as_str(), rest.as_str()))
            },
            Err(e) => Err(e.duplicate()),
        }
    } else {
        Ok(path.to_owned())
    }
}

/// Number of components of a relative path: a leading `.` counts, other
/// `.` segments and empty segments do not.
pub open spec fn count_components(segs: Seq<Seq<char>>) -> nat
    decreases segs.len(),
{
    if segs.len() == 0 {
        0
    } else {
        let s = segs.last();
        count_components(segs.drop_last()) + if s.len() == 0 || s == seq!['.'] {
            0nat
        } else {
            1nat
        }
    }
}

/// `Path::is_absolute() || Path::components().count() > 1` for a Unix path:
/// whether a program is named by a path rather than looked up in `PATH`.
pub open spec fn is_program_path(p: Seq<char>) -> bool {
    let segs = split(p, '/');
    ||| (p.len() > 0 && p[0] == '/')
    ||| (if segs[0] == seq!['.'] { 1nat } else { 0nat }) + count_components(segs) > 1
}

/// Whether `program` names a path rather than a program looked up in `PATH`.
pub fn program_is_path(program: &str) -> (b: bool)
    ensures
        b == is_program_path(program@),
{
    let v = chars_of(program);
    if v.len() > 0 && v[0] == '/' {
        return true;
    }
    let segs = split_char(v.as_slice(), '/');
    proof {
        crate::text::lemma_split_nonempty(v@, '/');
    }
    let lead: usize = if segs[0].len() == 1 && segs[0][0] == '.' {
        assert(segs@[0]@ =~= seq!['.']);
        1
    } else {
        assert(segs@[0]@ != seq!['.']);
        0
    };
    let mut count: usize = 0;
    let mut i: usize = 0;
    while i < segs.len()
        invariant
            i <= segs@.len(),
            segs@.len() == split(v@, '/').len(),
            forall|k: int| 0 <= k < segs@.len() ==> #[trigger] segs@[k]@ == split(v@, '/')[k],
            count == count_components(split(v@, '/').take(i as int)),
            count <= i,
        decreases segs@.len() - i,
    {
        let s = &segs[i];
        let skip = s.len() == 0 || (s.len() == 1 && s[0] == '.');
        proof {
            let t = split(v@, '/').take(i + 1);
            assert(t.drop_last() =~= split(v@, '/').take(i as int));
            assert(t.last() == segs@[i as int]@);
            if s.len() == 1 {
                assert((s@[0] == '.') == (s@ =~= seq!['.']));
            }
        }
        if !skip {
            count = count + 1;
        }
        i = i + 1;
    }
    proof {
        assert(split(v@, '/').take(segs@.len() as int) =~= split(v@, '/'));
    }
    if lead == 1 {
        count >= 1
    } else {
        count > 1
    }
}

/// The text of the parent that `Path::parent` gives of `p`.
pub uninterp spec fn path_parent(p: Seq<char>) -> Option<Seq<char>>;

/// The final component of `p` when it is a name: not `.`, not `..`, and
/// not the root (`Path::file_name`).
pub open spec fn file_name(p: Seq<char>) -> Option<Seq<char>> {
    let c = path_components(p).1;
    if c.len() > 0 && c.last() != seq!['.'] && c.last() != seq!['.', '.'] {
        Some(c.last())
    } else {
        None
    }
}

/// How `Path`'s `Debug` writes `p`: quoted, with special characters escaped.
pub uninterp spec fn path_debug(p: Seq<char>) -> Seq<char>;

/// The parent of `p`, if it has one.
///
/// Trusted: calls `Path::parent`, which gives `p` without its final
/// component, and nothing for a path that is empty or ends in the root.  The
/// contract says so over the components; the exact text of the parent
/// (which separators it keeps) is named, as a function of the path alone.
#[verifier::external_body]
pub(crate) fn parent_of(p: &str) -> (r: Option<String>)
    ensures
        r is None <==> path_components(p@).1.len() == 0,
        match r {
            Some(s) => {
                &&& path_parent(p@) == Some(s@)
                &&& path_components(s@) == (path_components(p@).0, path_components(p@).1.drop_last())
            },
            None => path_parent(p@) is None,
        },
{
    match std::path::Path::new(p).parent() {
        Some(q) => Some(q.to_string_lossy().into_owned()),
        None => None,
    }
}

/// The last component of `p`, if it is a name (see [`file_name`]).
///
/// Trusted: calls `Path::file_name`, which gives the final component of the
/// path when it is a normal one, and nothing when the path ends in `..`, is
/// the root or is empty.
#[verifier::external_body]
pub(crate) fn file_name_of(p: &str) -> (r: Option<String>)
    ensures
        match r {
            Some(s) => file_name(p@) == Some(s@),
            None => file_name(p@) is None,
        },
{
    match std::path::Path::new(p).file_name() {
        Some(q) => Some(q.to_string_lossy().into_owned()),
        None => None,
    }
}

/// How `Path`'s `Debug` writes `p`.
///
/// Trusted: formats `Path::new(p)` with `{:?}`, which quotes the path and
/// escapes quotes, backslashes and control characters; the contract names
/// the result as a function of the path alone and leaves the escaping rules
/// unsaid.
#[verifier::external_body]
pub(crate) fn debug_path(p: &str) -> (s: String)
    ensures
        s@ == path_debug(p@),
{
    format!("{:?}", std::path::Path::new(p))
}

/// The segments that are path components: not empty and not `.`.
pub open spec fn normal_segments(segs: Seq<Seq<char>>) -> Seq<Seq<char>>
    decreases segs.len(),
{
    if segs.len() == 0 {
        seq![]
    } else {
        let s = segs.last();
        if s.len() == 0 || s == seq!['.'] {
            normal_segments(segs.drop_last())
        } else {
            normal_segments(segs.drop_last()).push(s)
        }
    }
}

/// The components of a Unix path, as `Path::components` reads them: whether
/// it is rooted, and its named components, led by `.` when a relative path
/// starts with one.
pub open spec fn path_components(p: Seq<char>) -> (bool, Seq<Seq<char>>) {
    let segs = split(p, '/');
    let rooted = p.len() > 0 && p[0] == '/';
    if !rooted && segs[0] == seq!['.'] {
        (rooted, seq![seq!['.']] + normal_segments(segs))
    } else {
        (rooted, normal_segments(segs))
    }
}

/// Equality of paths (`Path == Path` compares components).
pub open spec fn same_components(a: Seq<char>, b: Seq<char>) -> bool {
    path_components(a) == path_components(b)
}

fn components_of(p: &str) -> (r: (bool, Vec<Vec<char>>))
    ensures
        r.0 == path_components(p@).0,
        r.1@.len() == path_components(p@).1.len(),
        forall|k: int| 0 <= k < r.1@.len() ==> #[trigger] r.1@[k]@ == path_components(p@).1[k],
{
    let v = chars_of(p);
    let rooted = v.len() > 0 && v[0] == '/';
    let segs = split_char(v.as_slice(), '/');
    proof {
        crate::text::lemma_split_nonempty(v@, '/');
    }
    let ghost all = split(v@, '/');
    let mut out: Vec<Vec<char>> = Vec::new();
    let lead = !rooted && segs[0].len() == 1 && segs[0][0] == '.';
    proof {
        if segs[0].len() == 1 {
            assert((segs@[0]@[0] == '.') == (segs@[0]@ =~= seq!['.']));
        } else {
            assert(segs@[0]@ != seq!['.']);
        }
    }
    if lead {
        let mut dot: Vec<char> = Vec::new();
        dot.push('.');
        out.push(dot);
    }
    let ghost prefix: Seq<Seq<char>> = if lead { seq![seq!['.']] } else { seq![] };
    assert(out@.map_values(|x: Vec<char>| x@) =~= prefix + normal_segments(all.take(0)));
    let mut i: usize = 0;
    while i < segs.len()
        invariant
            all == split(v@, '/'),
            segs@.len() == all.len(),
            forall|k: int| 0 <= k < segs@.len() ==> #[trigger] segs@[k]@ == all[k],
            i <= segs@.len(),
            out@.map_values(|x: Vec<char>| x@) == prefix + normal_segments(all.take(i as int)),
        decreases segs@.len() - i,
    {
        let s = &segs[i];
        let skip = s.len() == 0 || (s.len() == 1 && s[0] == '.');
        proof {
            let t = all.take(i + 1);
            assert(t.drop_last() =~= all.take(i as int));
            assert(t.last() == segs@[i as int]@);
            if s.len() == 1 {
                assert((s@[0] == '.') == (s@ =~= seq!['.']));
            }
        }
        if !skip {
            let ghost before = out@;
            out.push(crate::text::slice_range(s.as_slice(), 0, s.len()));
            assert(s@.subrange(0, s@.len() as int) =~= s@);
            assert(out@.map_values(|x: Vec<char>| x@) =~= before.map_values(|x: Vec<char>| x@).push(s@));
        }
        i = i + 1;
    }
    assert(all.take(segs@.len() as int) =~= all);
    assert(out@.map_values(|x: Vec<char>| x@) =~= path_components(p@).1);
    (rooted, out)
}

/// Whether `a` and `b` are the same path, compared by components.
pub fn path_eq(a: &str, b: &str) -> (r: bool)
    ensures
        r == same_components(a@, b@),
{
    let (ra, ca) = components_of(a);
    let (rb, cb) = components_of(b);
    if ra != rb || ca.len() != cb.len() {
        proof {
            if ca@.len() != cb@.len() {
                assert(path_components(a@).1.len() != path_components(b@).1.len());
            }
        }
        return false;
    }
    let mut i: usize = 0;
    while i < ca.len()
        invariant
            ca@.len() == cb@.len(),
            ca@.len() == path_components(a@).1.len(),
            cb@.len() == path_components(b@).1.len(),
            forall|k: int| 0 <= k < ca@.len() ==> #[trigger] ca@[k]@ == path_components(a@).1[k],
            forall|k: int| 0 <= k < cb@.len() ==> #[trigger] cb@[k]@ == path_components(b@).1[k],
            i <= ca@.len(),
            forall|k: int| 0 <= k < i ==> path_components(a@).1[k] == path_components(b@).1[k],
        decreases ca@.len() - i,
    {
        if !crate::text::chars_eq(ca[i].as_slice(), cb[i].as_slice()) {
            assert(path_components(a@).1[i as int] != path_components(b@).1[i as int]);
            return false;
        }
        i = i + 1;
    }
    assert(path_components(a@).1 =~= path_components(b@).1);
    true
}

} // verus!
