//! Character-level text operations with their mathematical meaning.
//!
//! Text is modelled as a sequence of `char`s (`Seq<char>`), which is what a
//! `String` or `&str` views as.  The functions here are the building blocks
//! that the rest of the library uses to trim, split, compare and assemble
//! strings.
use vstd::prelude::*;

verus! {

/// A class of characters that a trimming operation removes.
#[derive(Clone, Copy, Debug, PartialEq, Eq)]
pub enum CharPat {
    /// Characters with the Unicode `White_Space` property.
    Whitespace,
    /// Exactly the given character.
    Exactly(char),
}

/// The Unicode `White_Space` property, which `char::is_whitespace` reports.
pub open spec fn is_ws(c: char) -> bool {
    ||| ('\u{9}' <= c && c <= '\u{d}')
    ||| c == ' '
    ||| c == '\u{85}'
    ||| c == '\u{a0}'
    ||| c == '\u{1680}'
    ||| ('\u{2000}' <= c && c <= '\u{200a}')
    ||| c == '\u{2028}'
    ||| c == '\u{2029}'
    ||| c == '\u{202f}'
    ||| c == '\u{205f}'
    ||| c == '\u{3000}'
}

/// ASCII letters and digits, what `char::is_ascii_alphanumeric` reports.
pub open spec fn is_ascii_alnum(c: char) -> bool {
    ||| ('0' <= c && c <= '9')
    ||| ('a' <= c && c <= 'z')
    ||| ('A' <= c && c <= 'Z')
}

pub open spec fn pat_matches(p: CharPat, c: char) -> bool {
    match p {
        CharPat::Whitespace => is_ws(c),
        CharPat::Exactly(x) => c == x,
    }
}

/// Number of leading characters of `s` that match `p`.
pub open spec fn lead_count(s: Seq<char>, p: CharPat) -> nat
    decreases s.len(),
{
    if s.len() > 0 && pat_matches(p, s[0]) {
        1 + lead_count(s.drop_first(), p)
    } else {
        0
    }
}

/// Number of trailing characters of `s` that match `p`.
pub open spec fn trail_count(s: Seq<char>, p: CharPat) -> nat
    decreases s.len(),
{
    if s.len() > 0 && pat_matches(p, s.last()) {
        1 + trail_count(s.drop_last(), p)
    } else {
        0
    }
}

/// `s` without its leading characters matching `p`.
pub open spec fn trim_start_pat(s: Seq<char>, p: CharPat) -> Seq<char> {
    s.skip(lead_count(s, p) as int)
}

/// `s` without its trailing characters matching `p`.
pub open spec fn trim_end_pat(s: Seq<char>, p: CharPat) -> Seq<char> {
    s.take(s.len() - trail_count(s, p))
}

/// `s` without leading and trailing characters matching `p`
/// (`str::trim` for whitespace, `str::trim_matches` for one character).
pub open spec fn trim_pat(s: Seq<char>, p: CharPat) -> Seq<char> {
    trim_end_pat(trim_start_pat(s, p), p)
}

/// `str::trim`: `s` without leading and trailing whitespace.
pub open spec fn trim(s: Seq<char>) -> Seq<char> {
    trim_pat(s, CharPat::Whitespace)
}

/// Index of the first occurrence of `c` in `s`, or `s.len()` when absent.
pub open spec fn index_of(s: Seq<char>, c: char) -> nat
    decreases s.len(),
{
    if s.len() == 0 {
        0
    } else if s[0] == c {
        0
    } else {
        1 + index_of(s.drop_first(), c)
    }
}

/// `str::split(c)`: the pieces of `s` between occurrences of `c`.
pub open spec fn split(s: Seq<char>, c: char) -> Seq<Seq<char>>
    decreases s.len(),
{
    let i = index_of(s, c);
    if i < s.len() {
        seq![s.take(i as int)] + split(s.skip(i + 1 as int), c)
    } else {
        seq![s]
    }
}

/// A line without the `'\r'` that may precede its `'\n'`.
pub open spec fn strip_cr(line: Seq<char>) -> Seq<char> {
    if line.len() > 0 && line.last() == '\r' {
        line.drop_last()
    } else {
        line
    }
}

/// `str::lines`: lines ended by `"\n"` or `"\r\n"`; the last ending is optional.
pub open spec fn lines(s: Seq<char>) -> Seq<Seq<char>>
    decreases s.len(),
{
    if s.len() == 0 {
        seq![]
    } else {
        let i = index_of(s, '\n');
        if i < s.len() {
            seq![strip_cr(s.take(i as int))] + lines(s.skip(i + 1 as int))
        } else {
            seq![s]
        }
    }
}

/// Whether `s` begins with `p`.
pub open spec fn has_prefix(s: Seq<char>, p: Seq<char>) -> bool {
    p.len() <= s.len() && s.take(p.len() as int) == p
}

/// Whether `c` occurs in `s`.
pub open spec fn has_char(s: Seq<char>, c: char) -> bool {
    exists|i: int| 0 <= i < s.len() && s[i] == c
}

/// Lexicographic order on character sequences; this is the order of `String`
/// (UTF-8 byte order is code point order).
pub open spec fn lex_le(a: Seq<char>, b: Seq<char>) -> bool
    decreases a.len(),
{
    if a.len() == 0 {
        true
    } else if b.len() == 0 {
        false
    } else if a[0] != b[0] {
        a[0] < b[0]
    } else {
        lex_le(a.drop_first(), b.drop_first())
    }
}

/// Strict lexicographic order.
pub open spec fn lex_lt(a: Seq<char>, b: Seq<char>) -> bool {
    lex_le(a, b) && a != b
}

pub proof fn lemma_lex_le_refl(a: Seq<char>)
    ensures
        lex_le(a, a),
    decreases a.len(),
{
    if a.len() > 0 {
        lemma_lex_le_refl(a.drop_first());
    }
}

pub proof fn lemma_lex_le_total(a: Seq<char>, b: Seq<char>)
    ensures
        lex_le(a, b) || lex_le(b, a),
    decreases a.len(),
{
    if a.len() > 0 && b.len() > 0 && a[0] == b[0] {
        lemma_lex_le_total(a.drop_first(), b.drop_first());
    }
}

pub proof fn lemma_lex_le_antisym(a: Seq<char>, b: Seq<char>)
    requires
        lex_le(a, b),
        lex_le(b, a),
    ensures
        a == b,
    decreases a.len(),
{
    if a.len() > 0 && b.len() > 0 {
        lemma_lex_le_antisym(a.drop_first(), b.drop_first());
        assert(a =~= seq![a[0]] + a.drop_first());
        assert(b =~= seq![b[0]] + b.drop_first());
    } else {
        assert(a =~= b);
    }
}

pub proof fn lemma_lex_le_trans(a: Seq<char>, b: Seq<char>, c: Seq<char>)
    requires
        lex_le(a, b),
        lex_le(b, c),
    ensures
        lex_le(a, c),
    decreases a.len(),
{
    if a.len() > 0 && b.len() > 0 && c.len() > 0 && a[0] == b[0] && b[0] == c[0] {
        lemma_lex_le_trans(a.drop_first(), b.drop_first(), c.drop_first());
    }
}

/// Law: in the order used for sorting, a string comes strictly before every
/// longer string that begins with it; the empty string is the least of all.
pub proof fn law_prefix_sorts_first(a: Seq<char>, s: Seq<char>)
    requires
        s.len() > 0,
    ensures
        lex_le(a, a + s),
        !lex_le(a + s, a),
        lex_lt(a, a + s),
        lex_le(seq![], a),
    decreases a.len(),
{
    if a.len() > 0 {
        let b = a + s;
        assert(b[0] == a[0]);
        assert(b.drop_first() =~= a.drop_first() + s);
        law_prefix_sorts_first(a.drop_first(), s);
    } else {
        assert(a + s =~= s);
    }
    assert((a + s).len() != a.len());
}

/// Law: strings that agree up to some position and differ there are ordered
/// by the character at that position, whatever follows.
pub proof fn law_first_difference_decides(p: Seq<char>, c: char, d: char, x: Seq<char>, y: Seq<char>)
    requires
        c < d,
    ensures
        lex_le(p + seq![c] + x, p + seq![d] + y),
        !lex_le(p + seq![d] + y, p + seq![c] + x),
    decreases p.len(),
{
    let a = p + seq![c] + x;
    let b = p + seq![d] + y;
    if p.len() > 0 {
        assert(a[0] == p[0] && b[0] == p[0]);
        assert(a.drop_first() =~= p.drop_first() + seq![c] + x);
        assert(b.drop_first() =~= p.drop_first() + seq![d] + y);
        law_first_difference_decides(p.drop_first(), c, d, x, y);
    } else {
        assert(a[0] == c && b[0] == d);
    }
}

proof fn lemma_lead_step(s: Seq<char>, i: int, p: CharPat)
    requires
        0 <= i < s.len(),
    ensures
        pat_matches(p, s[i]) ==> lead_count(s.skip(i), p) == 1 + lead_count(s.skip(i + 1), p),
        !pat_matches(p, s[i]) ==> lead_count(s.skip(i), p) == 0,
{
    assert(s.skip(i).drop_first() =~= s.skip(i + 1));
}

proof fn lemma_trail_step(s: Seq<char>, j: int, p: CharPat)
    requires
        0 < j <= s.len(),
    ensures
        pat_matches(p, s[j - 1]) ==> trail_count(s.take(j), p) == 1 + trail_count(
            s.take(j - 1),
            p,
        ),
        !pat_matches(p, s[j - 1]) ==> trail_count(s.take(j), p) == 0,
{
    assert(s.take(j).drop_last() =~= s.take(j - 1));
}

pub proof fn lemma_lead_count_bound(s: Seq<char>, p: CharPat)
    ensures
        lead_count(s, p) <= s.len(),
    decreases s.len(),
{
    if s.len() > 0 && pat_matches(p, s[0]) {
        lemma_lead_count_bound(s.drop_first(), p);
    }
}

pub proof fn lemma_trail_count_bound(s: Seq<char>, p: CharPat)
    ensures
        trail_count(s, p) <= s.len(),
    decreases s.len(),
{
    if s.len() > 0 && pat_matches(p, s.last()) {
        lemma_trail_count_bound(s.drop_last(), p);
    }
}

/// Each counted leading character matches, and the next one does not.
pub proof fn lemma_lead_count_meaning(s: Seq<char>, p: CharPat)
    ensures
        lead_count(s, p) <= s.len(),
        forall|k: int| 0 <= k < lead_count(s, p) ==> pat_matches(p, #[trigger] s[k]),
        lead_count(s, p) < s.len() ==> !pat_matches(p, s[lead_count(s, p) as int]),
    decreases s.len(),
{
    if s.len() > 0 && pat_matches(p, s[0]) {
        let t = s.drop_first();
        lemma_lead_count_meaning(t, p);
        assert forall|k: int| 0 <= k < lead_count(s, p) implies pat_matches(p, #[trigger] s[k]) by {
            if k > 0 {
                assert(s[k] == t[k - 1]);
            }
        }
    }
}

/// Each counted trailing character matches, and the one before does not.
pub proof fn lemma_trail_count_meaning(s: Seq<char>, p: CharPat)
    ensures
        trail_count(s, p) <= s.len(),
        forall|k: int|
            s.len() - trail_count(s, p) <= k < s.len() ==> pat_matches(p, #[trigger] s[k]),
        trail_count(s, p) < s.len() ==> !pat_matches(
            p,
            s[s.len() - trail_count(s, p) - 1],
        ),
    decreases s.len(),
{
    if s.len() > 0 && pat_matches(p, s.last()) {
        let t = s.drop_last();
        lemma_trail_count_meaning(t, p);
        assert forall|k: int| s.len() - trail_count(s, p) <= k < s.len() implies pat_matches(
            p,
            #[trigger] s[k],
        ) by {
            if k < s.len() - 1 {
                assert(s[k] == t[k]);
            }
        }
    }
}

pub proof fn lemma_index_of_meaning(s: Seq<char>, c: char)
    ensures
        index_of(s, c) <= s.len(),
        forall|k: int| 0 <= k < index_of(s, c) ==> #[trigger] s[k] != c,
        index_of(s, c) < s.len() ==> s[index_of(s, c) as int] == c,
    decreases s.len(),
{
    if s.len() > 0 && s[0] != c {
        let t = s.drop_first();
        lemma_index_of_meaning(t, c);
        assert forall|k: int| 0 <= k < index_of(s, c) implies #[trigger] s[k] != c by {
            if k > 0 {
                assert(s[k] == t[k - 1]);
            }
        }
    }
}

/// `index_of` is determined by the first position holding `c`.
pub proof fn lemma_index_of_at(s: Seq<char>, c: char, k: int)
    requires
        0 <= k <= s.len(),
        forall|j: int| 0 <= j < k ==> #[trigger] s[j] != c,
        k < s.len() ==> s[k] == c,
    ensures
        index_of(s, c) == k,
    decreases s.len(),
{
    if s.len() > 0 && k > 0 {
        let t = s.drop_first();
        assert forall|j: int| 0 <= j < k - 1 implies #[trigger] t[j] != c by {
            assert(t[j] == s[j + 1]);
        }
        lemma_index_of_at(t, c, k - 1);
    }
}

/// Appends `c` to `s`.
///
/// Trusted: calls `String::push`, which appends one character to the string.
#[verifier::external_body]
pub(crate) fn push_char(s: &mut String, c: char)
    ensures
        final(s)@ == old(s)@.push(c),
{
    s.push(c);
}

/// The characters of `s`.
pub fn chars_of(s: &str) -> (v: Vec<char>)
    ensures
        v@ == s@,
{
    let mut v: Vec<char> = Vec::new();
    for c in it: s.chars()
        invariant
            v@ == it.seq().take(it.index() as int),
            it.seq() == s@,
    {
        v.push(c);
    }
    v
}

/// A string holding `v[from..to]`.
pub fn string_of_range(v: &[char], from: usize, to: usize) -> (s: String)
    requires
        from <= to <= v@.len(),
    ensures
        s@ == v@.subrange(from as int, to as int),
{
    let mut s = String::new();
    let mut i = from;
    while i < to
        invariant
            from <= i <= to <= v@.len(),
            s@ == v@.subrange(from as int, i as int),
        decreases to - i,
    {
        push_char(&mut s, v[i]);
        assert(v@.subrange(from as int, i + 1) =~= v@.subrange(from as int, i as int).push(v@[i as int]));
        i = i + 1;
    }
    s
}

/// A string holding all of `v`.
pub fn string_of(v: &[char]) -> (s: String)
    ensures
        s@ == v@,
{
    let s = string_of_range(v, 0, v.len());
    assert(v@.subrange(0, v@.len() as int) =~= v@);
    s
}

/// Whether `c` is whitespace (`char::is_whitespace`).
pub fn is_whitespace(c: char) -> (b: bool)
    ensures
        b == is_ws(c),
{
    ('\u{9}' <= c && c <= '\u{d}') || c == ' ' || c == '\u{85}' || c == '\u{a0}' || c == '\u{1680}'
        || ('\u{2000}' <= c && c <= '\u{200a}') || c == '\u{2028}' || c == '\u{2029}' || c
        == '\u{202f}' || c == '\u{205f}' || c == '\u{3000}'
}

/// Whether `c` is an ASCII letter or digit (`char::is_ascii_alphanumeric`).
pub fn is_alnum(c: char) -> (b: bool)
    ensures
        b == is_ascii_alnum(c),
{
    ('0' <= c && c <= '9') || ('a' <= c && c <= 'z') || ('A' <= c && c <= 'Z')
}

/// Whether `c` matches `p`.
pub fn matches_pat(p: CharPat, c: char) -> (b: bool)
    ensures
        b == pat_matches(p, c),
{
    match p {
        CharPat::Whitespace => is_whitespace(c),
        CharPat::Exactly(x) => c == x,
    }
}

/// Bounds `(a, b)` such that `v[a..b]` is `v` trimmed by `p` on both sides.
pub fn trim_bounds(v: &[char], p: CharPat) -> (r: (usize, usize))
    ensures
        r.0 <= r.1 <= v@.len(),
        v@.subrange(r.0 as int, r.1 as int) == trim_pat(v@, p),
        r.0 == lead_count(v@, p),
{
    let a = lead_len(v, p);
    let b = trail_start(v, a, p);
    proof {
        let t = v@.skip(a as int);
        assert(v@.subrange(a as int, v@.len() as int) =~= t);
        assert(v@.subrange(a as int, b as int) =~= t.take(t.len() - trail_count(t, p)));
    }
    (a, b)
}

/// `lead_count(v, p)`, computed.
pub fn lead_len(v: &[char], p: CharPat) -> (n: usize)
    ensures
        n == lead_count(v@, p),
        n <= v@.len(),
{
    let mut i: usize = 0;
    assert(v@.skip(0) =~= v@);
    while i < v.len() && matches_pat(p, v[i])
        invariant
            i <= v@.len(),
            lead_count(v@, p) == i + lead_count(v@.skip(i as int), p),
        decreases v@.len() - i,
    {
        proof {
            lemma_lead_step(v@, i as int, p);
        }
        i = i + 1;
    }
    proof {
        if i < v@.len() {
            lemma_lead_step(v@, i as int, p);
        } else {
            assert(v@.skip(i as int).len() == 0);
        }
    }
    i
}

/// The start of the trailing run of `p`-characters in `v[from..]`.
pub fn trail_start(v: &[char], from: usize, p: CharPat) -> (j: usize)
    requires
        from <= v@.len(),
    ensures
        from <= j <= v@.len(),
        j == v@.len() - trail_count(v@.skip(from as int), p),
{
    let ghost t = v@.skip(from as int);
    let mut j: usize = v.len();
    assert(t.take(t.len() as int) =~= t);
    while j > from && matches_pat(p, v[j - 1])
        invariant
            from <= j <= v@.len(),
            t == v@.skip(from as int),
            trail_count(t, p) == (v@.len() - j) + trail_count(t.take(j - from), p),
        decreases j,
    {
        proof {
            lemma_trail_step(t, j - from, p);
        }
        j = j - 1;
    }
    proof {
        if j > from {
            lemma_trail_step(t, j - from, p);
        } else {
            assert(t.take(0).len() == 0);
        }
        assert(t.take(t.len() as int) =~= t);
    }
    j
}

/// `str::trim_matches`/`str::trim` as characters.
pub fn trimmed(v: &[char], p: CharPat) -> (r: Vec<char>)
    ensures
        r@ == trim_pat(v@, p),
{
    let (a, b) = trim_bounds(v, p);
    slice_range(v, a, b)
}

/// `str::trim_end_matches` as characters.
pub fn trimmed_end(v: &[char], p: CharPat) -> (r: Vec<char>)
    ensures
        r@ == trim_end_pat(v@, p),
{
    let j = trail_start(v, 0, p);
    assert(v@.skip(0) =~= v@);
    slice_range(v, 0, j)
}

/// `v[from..to]` as a vector.
pub fn slice_range(v: &[char], from: usize, to: usize) -> (r: Vec<char>)
    requires
        from <= to <= v@.len(),
    ensures
        r@ == v@.subrange(from as int, to as int),
{
    let mut r: Vec<char> = Vec::new();
    let mut i = from;
    while i < to
        invariant
            from <= i <= to <= v@.len(),
            r@ == v@.subrange(from as int, i as int),
        decreases to - i,
    {
        r.push(v[i]);
        assert(v@.subrange(from as int, i + 1) =~= v@.subrange(from as int, i as int).push(v@[i as int]));
        i = i + 1;
    }
    r
}

/// `str::trim` on a string.
pub fn trim_str(s: &str) -> (r: String)
    ensures
        r@ == trim(s@),
{
    let v = chars_of(s);
    let (a, b) = trim_bounds(v.as_slice(), CharPat::Whitespace);
    string_of_range(v.as_slice(), a, b)
}

/// Whether `c` occurs in `v`.
pub fn contains_char(v: &[char], c: char) -> (b: bool)
    ensures
        b == has_char(v@, c),
{
    let mut i: usize = 0;
    while i < v.len()
        invariant
            i <= v@.len(),
            forall|k: int| 0 <= k < i ==> v@[k] != c,
        decreases v@.len() - i,
    {
        if v[i] == c {
            return true;
        }
        i = i + 1;
    }
    false
}

/// Whether `a` and `b` hold the same characters.
pub fn chars_eq(a: &[char], b: &[char]) -> (r: bool)
    ensures
        r == (a@ == b@),
{
    if a.len() != b.len() {
        return false;
    }
    let mut i: usize = 0;
    while i < a.len()
        invariant
            a@.len() == b@.len(),
            i <= a@.len(),
            forall|k: int| 0 <= k < i ==> a@[k] == b@[k],
        decreases a@.len() - i,
    {
        if a[i] != b[i] {
            return false;
        }
        i = i + 1;
    }
    assert(a@ =~= b@);
    true
}

/// Whether two strings are equal.
pub fn str_eq(a: &str, b: &str) -> (r: bool)
    ensures
        r == (a@ == b@),
{
    let x = chars_of(a);
    let y = chars_of(b);
    chars_eq(x.as_slice(), y.as_slice())
}

/// Whether `a` sorts before or equal to `b`.
pub fn chars_le(a: &[char], b: &[char]) -> (r: bool)
    ensures
        r == lex_le(a@, b@),
{
    let mut i: usize = 0;
    assert(a@.skip(0) =~= a@);
    assert(b@.skip(0) =~= b@);
    while i < a.len() && i < b.len() && a[i] == b[i]
        invariant
            i <= a@.len(),
            i <= b@.len(),
            lex_le(a@, b@) == lex_le(a@.skip(i as int), b@.skip(i as int)),
        decreases a@.len() - i,
    {
        proof {
            assert(a@.skip(i as int).drop_first() =~= a@.skip(i + 1));
            assert(b@.skip(i as int).drop_first() =~= b@.skip(i + 1));
        }
        i = i + 1;
    }
    if i == a.len() {
        proof {
            assert(a@.skip(i as int).len() == 0);
        }
        true
    } else if i == b.len() {
        proof {
            assert(b@.skip(i as int).len() == 0);
        }
        false
    } else {
        a[i] < b[i]
    }
}

/// Whether `a` sorts before or equal to `b`.
pub fn str_le(a: &str, b: &str) -> (r: bool)
    ensures
        r == lex_le(a@, b@),
{
    let x = chars_of(a);
    let y = chars_of(b);
    chars_le(x.as_slice(), y.as_slice())
}

/// Whether `v` begins with `prefix`.
pub fn starts_with(v: &[char], prefix: &str) -> (r: bool)
    ensures
        r == has_prefix(v@, prefix@),
{
    let p = chars_of(prefix);
    if p.len() > v.len() {
        return false;
    }
    let mut i: usize = 0;
    while i < p.len()
        invariant
            p@ == prefix@,
            p@.len() <= v@.len(),
            i <= p@.len(),
            forall|k: int| 0 <= k < i ==> v@[k] == p@[k],
        decreases p@.len() - i,
    {
        if v[i] != p[i] {
            assert(v@.take(p@.len() as int)[i as int] != p@[i as int]);
            return false;
        }
        i = i + 1;
    }
    assert(v@.take(p@.len() as int) =~= p@);
    true
}

/// Whether `v` ends with `suffix`.
pub fn ends_with(v: &[char], suffix: &str) -> (r: bool)
    ensures
        r == (suffix@.len() <= v@.len() && v@.skip(v@.len() - suffix@.len()) == suffix@),
{
    let p = chars_of(suffix);
    if p.len() > v.len() {
        return false;
    }
    let off = v.len() - p.len();
    let mut i: usize = 0;
    while i < p.len()
        invariant
            p@ == suffix@,
            off + p@.len() == v@.len(),
            v@.len() == v.len(),
            i <= p@.len(),
            forall|k: int| 0 <= k < i ==> v@[off + k] == p@[k],
        decreases p@.len() - i,
    {
        if v[off + i] != p[i] {
            assert(v@.skip(off as int)[i as int] != p@[i as int]);
            return false;
        }
        i = i + 1;
    }
    assert(v@.skip(off as int) =~= p@);
    true
}

/// The position of the first `c` in `v[from..]`, or `v.len()`.
pub fn find_char(v: &[char], from: usize, c: char) -> (i: usize)
    requires
        from <= v@.len(),
    ensures
        from <= i <= v@.len(),
        i - from == index_of(v@.skip(from as int), c),
{
    let mut i = from;
    while i < v.len() && v[i] != c
        invariant
            from <= i <= v@.len(),
            forall|k: int| from <= k < i ==> v@[k] != c,
        decreases v@.len() - i,
    {
        i = i + 1;
    }
    proof {
        let t = v@.skip(from as int);
        assert forall|k: int| 0 <= k < i - from implies #[trigger] t[k] != c by {
            assert(t[k] == v@[from + k]);
        }
        lemma_index_of_at(t, c, i - from);
    }
    i
}

/// `str::lines`, as character vectors.
pub fn split_lines(v: &[char]) -> (r: Vec<Vec<char>>)
    ensures
        r@.len() == lines(v@).len(),
        forall|k: int| 0 <= k < r@.len() ==> #[trigger] r@[k]@ == lines(v@)[k],
{
    let mut r: Vec<Vec<char>> = Vec::new();
    let mut start: usize = 0;
    assert(v@.skip(0) =~= v@);
    assert(r@.map_values(|x: Vec<char>| x@) =~= Seq::<Seq<char>>::empty());
    while start < v.len()
        invariant
            start <= v@.len(),
            lines(v@) == r@.map_values(|x: Vec<char>| x@) + lines(v@.skip(start as int)),
        decreases v@.len() - start,
    {
        let ghost t = v@.skip(start as int);
        let i = find_char(v, start, '\n');
        if i < v.len() {
            let mut end = i;
            if end > start && v[end - 1] == '\r' {
                end = end - 1;
            }
            let line = slice_range(v, start, end);
            proof {
                assert(t.take(i - start) =~= v@.subrange(start as int, i as int));
                assert(t.skip(i - start + 1) =~= v@.skip(i + 1));
                assert(strip_cr(t.take(i - start)) =~= v@.subrange(start as int, end as int));
            }
            let ghost before = r@;
            r.push(line);
            proof {
                assert(r@.map_values(|x: Vec<char>| x@) =~= before.map_values(|x: Vec<char>| x@).push(
                    v@.subrange(start as int, end as int),
                ));
            }
            start = i + 1;
        } else {
            let line = slice_range(v, start, v.len());
            proof {
                assert(t =~= v@.subrange(start as int, v@.len() as int));
            }
            let ghost before = r@;
            r.push(line);
            proof {
                assert(r@.map_values(|x: Vec<char>| x@) =~= before.map_values(|x: Vec<char>| x@).push(t));
                assert(v@.skip(v@.len() as int) =~= Seq::<char>::empty());
            }
            start = v.len();
        }
    }
    proof {
        assert(v@.skip(start as int) =~= Seq::<char>::empty());
        assert(r@.map_values(|x: Vec<char>| x@) =~= lines(v@));
    }
    r
}

/// `str::split(c)`, as character vectors.
pub fn split_char(v: &[char], c: char) -> (r: Vec<Vec<char>>)
    ensures
        r@.len() == split(v@, c).len(),
        forall|k: int| 0 <= k < r@.len() ==> #[trigger] r@[k]@ == split(v@, c)[k],
{
    let mut r: Vec<Vec<char>> = Vec::new();
    let mut start: usize = 0;
    assert(v@.skip(0) =~= v@);
    assert(r@.map_values(|x: Vec<char>| x@) =~= Seq::<Seq<char>>::empty());
    loop
        invariant
            start <= v@.len(),
            split(v@, c) == r@.map_values(|x: Vec<char>| x@) + split(v@.skip(start as int), c),
        decreases v@.len() - start,
    {
        let ghost t = v@.skip(start as int);
        let i = find_char(v, start, c);
        let piece = slice_range(v, start, i);
        let ghost before = r@;
        r.push(piece);
        proof {
            assert(t.take(i - start) =~= v@.subrange(start as int, i as int));
            assert(r@.map_values(|x: Vec<char>| x@) =~= before.map_values(|x: Vec<char>| x@).push(
                v@.subrange(start as int, i as int),
            ));
        }
        if i < v.len() {
            proof {
                assert(t.skip(i - start + 1) =~= v@.skip(i + 1));
            }
            start = i + 1;
        } else {
            proof {
                assert(t =~= v@.subrange(start as int, i as int));
                assert(r@.map_values(|x: Vec<char>| x@) =~= split(v@, c));
            }
            return r;
        }
    }
}


/// Characters kept as they are by name sanitisation.
pub open spec fn is_name_char(c: char) -> bool {
    is_ascii_alnum(c) || c == '_' || c == '-'
}

/// A character after sanitisation: kept if allowed, `'_'` otherwise.
pub open spec fn name_char(c: char) -> char {
    if is_name_char(c) {
        c
    } else {
        '_'
    }
}

/// `s` with every run of consecutive `'_'` shortened to a single `'_'`.
pub open spec fn squeeze(s: Seq<char>) -> Seq<char>
    decreases s.len(),
{
    if s.len() == 0 {
        s
    } else {
        let prev = squeeze(s.drop_last());
        if s.last() == '_' && prev.len() > 0 && prev.last() == '_' {
            prev
        } else {
            prev.push(s.last())
        }
    }
}

/// Trimming twice is trimming once.
pub proof fn lemma_trim_idempotent(s: Seq<char>)
    ensures
        trim(trim(s)) == trim(s),
{
    let p = CharPat::Whitespace;
    lemma_lead_count_meaning(s, p);
    let a = trim_start_pat(s, p);
    lemma_trail_count_meaning(a, p);
    let t = trim(s);
    if t.len() > 0 {
        assert(t[0] == a[0]);
        assert(a[0] == s[lead_count(s, p) as int]);
        assert(t.last() == a[a.len() - trail_count(a, p) - 1]);
        assert(lead_count(t, p) == 0);
        assert(trail_count(t, p) == 0);
        assert(t.skip(0) =~= t);
        assert(t.take(t.len() as int) =~= t);
    } else {
        assert(trim(t) =~= t);
    }
}

/// Sanitised name: trimmed, disallowed characters replaced by `'_'`, and runs
/// of `'_'` collapsed to one.
pub open spec fn sanitize(s: Seq<char>) -> Seq<char> {
    squeeze(trim(s).map_values(|c: char| name_char(c)))
}

/// Whether `s` holds at least one allowed name character.
pub open spec fn has_name_char(s: Seq<char>) -> bool {
    exists|i: int| 0 <= i < s.len() && is_name_char(s[i])
}

/// Holds only allowed name characters and no two `'_'` in a row.
pub open spec fn is_clean_name(s: Seq<char>) -> bool {
    &&& forall|i: int| 0 <= i < s.len() ==> is_name_char(#[trigger] s[i])
    &&& forall|i: int| 0 <= i < s.len() - 1 ==> !(#[trigger] s[i] == '_' && s[i + 1] == '_')
}

pub proof fn lemma_squeeze_len(s: Seq<char>)
    ensures
        s.len() > 0 ==> squeeze(s).len() > 0,
        squeeze(s).len() <= s.len(),
    decreases s.len(),
{
    if s.len() > 0 {
        lemma_squeeze_len(s.drop_last());
    }
}

/// Squeezing keeps the characters it is given and leaves no `"__"`.
pub proof fn lemma_squeeze_clean(s: Seq<char>)
    requires
        forall|i: int| 0 <= i < s.len() ==> is_name_char(#[trigger] s[i]),
    ensures
        is_clean_name(squeeze(s)),
        s.len() > 0 ==> squeeze(s).last() == s.last(),
    decreases s.len(),
{
    if s.len() > 0 {
        let t = s.drop_last();
        assert forall|i: int| 0 <= i < t.len() implies is_name_char(#[trigger] t[i]) by {
            assert(t[i] == s[i]);
        }
        lemma_squeeze_clean(t);
        let prev = squeeze(t);
        if s.last() == '_' && prev.len() > 0 && prev.last() == '_' {
        } else {
            let r = prev.push(s.last());
            assert forall|i: int| 0 <= i < r.len() implies is_name_char(#[trigger] r[i]) by {
                if i < prev.len() {
                    assert(r[i] == prev[i]);
                }
            }
            assert forall|i: int| 0 <= i < r.len() - 1 implies !(#[trigger] r[i] == '_' && r[i + 1] == '_') by {
                if i < prev.len() - 1 {
                    assert(r[i] == prev[i]);
                    assert(r[i + 1] == prev[i + 1]);
                } else {
                    assert(r[i] == prev.last());
                }
            }
        }
    }
}

/// A clean name is left unchanged by squeezing.
pub proof fn lemma_squeeze_clean_fixed(s: Seq<char>)
    requires
        is_clean_name(s),
    ensures
        squeeze(s) == s,
    decreases s.len(),
{
    if s.len() > 0 {
        let t = s.drop_last();
        assert forall|i: int| 0 <= i < t.len() implies is_name_char(#[trigger] t[i]) by {
            assert(t[i] == s[i]);
        }
        assert forall|i: int| 0 <= i < t.len() - 1 implies !(#[trigger] t[i] == '_' && t[i + 1] == '_') by {
            assert(t[i] == s[i]);
            assert(t[i + 1] == s[i + 1]);
        }
        lemma_squeeze_clean_fixed(t);
        if t.len() > 0 {
            assert(s[s.len() - 2] == t.last());
        }
        assert(s =~= t.push(s.last()));
    }
}

pub proof fn lemma_no_ws_trim_fixed(s: Seq<char>)
    requires
        forall|i: int| 0 <= i < s.len() ==> !is_ws(#[trigger] s[i]),
    ensures
        trim(s) == s,
{
    if s.len() > 0 {
        assert(!pat_matches(CharPat::Whitespace, s[0]));
        assert(lead_count(s, CharPat::Whitespace) == 0);
        assert(s.skip(0) =~= s);
        assert(!pat_matches(CharPat::Whitespace, s.last()));
        assert(trail_count(s, CharPat::Whitespace) == 0);
        assert(s.take(s.len() as int) =~= s);
    } else {
        assert(trim(s) =~= s);
    }
}

/// Sanitised names are clean, and sanitising a clean name changes nothing.
pub proof fn lemma_sanitize_clean(s: Seq<char>)
    ensures
        is_clean_name(sanitize(s)),
        is_clean_name(s) ==> sanitize(s) == s,
{
    let m = trim(s).map_values(|c: char| name_char(c));
    assert forall|i: int| 0 <= i < m.len() implies is_name_char(#[trigger] m[i]) by {}
    lemma_squeeze_clean(m);
    if is_clean_name(s) {
        assert forall|i: int| 0 <= i < s.len() implies !is_ws(#[trigger] s[i]) by {
            assert(is_name_char(s[i]));
        }
        lemma_no_ws_trim_fixed(s);
        assert(m =~= s);
        lemma_squeeze_clean_fixed(s);
    }
}

/// Sanitises a name (see [`sanitize`]).
pub fn sanitize_str(input: &str) -> (r: String)
    ensures
        r@ == sanitize(input@),
{
    let v = chars_of(input);
    let (a, b) = trim_bounds(v.as_slice(), CharPat::Whitespace);
    let ghost t = v@.subrange(a as int, b as int);
    let ghost m = t.map_values(|c: char| name_char(c));
    let mut out = String::new();
    let mut last_was_underscore = false;
    let mut i = a;
    assert(m.take(0) =~= Seq::<char>::empty());
    while i < b
        invariant
            a <= i <= b <= v@.len(),
            t == v@.subrange(a as int, b as int),
            m == t.map_values(|c: char| name_char(c)),
            out@ == squeeze(m.take(i - a)),
            last_was_underscore == (out@.len() > 0 && out@.last() == '_'),
        decreases b - i,
    {
        let ch = v[i];
        let next = if is_alnum(ch) || ch == '_' || ch == '-' {
            ch
        } else {
            '_'
        };
        proof {
            assert(m.take(i - a + 1).drop_last() =~= m.take(i - a));
            assert(m.take(i - a + 1).last() == next);
        }
        if next == '_' {
            if last_was_underscore {
                i = i + 1;
                continue;
            }
            last_was_underscore = true;
        } else {
            last_was_underscore = false;
        }
        push_char(&mut out, next);
        i = i + 1;
    }
    assert(m.take(b - a) =~= m);
    out
}

/// Whether `v[from..to]` holds an allowed name character.
pub fn has_name_char_in(v: &[char], from: usize, to: usize) -> (r: bool)
    requires
        from <= to <= v@.len(),
    ensures
        r == has_name_char(v@.subrange(from as int, to as int)),
{
    let ghost t = v@.subrange(from as int, to as int);
    let mut i = from;
    while i < to
        invariant
            from <= i <= to <= v@.len(),
            t == v@.subrange(from as int, to as int),
            forall|k: int| from <= k < i ==> !is_name_char(#[trigger] v@[k]),
        decreases to - i,
    {
        let ch = v[i];
        if is_alnum(ch) || ch == '_' || ch == '-' {
            assert(t[i - from] == ch);
            return true;
        }
        i = i + 1;
    }
    assert forall|k: int| 0 <= k < t.len() implies !is_name_char(t[k]) by {
        assert(t[k] == v@[from + k]);
    }
    false
}


/// `a` followed by `b`.
pub fn concat2(a: &str, b: &str) -> (r: String)
    ensures
        r@ == a@ + b@,
{
    let mut s = a.to_owned();
    s.append(b);
    s
}

/// `a`, then `b`, then `c`.
pub fn concat3(a: &str, b: &str, c: &str) -> (r: String)
    ensures
        r@ == a@ + b@ + c@,
{
    let mut s = a.to_owned();
    s.append(b);
    s.append(c);
    s
}


pub proof fn lemma_split_nonempty(s: Seq<char>, c: char)
    ensures
        split(s, c).len() >= 1,
{
    lemma_index_of_meaning(s, c);
}


/// The decimal digit of `d < 10`.
pub open spec fn digit(d: nat) -> char {
    if d == 0 { '0' } else if d == 1 { '1' } else if d == 2 { '2' } else if d == 3 { '3' } else if d == 4 {
        '4'
    } else if d == 5 { '5' } else if d == 6 { '6' } else if d == 7 { '7' } else if d == 8 { '8' } else { '9' }
}

/// The decimal representation of `n`.
pub open spec fn decimal(n: nat) -> Seq<char>
    decreases n,
{
    if n < 10 {
        seq![digit(n)]
    } else {
        decimal(n / 10).push(digit(n % 10))
    }
}

fn digit_char(d: usize) -> (c: char)
    requires
        d < 10,
    ensures
        c == digit(d as nat),
{
    if d == 0 { '0' } else if d == 1 { '1' } else if d == 2 { '2' } else if d == 3 { '3' } else if d == 4 {
        '4'
    } else if d == 5 { '5' } else if d == 6 { '6' } else if d == 7 { '7' } else if d == 8 { '8' } else { '9' }
}

/// `n` written in decimal.
pub fn decimal_string(n: usize) -> (s: String)
    ensures
        s@ == decimal(n as nat),
    decreases n,
{
    if n < 10 {
        let mut s = String::new();
        push_char(&mut s, digit_char(n));
        assert(s@ =~= seq![digit(n as nat)]);
        s
    } else {
        let mut s = decimal_string(n / 10);
        push_char(&mut s, digit_char(n % 10));
        s
    }
}


/// The views of a sequence of strings.
pub open spec fn str_views(v: Seq<String>) -> Seq<Seq<char>> {
    v.map_values(|s: String| s@)
}

/// A copy of a list of strings.
pub fn copy_strings(v: &Vec<String>) -> (r: Vec<String>)
    ensures
        str_views(r@) == str_views(v@),
{
    let mut r: Vec<String> = Vec::new();
    let mut i: usize = 0;
    while i < v.len()
        invariant
            i <= v@.len(),
            str_views(r@) == str_views(v@.take(i as int)),
        decreases v@.len() - i,
    {
        let ghost before = r@;
        r.push(v[i].clone());
        assert(str_views(r@) =~= str_views(before).push(v@[i as int]@));
        assert(str_views(v@.take(i + 1)) =~= str_views(v@.take(i as int)).push(v@[i as int]@));
        i = i + 1;
    }
    assert(v@.take(v@.len() as int) =~= v@);
    r
}

/// A copy of an optional string.
pub fn copy_opt(s: &Option<String>) -> (r: Option<String>)
    ensures
        r == *s,
{
    match s {
        Some(x) => Some(x.clone()),
        None => None,
    }
}

} // verus!
