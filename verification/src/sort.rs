//! Sorting by a textual key.
use vstd::prelude::*;
use vstd::seq_lib::*;

use crate::text::{lemma_lex_le_antisym, lemma_lex_le_refl, lemma_lex_le_total, lemma_lex_le_trans, lex_le, str_le};

verus! {

/// Values that sort by a string key, such as a name.
pub trait SortKey: View + Sized {
    /// The key of a value, over its view.
    spec fn key_of(v: Self::V) -> Seq<char>;

    /// The key of `self`.
    fn key(&self) -> (k: &str)
        ensures
            k@ == Self::key_of(self@),
    ;
}

impl SortKey for String {
    open spec fn key_of(v: Seq<char>) -> Seq<char> {
        v
    }

    fn key(&self) -> (k: &str) {
        self.as_str()
    }
}

impl SortKey for (String, String) {
    open spec fn key_of(v: (Seq<char>, Seq<char>)) -> Seq<char> {
        v.0
    }

    fn key(&self) -> (k: &str) {
        self.0.as_str()
    }
}

/// `s` is in non-decreasing key order.
pub open spec fn sorted_by_key<T: SortKey>(s: Seq<T::V>) -> bool {
    forall|i: int, j: int| 0 <= i < j < s.len() ==> lex_le(T::key_of(s[i]), T::key_of(s[j]))
}

/// The views of the elements of `v`.
pub open spec fn views<T: View>(v: Seq<T>) -> Seq<T::V> {
    v.map_values(|x: T| x@)
}

proof fn lemma_insert_multiset<A>(s: Seq<A>, p: int, x: A)
    requires
        0 <= p <= s.len(),
    ensures
        s.insert(p, x).to_multiset() =~= s.to_multiset().insert(x),
{
    broadcast use group_to_multiset_ensures;

    let a = s.take(p);
    let b = s.skip(p);
    assert(s =~= a + b);
    assert(s.insert(p, x) =~= a.push(x) + b);
    lemma_multiset_commutative(a, b);
    lemma_multiset_commutative(a.push(x), b);
}

/// Strings in non-decreasing lexicographic order.
pub open spec fn sorted_strs(q: Seq<Seq<char>>) -> bool {
    forall|i: int, j: int| 0 <= i < j < q.len() ==> lex_le(q[i], q[j])
}

/// `names` sorted: the sorted sequence with the same elements, counted with
/// repeats (there is exactly one, see [`lemma_sorted_unique`]).
pub open spec fn sorted_of(names: Seq<Seq<char>>) -> Seq<Seq<char>> {
    choose|q: Seq<Seq<char>>| sorted_strs(q) && q.to_multiset() == names.to_multiset()
}

/// Strings sorted by key are sorted.
pub proof fn lemma_sorted_strings(q: Seq<Seq<char>>)
    requires
        sorted_by_key::<String>(q),
    ensures
        sorted_strs(q),
        sorted_of(q) == q,
{
    assert forall|i: int, j: int| 0 <= i < j < q.len() implies lex_le(q[i], q[j]) by {
        assert(lex_le(<String as SortKey>::key_of(q[i]), <String as SortKey>::key_of(q[j])));
    }
    let c = sorted_of(q);
    assert(sorted_strs(q) && q.to_multiset() == q.to_multiset());
    lemma_sorted_unique(c, q);
}

/// Some sorted sequence has the elements of `names`, so [`sorted_of`] is one.
pub proof fn lemma_sorted_of_exists(names: Seq<Seq<char>>)
    ensures
        sorted_strs(sorted_of(names)),
        sorted_of(names).to_multiset() == names.to_multiset(),
    decreases names.len(),
{
    broadcast use group_to_multiset_ensures;

    if names.len() == 0 {
        assert(sorted_strs(names));
    } else {
        let rest = names.drop_last();
        let x = names.last();
        lemma_sorted_of_exists(rest);
        let q = sorted_of(rest);
        let p = insert_position(q, x);
        lemma_insert_position(q, x);
        let r = q.insert(p as int, x);
        assert(names =~= rest.push(x));
        lemma_insert_multiset(q, p as int, x);
        assert(r.to_multiset() =~= names.to_multiset());
        assert forall|i: int, j: int| 0 <= i < j < r.len() implies lex_le(r[i], r[j]) by {
            if i < p && j == p {
                lemma_lex_le_total(x, q[i]);
            } else if i < p && j > p {
                assert(r[i] == q[i] && r[j] == q[j - 1]);
            } else if i == p && j > p {
                assert(r[j] == q[j - 1]);
                if j - 1 > p {
                    lemma_lex_le_trans(x, q[p as int], q[j - 1]);
                }
            } else if i > p {
                assert(r[i] == q[i - 1] && r[j] == q[j - 1]);
            } else {
                assert(r[i] == q[i] && r[j] == q[j]);
            }
        }
        assert(sorted_strs(r) && r.to_multiset() == names.to_multiset());
    }
}

/// Where `x` goes in sorted `q`: before the first element not below it.
pub open spec fn insert_position(q: Seq<Seq<char>>, x: Seq<char>) -> nat
    decreases q.len(),
{
    if q.len() == 0 || lex_le(x, q[0]) {
        0
    } else {
        1 + insert_position(q.drop_first(), x)
    }
}

proof fn lemma_insert_position(q: Seq<Seq<char>>, x: Seq<char>)
    ensures
        insert_position(q, x) <= q.len(),
        forall|k: int| 0 <= k < insert_position(q, x) ==> !lex_le(x, #[trigger] q[k]),
        insert_position(q, x) < q.len() ==> lex_le(x, q[insert_position(q, x) as int]),
    decreases q.len(),
{
    if q.len() > 0 && !lex_le(x, q[0]) {
        lemma_insert_position(q.drop_first(), x);
        assert forall|k: int| 0 <= k < insert_position(q, x) implies !lex_le(x, #[trigger] q[k]) by {
            if k > 0 {
                assert(q[k] == q.drop_first()[k - 1]);
            }
        }
    }
}

/// Two sorted sequences with the same elements are equal.
pub proof fn lemma_sorted_unique(a: Seq<Seq<char>>, b: Seq<Seq<char>>)
    requires
        sorted_strs(a),
        sorted_strs(b),
        a.to_multiset() == b.to_multiset(),
    ensures
        a == b,
    decreases a.len(),
{
    broadcast use group_to_multiset_ensures;

    if a.len() == 0 {
        assert(b.len() == 0);
        assert(a =~= b);
    } else {
        to_multiset_len(a);
        to_multiset_len(b);
        assert(b.len() == a.len());
        to_multiset_contains(a, a[0]);
        assert(a.to_multiset().count(a[0]) > 0);
        to_multiset_contains(b, a[0]);
        assert(b.contains(a[0]));
        let j = choose|j: int| 0 <= j < b.len() && b[j] == a[0];
        if j > 0 {
            assert(lex_le(b[0], b[j]));
        } else {
            lemma_lex_le_refl(b[0]);
        }
        to_multiset_contains(b, b[0]);
        assert(b.to_multiset().count(b[0]) > 0);
        to_multiset_contains(a, b[0]);
        assert(a.contains(b[0]));
        let i = choose|i: int| 0 <= i < a.len() && a[i] == b[0];
        if i > 0 {
            assert(lex_le(a[0], a[i]));
        } else {
            lemma_lex_le_refl(a[0]);
        }
        lemma_lex_le_antisym(a[0], b[0]);
        to_multiset_remove(a, 0);
        to_multiset_remove(b, 0);
        assert(a.remove(0) =~= a.drop_first());
        assert(b.remove(0) =~= b.drop_first());
        assert forall|x: int, y: int| 0 <= x < y < a.drop_first().len() implies lex_le(
            a.drop_first()[x],
            a.drop_first()[y],
        ) by {
            assert(a.drop_first()[x] == a[x + 1] && a.drop_first()[y] == a[y + 1]);
        }
        assert forall|x: int, y: int| 0 <= x < y < b.drop_first().len() implies lex_le(
            b.drop_first()[x],
            b.drop_first()[y],
        ) by {
            assert(b.drop_first()[x] == b[x + 1] && b.drop_first()[y] == b[y + 1]);
        }
        lemma_sorted_unique(a.drop_first(), b.drop_first());
        assert(a =~= seq![a[0]] + a.drop_first());
        assert(b =~= seq![b[0]] + b.drop_first());
    }
}

/// Whether a value's key is `k`.
pub open spec fn key_is<T: SortKey>(k: Seq<char>) -> spec_fn(T::V) -> bool {
    |v: T::V| T::key_of(v) == k
}

/// The values of `s` whose key is `k`, in their order in `s`.
pub open spec fn with_key<T: SortKey>(s: Seq<T::V>, k: Seq<char>) -> Seq<T::V> {
    s.filter(key_is::<T>(k))
}

/// `s` sorted by key, values with equal keys kept in their order in `s`
/// (there is exactly one such sequence, see [`lemma_stable_unique`]).
pub open spec fn sorted_stably<T: SortKey>(s: Seq<T::V>) -> Seq<T::V> {
    choose|q: Seq<T::V>| sorted_by_key::<T>(q) && forall|k: Seq<char>| #[trigger] with_key::<T>(q, k) == with_key::<T>(s, k)
}

proof fn lemma_with_key_none<T: SortKey>(s: Seq<T::V>, k: Seq<char>)
    requires
        forall|i: int| 0 <= i < s.len() ==> T::key_of(#[trigger] s[i]) != k,
    ensures
        with_key::<T>(s, k) == Seq::<T::V>::empty(),
    decreases s.len(),
{
    reveal(Seq::filter);
    if s.len() > 0 {
        lemma_with_key_none::<T>(s.drop_last(), k);
    }
}

proof fn lemma_with_key_single<T: SortKey>(x: T::V, k: Seq<char>)
    ensures
        with_key::<T>(seq![x], k) == (if T::key_of(x) == k {
            seq![x]
        } else {
            Seq::<T::V>::empty()
        }),
{
    reveal(Seq::filter);
    let pred = key_is::<T>(k);
    assert(seq![x].drop_last() =~= Seq::<T::V>::empty());
    assert(seq![x].last() == x);
    assert(Seq::<T::V>::empty().filter(pred) =~= Seq::<T::V>::empty());
    assert(Seq::<T::V>::empty().push(x) =~= seq![x]);
    assert(pred(x) == (T::key_of(x) == k));
    assert(seq![x].filter(pred) == if pred(x) {
        seq![x].drop_last().filter(pred).push(x)
    } else {
        seq![x].drop_last().filter(pred)
    });
}

proof fn lemma_with_key_cons<T: SortKey>(x: T::V, s: Seq<T::V>, k: Seq<char>)
    ensures
        with_key::<T>(seq![x] + s, k) == with_key::<T>(seq![x], k) + with_key::<T>(s, k),
{
    Seq::filter_distributes_over_add(seq![x], s, key_is::<T>(k));
}

proof fn lemma_with_key_insert<T: SortKey>(s: Seq<T::V>, p: int, x: T::V, k: Seq<char>)
    requires
        0 <= p <= s.len(),
        forall|i: int| 0 <= i < p ==> T::key_of(#[trigger] s[i]) != T::key_of(x),
    ensures
        with_key::<T>(s.insert(p, x), k) == with_key::<T>(seq![x], k) + with_key::<T>(s, k),
{
    let a = s.take(p);
    let b = s.skip(p);
    assert(s =~= a + b);
    assert(s.insert(p, x) =~= a + (seq![x] + b));
    Seq::filter_distributes_over_add(a, b, key_is::<T>(k));
    Seq::filter_distributes_over_add(a, seq![x] + b, key_is::<T>(k));
    lemma_with_key_cons::<T>(x, b, k);
    lemma_with_key_single::<T>(x, k);
    if T::key_of(x) == k {
        assert forall|i: int| 0 <= i < a.len() implies T::key_of(#[trigger] a[i]) != k by {
            assert(a[i] == s[i]);
        }
        lemma_with_key_none::<T>(a, k);
        assert(with_key::<T>(s.insert(p, x), k) =~= with_key::<T>(seq![x], k) + with_key::<T>(s, k));
    } else {
        assert(with_key::<T>(s.insert(p, x), k) =~= with_key::<T>(seq![x], k) + with_key::<T>(s, k));
    }
}

proof fn lemma_sorted_tail<T: SortKey>(a: Seq<T::V>)
    requires
        sorted_by_key::<T>(a),
        a.len() > 0,
    ensures
        sorted_by_key::<T>(a.drop_first()),
        a =~= seq![a[0]] + a.drop_first(),
{
    assert forall|i: int, j: int| 0 <= i < j < a.drop_first().len() implies lex_le(
        T::key_of(a.drop_first()[i]),
        T::key_of(a.drop_first()[j]),
    ) by {
        assert(a.drop_first()[i] == a[i + 1] && a.drop_first()[j] == a[j + 1]);
    }
}

/// A sorted sequence holding a value with key `k` starts with a key no
/// greater than `k`.
proof fn lemma_first_key_least<T: SortKey>(a: Seq<T::V>, k: Seq<char>)
    requires
        sorted_by_key::<T>(a),
        a.len() > 0,
        with_key::<T>(a, k).len() > 0,
    ensures
        lex_le(T::key_of(a[0]), k),
{
    if forall|i: int| 0 <= i < a.len() ==> T::key_of(#[trigger] a[i]) != k {
        lemma_with_key_none::<T>(a, k);
    }
    let j = choose|i: int| 0 <= i < a.len() && !(T::key_of(#[trigger] a[i]) != k);
    if j > 0 {
        assert(lex_le(T::key_of(a[0]), T::key_of(a[j])));
    } else {
        lemma_lex_le_refl(k);
    }
}

/// Two sequences sorted by key, with the same values for each key in the
/// same order, are equal.
pub proof fn lemma_stable_unique<T: SortKey>(a: Seq<T::V>, b: Seq<T::V>)
    requires
        sorted_by_key::<T>(a),
        sorted_by_key::<T>(b),
        forall|k: Seq<char>| #[trigger] with_key::<T>(a, k) == with_key::<T>(b, k),
    ensures
        a == b,
    decreases a.len(),
{
    if a.len() == 0 || b.len() == 0 {
        if b.len() > 0 {
            let k = T::key_of(b[0]);
            lemma_sorted_tail::<T>(b);
            lemma_with_key_cons::<T>(b[0], b.drop_first(), k);
            lemma_with_key_single::<T>(b[0], k);
            lemma_with_key_none::<T>(a, k);
            assert(with_key::<T>(b, k).len() > 0);
            assert(with_key::<T>(a, k) == with_key::<T>(b, k));
        }
        if a.len() > 0 {
            let k = T::key_of(a[0]);
            lemma_sorted_tail::<T>(a);
            lemma_with_key_cons::<T>(a[0], a.drop_first(), k);
            lemma_with_key_single::<T>(a[0], k);
            lemma_with_key_none::<T>(b, k);
            assert(with_key::<T>(a, k).len() > 0);
            assert(with_key::<T>(a, k) == with_key::<T>(b, k));
        }
        assert(a =~= b);
    } else {
        let ka = T::key_of(a[0]);
        let kb = T::key_of(b[0]);
        let a1 = a.drop_first();
        let b1 = b.drop_first();
        lemma_sorted_tail::<T>(a);
        lemma_sorted_tail::<T>(b);
        lemma_with_key_cons::<T>(a[0], a1, ka);
        lemma_with_key_single::<T>(a[0], ka);
        lemma_with_key_cons::<T>(b[0], b1, kb);
        lemma_with_key_single::<T>(b[0], kb);
        assert(with_key::<T>(a, ka).len() > 0);
        assert(with_key::<T>(b, kb).len() > 0);
        assert(with_key::<T>(b, ka) == with_key::<T>(a, ka));
        assert(with_key::<T>(a, kb) == with_key::<T>(b, kb));
        lemma_first_key_least::<T>(b, ka);
        lemma_first_key_least::<T>(a, kb);
        lemma_lex_le_antisym(ka, kb);
        assert(ka == kb);
        let wa = with_key::<T>(a1, ka);
        let wb = with_key::<T>(b1, ka);
        assert(seq![a[0]] + wa == seq![b[0]] + wb);
        assert((seq![a[0]] + wa)[0] == a[0]);
        assert((seq![b[0]] + wb)[0] == b[0]);
        assert(a[0] == b[0]);
        assert(wa =~= (seq![a[0]] + wa).drop_first());
        assert(wb =~= (seq![b[0]] + wb).drop_first());
        assert forall|k: Seq<char>| #[trigger] with_key::<T>(a1, k) == with_key::<T>(b1, k) by {
            lemma_with_key_cons::<T>(a[0], a1, k);
            lemma_with_key_single::<T>(a[0], k);
            lemma_with_key_cons::<T>(b[0], b1, k);
            lemma_with_key_single::<T>(b[0], k);
            assert(with_key::<T>(a, k) == with_key::<T>(b, k));
            if k != ka {
                assert(with_key::<T>(a1, k) =~= with_key::<T>(a, k));
                assert(with_key::<T>(b1, k) =~= with_key::<T>(b, k));
            }
        }
        lemma_stable_unique::<T>(a1, b1);
    }
}

/// Sorts `v` by key.
pub fn sort_by_key<T: SortKey>(v: Vec<T>) -> (r: Vec<T>)
    ensures
        sorted_by_key::<T>(views(r@)),
        views(r@).to_multiset() == views(v@).to_multiset(),
        r@.len() == v@.len(),
        forall|k: Seq<char>| #[trigger] with_key::<T>(views(r@), k) == with_key::<T>(views(v@), k),
        views(r@) == sorted_stably::<T>(views(v@)),
{
    broadcast use group_to_multiset_ensures;

    let ghost orig = v@;
    let mut src = v;
    let mut r: Vec<T> = Vec::new();
    let n = src.len();
    // Elements are taken from the back, so each new element goes before
    // the equal keys already placed.
    while src.len() > 0
        invariant
            n == orig.len(),
            src@ == orig.take(src@.len() as int),
            sorted_by_key::<T>(views(r@)),
            views(r@).to_multiset() == views(orig.skip(src@.len() as int)).to_multiset(),
            r@.len() + src@.len() == n,
            forall|k: Seq<char>|
                #[trigger] with_key::<T>(views(r@), k) == with_key::<T>(views(orig.skip(src@.len() as int)), k),
        decreases src@.len(),
    {
        let ghost before = src@;
        let x = src.pop().unwrap();
        let ghost m = src@.len() as int;
        // position: first element whose key is >= x's key
        let mut p: usize = 0;
        while p < r.len() && !str_le(x.key(), r[p].key())
            invariant
                p <= r@.len(),
                forall|k: int|
                    0 <= k < p ==> !lex_le(T::key_of(x@), T::key_of(#[trigger] r@[k]@)),
            decreases r@.len() - p,
        {
            p = p + 1;
        }
        let ghost old_r = r@;
        r.insert(p, x);
        proof {
            assert(views(r@) =~= views(old_r).insert(p as int, x@));
            lemma_insert_multiset(views(old_r), p as int, x@);
            assert(orig.skip(m) =~= seq![x].add(orig.skip(m + 1)));
            assert(views(orig.skip(m)) =~= views(orig.skip(m + 1)).insert(0, x@));
            lemma_insert_multiset(views(orig.skip(m + 1)), 0, x@);
            assert(src@ =~= orig.take(m));
            let kx = T::key_of(x@);
            lemma_lex_le_refl(kx);
            assert forall|i: int| 0 <= i < p implies T::key_of(#[trigger] views(old_r)[i]) != kx by {
                assert(views(old_r)[i] == old_r[i]@);
            }
            assert(views(orig.skip(m)) =~= seq![x@] + views(orig.skip(m + 1)));
            assert forall|k: Seq<char>| #[trigger] with_key::<T>(views(r@), k) == with_key::<T>(views(orig.skip(m)), k) by {
                lemma_with_key_insert::<T>(views(old_r), p as int, x@, k);
                lemma_with_key_cons::<T>(x@, views(orig.skip(m + 1)), k);
            }
            assert forall|i: int, j: int| 0 <= i < j < views(r@).len() implies lex_le(
                T::key_of(views(r@)[i]),
                T::key_of(views(r@)[j]),
            ) by {
                let ki = T::key_of(views(r@)[i]);
                let kj = T::key_of(views(r@)[j]);
                if i < p && j == p {
                    assert(views(r@)[i] == old_r[i]@);
                    lemma_lex_le_total(kx, T::key_of(old_r[i]@));
                } else if i < p && j > p {
                    assert(views(r@)[i] == old_r[i]@);
                    assert(views(r@)[j] == old_r[j - 1]@);
                } else if i == p && j > p {
                    assert(views(r@)[j] == old_r[j - 1]@);
                    if p < old_r.len() {
                        assert(lex_le(kx, T::key_of(old_r[p as int]@)));
                        if j - 1 > p {
                            assert(views(old_r)[p as int] == old_r[p as int]@);
                            assert(views(old_r)[j - 1] == old_r[j - 1]@);
                            assert(lex_le(T::key_of(old_r[p as int]@), T::key_of(old_r[j - 1]@)));
                            lemma_lex_le_trans(kx, T::key_of(old_r[p as int]@), kj);
                        }
                    }
                } else if i > p {
                    assert(views(r@)[i] == old_r[i - 1]@);
                    assert(views(r@)[j] == old_r[j - 1]@);
                } else {
                    assert(views(r@)[i] == old_r[i]@);
                    assert(views(r@)[j] == old_r[j]@);
                }
            }
        }
    }
    proof {
        assert(orig.skip(0) =~= orig);
        let c = sorted_stably::<T>(views(orig));
        assert(sorted_by_key::<T>(views(r@)) && forall|k: Seq<char>| #[trigger] with_key::<T>(views(r@), k) == with_key::<T>(views(orig), k));
        lemma_stable_unique::<T>(c, views(r@));
    }
    r
}

} // verus!
