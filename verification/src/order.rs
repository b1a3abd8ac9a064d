//! Ordering: lexicographic order of texts and stable sorting.

use vstd::prelude::*;
use vstd::relations::{sorted_by, strongly_connected, total_ordering, transitive};
use vstd::seq_lib::{
    lemma_sorted_unique, to_multiset_build, to_multiset_contains, to_multiset_insert,
};

use crate::text::{chars_of, texts};

verus! {

/// Lexicographic order by code point, which is also the order of the UTF-8
/// encodings byte by byte.
pub open spec fn lex_le(a: Seq<char>, b: Seq<char>) -> bool
    decreases a.len(),
{
    if a.len() == 0 {
        true
    } else if b.len() == 0 {
        false
    } else if a[0] != b[0] {
        a[0] < b[0]
    } else {
        lex_le(a.drop_first(), b.drop_first())
    }
}

pub proof fn lemma_lex_total(a: Seq<char>, b: Seq<char>)
    ensures
        lex_le(a, b) || lex_le(b, a),
    decreases a.len(),
{
    if a.len() > 0 && b.len() > 0 && a[0] == b[0] {
        lemma_lex_total(a.drop_first(), b.drop_first());
    }
}

pub proof fn lemma_lex_transitive(a: Seq<char>, b: Seq<char>, c: Seq<char>)
    requires
        lex_le(a, b),
        lex_le(b, c),
    ensures
        lex_le(a, c),
    decreases a.len(),
{
    if a.len() > 0 && b.len() > 0 && c.len() > 0 && a[0] == b[0] && b[0] == c[0] {
        lemma_lex_transitive(a.drop_first(), b.drop_first(), c.drop_first());
    }
}

pub proof fn lemma_lex_antisymmetric(a: Seq<char>, b: Seq<char>)
    requires
        lex_le(a, b),
        lex_le(b, a),
    ensures
        a == b,
    decreases a.len(),
{
    if a.len() > 0 && b.len() > 0 {
        lemma_lex_antisymmetric(a.drop_first(), b.drop_first());
        assert(a == seq![a[0]] + a.drop_first());
        assert(b == seq![b[0]] + b.drop_first());
    }
}

/// Whether one text comes no later than another.
pub fn text_le(a: &str, b: &str) -> (r: bool)
    ensures
        r == lex_le(a@, b@),
{
    let x = chars_of(a);
    let y = chars_of(b);
    let mut i: usize = 0;
    proof {
        assert(x@.skip(0) == x@);
        assert(y@.skip(0) == y@);
    }
    while i < x.len() && i < y.len() && x[i] == y[i]
        invariant
            i <= x@.len(),
            i <= y@.len(),
            lex_le(x@, y@) == lex_le(x@.skip(i as int), y@.skip(i as int)),
        decreases x@.len() - i,
    {
        proof {
            assert(x@.skip(i as int).drop_first() == x@.skip(i + 1));
            assert(y@.skip(i as int).drop_first() == y@.skip(i + 1));
        }
        i += 1;
    }
    if i >= x.len() {
        true
    } else if i >= y.len() {
        false
    } else {
        x[i] < y[i]
    }
}

/// Values that can be put in order.
pub trait Rank: Sized {
    /// Whether `self` may stand before `other`.
    spec fn le(&self, other: &Self) -> bool;

    proof fn total(&self, other: &Self)
        ensures
            self.le(other) || other.le(self),
    ;

    proof fn transitive(&self, middle: &Self, other: &Self)
        requires
            self.le(middle),
            middle.le(other),
        ensures
            self.le(other),
    ;

    fn at_most(&self, other: &Self) -> (r: bool)
        ensures
            r == self.le(other),
    ;
}

impl Rank for String {
    open spec fn le(&self, other: &Self) -> bool {
        lex_le(self@, other@)
    }

    proof fn total(&self, other: &Self) {
        lemma_lex_total(self@, other@);
    }

    proof fn transitive(&self, middle: &Self, other: &Self) {
        lemma_lex_transitive(self@, middle@, other@);
    }

    fn at_most(&self, other: &Self) -> (r: bool) {
        text_le(self.as_str(), other.as_str())
    }
}

/// A time stamp that orders latest first.
pub struct Recency {
    pub ts: u64,
}

impl Rank for Recency {
    open spec fn le(&self, other: &Self) -> bool {
        self.ts >= other.ts
    }

    proof fn total(&self, other: &Self) {
    }

    proof fn transitive(&self, middle: &Self, other: &Self) {
    }

    fn at_most(&self, other: &Self) -> (r: bool) {
        self.ts >= other.ts
    }
}

/// Whether `perm` lists each of `0..n` once.
pub open spec fn is_permutation(perm: Seq<usize>, n: int) -> bool {
    &&& perm.len() == n <= usize::MAX
    &&& forall|i: int| 0 <= i < n ==> (#[trigger] perm[i]) < n
    &&& forall|i: int, j: int| 0 <= i < j < n ==> perm[i] != perm[j]
    &&& forall|x: int| 0 <= x < n ==> #[trigger] perm.contains(x as usize)
}

/// Whether `perm` lists the positions of `keys` in rising order, with equal keys
/// in the order in which they stand.
pub open spec fn is_stable_order<K: Rank>(keys: Seq<K>, perm: Seq<usize>) -> bool {
    &&& is_permutation(perm, keys.len() as int)
    &&& forall|i: int, j: int|
        0 <= i < j < perm.len() ==> {
            let a = #[trigger] perm[i];
            let b = #[trigger] perm[j];
            keys[a as int].le(&keys[b as int]) && (keys[b as int].le(&keys[a as int]) ==> a < b)
        }
}

/// The positions of the keys in rising order; equal keys keep their order.
pub fn stable_order<K: Rank>(keys: &Vec<K>) -> (perm: Vec<usize>)
    ensures
        is_stable_order(keys@, perm@),
{
    let n = keys.len();
    let mut perm: Vec<usize> = Vec::new();
    let mut m: usize = 0;
    while m < n
        invariant
            m <= n == keys@.len(),
            is_stable_order(keys@.take(m as int), perm@),
        decreases n - m,
    {
        // Position of the new key: behind every key that may stand before it.
        let mut p: usize = m;
        while p > 0 && !keys[perm[p - 1]].at_most(&keys[m])
            invariant
                p <= m < n == keys@.len(),
                is_stable_order(keys@.take(m as int), perm@),
                forall|q: int|
                    p <= q < m ==> !keys@[#[trigger] perm@[q] as int].le(&keys@[m as int]),
            decreases p,
        {
            p -= 1;
        }
        let ghost old_perm = perm@;
        perm.insert(p, m);
        proof {
            lemma_insert_order(keys@, old_perm, m as int, p as int);
            assert(perm@ == old_perm.insert(p as int, m));
        }
        m += 1;
    }
    proof {
        assert(keys@.take(n as int) == keys@);
    }
    perm
}

proof fn lemma_insert_order<K: Rank>(keys: Seq<K>, perm: Seq<usize>, m: int, p: int)
    requires
        0 <= p <= m < keys.len() <= usize::MAX,
        is_stable_order(keys.take(m), perm),
        p > 0 ==> keys[perm[p - 1] as int].le(&keys[m]),
        forall|q: int| p <= q < m ==> !keys[#[trigger] perm[q] as int].le(&keys[m]),
    ensures
        is_stable_order(keys.take(m + 1), perm.insert(p, m as usize)),
{
    let before = keys.take(m);
    let after = keys.take(m + 1);
    let new = perm.insert(p, m as usize);
    assert forall|i: int| 0 <= i < m + 1 implies #[trigger] new[i] == (if i < p {
        perm[i]
    } else if i == p {
        m as usize
    } else {
        perm[i - 1]
    }) by {}
    assert forall|i: int| 0 <= i < m + 1 implies (#[trigger] new[i]) < m + 1 by {
        if i < p {
            assert(perm[i] < m);
        } else if i > p {
            assert(perm[i - 1] < m);
        }
    }
    assert forall|i: int, j: int| 0 <= i < j < m + 1 implies new[i] != new[j] by {
        if i < p {
            assert(perm[i] < m);
        } else if i > p {
            assert(perm[i - 1] < m);
        }
        if j < p {
            assert(perm[j] < m);
        } else if j > p {
            assert(perm[j - 1] < m);
        }
    }
    assert forall|x: int| 0 <= x < m + 1 implies #[trigger] new.contains(x as usize) by {
        if x == m {
            assert(new[p] == x);
        } else {
            assert(perm.contains(x as usize));
            let i = choose|i: int| 0 <= i < perm.len() && perm[i] == x as usize;
            if i < p {
                assert(new[i] == x);
            } else {
                assert(new[i + 1] == x);
            }
        }
    }
    assert forall|i: int, j: int| 0 <= i < j < new.len() implies {
        let a = #[trigger] new[i];
        let b = #[trigger] new[j];
        after[a as int].le(&after[b as int]) && (after[b as int].le(&after[a as int]) ==> a < b)
    } by {
        let a = new[i];
        let b = new[j];
        if j < p {
            assert(perm[i] < m && perm[j] < m);
            assert(before[perm[i] as int].le(&before[perm[j] as int]));
        } else if j == p {
            assert(perm[i] < m);
            if i < p - 1 {
                assert(perm[p - 1] < m);
                assert(before[perm[i] as int].le(&before[perm[p - 1] as int]));
                keys[a as int].transitive(&keys[perm[p - 1] as int], &keys[m]);
            }
        } else if i < p {
            assert(perm[i] < m && perm[j - 1] < m);
            assert(before[perm[i] as int].le(&before[perm[j - 1] as int]));
        } else if i == p {
            assert(perm[j - 1] < m);
            keys[m].total(&keys[perm[j - 1] as int]);
        } else {
            assert(perm[i - 1] < m && perm[j - 1] < m);
            assert(before[perm[i - 1] as int].le(&before[perm[j - 1] as int]));
        }
    }
}

/// The lexicographic order as a relation.
pub open spec fn lex_order() -> spec_fn(Seq<char>, Seq<char>) -> bool {
    |a: Seq<char>, b: Seq<char>| lex_le(a, b)
}

/// The texts of a list in lexicographic order.
pub open spec fn sorted_texts(s: Seq<Seq<char>>) -> Seq<Seq<char>> {
    s.sort_by(lex_order())
}

proof fn lemma_lex_total_ordering()
    ensures
        total_ordering(lex_order()),
{
    assert forall|a: Seq<char>| lex_le(a, a) by {
        lemma_lex_total(a, a);
    }
    assert forall|a: Seq<char>, b: Seq<char>| lex_le(a, b) && lex_le(b, a) implies a == b by {
        lemma_lex_antisymmetric(a, b);
    }
    assert forall|a: Seq<char>, b: Seq<char>, c: Seq<char>|
        lex_le(a, b) && lex_le(b, c) implies lex_le(a, c) by {
        lemma_lex_transitive(a, b, c);
    }
    assert forall|a: Seq<char>, b: Seq<char>| lex_le(a, b) || lex_le(b, a) by {
        lemma_lex_total(a, b);
    }
}

/// `sorted_texts` is the one list that is in order and holds the same texts,
/// each as often.
pub proof fn lemma_sorted_texts(s: Seq<Seq<char>>, t: Seq<Seq<char>>)
    ensures
        t == sorted_texts(s) <==> sorted_by(t, lex_order()) && t.to_multiset() == s.to_multiset(),
{
    lemma_lex_total_ordering();
    s.lemma_sort_by_ensures(lex_order());
    if sorted_by(t, lex_order()) && t.to_multiset() == s.to_multiset() {
        lemma_sorted_unique(t, sorted_texts(s), lex_order());
    }
}

/// Sorts strings in lexicographic order.
pub fn sort_texts(v: Vec<String>) -> (r: Vec<String>)
    ensures
        texts(r@) == sorted_texts(texts(v@)),
{
    let n = v.len();
    let mut out: Vec<String> = Vec::new();
    let mut m: usize = 0;
    let ghost all = texts(v@);
    proof {
        assert(texts(out@) == all.take(0));
    }
    while m < n
        invariant
            m <= n == v@.len(),
            out@.len() == m,
            all == texts(v@),
            sorted_by(texts(out@), lex_order()),
            texts(out@).to_multiset() == all.take(m as int).to_multiset(),
        decreases n - m,
    {
        let mut p: usize = m;
        while p > 0 && !text_le(out[p - 1].as_str(), v[m].as_str())
            invariant
                p <= m < n == v@.len(),
                out@.len() == m,
                forall|q: int| p <= q < m ==> !lex_le((#[trigger] out@[q])@, v@[m as int]@),
            decreases p,
        {
            p -= 1;
        }
        let ghost before = texts(out@);
        let item = v[m].clone();
        proof {
            let x = item@;
            assert forall|i: int| 0 <= i < p implies #[trigger] lex_le(before[i], x) by {
                assert(lex_le(before[p - 1], x));
                if i < p - 1 {
                    assert(lex_order()(before[i], before[p - 1]));
                    lemma_lex_transitive(before[i], before[p - 1], x);
                }
            }
            assert forall|q: int| p <= q < m implies #[trigger] lex_le(x, before[q]) by {
                assert(!lex_le(out@[q]@, x));
                lemma_lex_total(x, before[q]);
            }
        }
        out.insert(p, item);
        proof {
            let x = item@;
            let after = texts(out@);
            assert(after == before.insert(p as int, x));
            assert forall|i: int, j: int| 0 <= i < j < after.len() implies #[trigger] lex_order()(
                after[i],
                after[j],
            ) by {
                if i != p && j != p {
                    let i0 = if i < p { i } else { i - 1 };
                    let j0 = if j < p { j } else { j - 1 };
                    assert(lex_order()(before[i0], before[j0]));
                }
            }
            to_multiset_insert(before, p as int, x);
            assert(all.take(m + 1) == all.take(m as int).push(x));
            to_multiset_build(all.take(m as int), x);
        }
        m += 1;
    }
    proof {
        assert(all.take(n as int) == all);
        lemma_sorted_texts(all, texts(out@));
    }
    out
}

/// The elements of a list at the positions given by `perm`.
pub open spec fn picked<T>(s: Seq<T>, perm: Seq<usize>) -> Seq<T> {
    perm.map_values(|i: usize| s[i as int])
}

/// Whether `perm` lists the positions of `s` in the order `le`, ties in the
/// order in which they stand.
pub open spec fn orders<T>(s: Seq<T>, perm: Seq<usize>, le: spec_fn(T, T) -> bool) -> bool {
    &&& is_permutation(perm, s.len() as int)
    &&& forall|i: int, j: int|
        0 <= i < j < perm.len() ==> {
            let a = #[trigger] perm[i];
            let b = #[trigger] perm[j];
            le(s[a as int], s[b as int]) && (le(s[b as int], s[a as int]) ==> a < b)
        }
}

/// Whether `after` is `before` in the order `le`, with ties kept in the order
/// in which they stood.
pub open spec fn is_stable_sort<T>(
    before: Seq<T>,
    after: Seq<T>,
    le: spec_fn(T, T) -> bool,
) -> bool {
    exists|perm: Seq<usize>| #[trigger] orders(before, perm, le) && after == picked(before, perm)
}

/// Sorting by keys sorts the elements that the keys belong to.
pub proof fn lemma_sort_by_keys<K: Rank, T>(
    keys: Seq<K>,
    perm: Seq<usize>,
    s: Seq<T>,
    le: spec_fn(T, T) -> bool,
)
    requires
        is_stable_order(keys, perm),
        keys.len() == s.len(),
        forall|i: int, j: int|
            #![trigger keys[i], keys[j]]
            0 <= i < s.len() && 0 <= j < s.len() ==> keys[i].le(&keys[j]) == le(s[i], s[j]),
    ensures
        orders(s, perm, le),
        is_stable_sort(s, picked(s, perm), le),
{
    assert forall|i: int, j: int| 0 <= i < j < perm.len() implies {
        let a = #[trigger] perm[i];
        let b = #[trigger] perm[j];
        le(s[a as int], s[b as int]) && (le(s[b as int], s[a as int]) ==> a < b)
    } by {
        let a = perm[i];
        let b = perm[j];
        assert(keys[a as int].le(&keys[b as int]) == le(s[a as int], s[b as int]));
        assert(keys[b as int].le(&keys[a as int]) == le(s[b as int], s[a as int]));
    }
    assert(orders(s, perm, le));
}

/// A stable sort moves elements only: the sorted list is in order, and each
/// element is there as often as before.
pub proof fn lemma_stable_sort_keeps<T>(before: Seq<T>, after: Seq<T>, le: spec_fn(T, T) -> bool)
    requires
        is_stable_sort(before, after, le),
    ensures
        after.len() == before.len(),
        sorted_by(after, le),
        forall|x: T| #[trigger] after.contains(x) <==> before.contains(x),
{
    let perm = choose|perm: Seq<usize>| #[trigger]
        orders(before, perm, le) && after == picked(before, perm);
    assert forall|i: int, j: int| 0 <= i < j < after.len() implies #[trigger] le(
        after[i],
        after[j],
    ) by {
        assert(after[i] == before[perm[i] as int] && after[j] == before[perm[j] as int]);
    }
    assert forall|x: T| #[trigger] after.contains(x) <==> before.contains(x) by {
        if after.contains(x) {
            let i = choose|i: int| 0 <= i < after.len() && after[i] == x;
            assert(before[perm[i] as int] == x);
        }
        if before.contains(x) {
            let i = choose|i: int| 0 <= i < before.len() && before[i] == x;
            assert(perm.contains(i as usize));
            let k = choose|k: int| 0 <= k < perm.len() && perm[k] == i as usize;
            assert(after[k] == x);
        }
    }
}

/// The order of positions behind a stable sort.
spec fn position_le<T>(s: Seq<T>, le: spec_fn(T, T) -> bool) -> spec_fn(usize, usize) -> bool {
    |a: usize, b: usize|
        le(s[a as int], s[b as int]) && (le(s[b as int], s[a as int]) ==> a <= b)
}

/// A stable sort by a total order has one result.
pub proof fn law_stable_sort_determined<T>(
    before: Seq<T>,
    x: Seq<T>,
    y: Seq<T>,
    le: spec_fn(T, T) -> bool,
)
    requires
        is_stable_sort(before, x, le),
        is_stable_sort(before, y, le),
        strongly_connected(le),
        transitive(le),
    ensures
        x == y,
{
    let p = choose|perm: Seq<usize>| #[trigger]
        orders(before, perm, le) && x == picked(before, perm);
    let q = choose|perm: Seq<usize>| #[trigger]
        orders(before, perm, le) && y == picked(before, perm);
    let r = position_le(before, le);
    let n = before.len() as int;
    assert(total_ordering(r)) by {
        assert forall|a: usize, b: usize| #[trigger] r(a, b) || #[trigger] r(b, a) by {
            assert(le(before[a as int], before[b as int]) || le(before[b as int], before[a as int]));
        }
        assert forall|a: usize, b: usize, c: usize|
            #[trigger] r(a, b) && #[trigger] r(b, c) implies r(a, c) by {
            let (u, v, w) = (before[a as int], before[b as int], before[c as int]);
            assert(le(u, v) && le(v, w));
            assert(le(u, w));
            if le(w, u) {
                assert(le(w, v) && le(v, u));
            }
        }
        assert forall|a: usize| #[trigger] r(a, a) by {
            assert(le(before[a as int], before[a as int]));
        }
    }
    assert(sorted_by(p, r));
    assert(sorted_by(q, r));
    assert(p.no_duplicates());
    assert(q.no_duplicates());
    assert(p.to_multiset() == q.to_multiset()) by {
        p.lemma_multiset_has_no_duplicates();
        q.lemma_multiset_has_no_duplicates();
        broadcast use to_multiset_contains;

        assert forall|v: usize| #[trigger] p.to_multiset().count(v) == q.to_multiset().count(v) by {
            if v < n {
                assert(p.contains(v as int as usize));
                assert(q.contains(v as int as usize));
            }
            assert(p.contains(v) <==> q.contains(v)) by {
                if p.contains(v) {
                    let i = choose|i: int| 0 <= i < p.len() && p[i] == v;
                    assert(p[i] < n);
                }
                if q.contains(v) {
                    let i = choose|i: int| 0 <= i < q.len() && q[i] == v;
                    assert(q[i] < n);
                }
            }
        }
        assert(p.to_multiset() =~= q.to_multiset());
    }
    lemma_sorted_unique(p, q, r);
}

/// The first character in which two texts differ decides which comes first; a text
/// comes before every longer one that begins with it.
pub proof fn law_first_difference_decides(
    p: Seq<char>,
    c: char,
    d: char,
    x: Seq<char>,
    y: Seq<char>,
)
    requires
        c < d,
    ensures
        lex_le(p.push(c) + x, p.push(d) + y),
        !lex_le(p.push(d) + y, p.push(c) + x),
        lex_le(p, p + x),
        x.len() > 0 ==> !lex_le(p + x, p),
    decreases p.len(),
{
    let a = p.push(c) + x;
    let b = p.push(d) + y;
    if p.len() > 0 {
        let q = p.drop_first();
        law_first_difference_decides(q, c, d, x, y);
        assert(a.drop_first() == q.push(c) + x);
        assert(b.drop_first() == q.push(d) + y);
        assert((p + x).drop_first() == q + x);
    } else {
        assert(a[0] == c && b[0] == d);
    }
}

/// Sorting texts puts them in order and keeps each as often as it was.
pub proof fn law_sorted_texts_are_in_order(s: Seq<Seq<char>>)
    ensures
        sorted_texts(s).len() == s.len(),
        sorted_texts(s).to_multiset() == s.to_multiset(),
        forall|x: Seq<char>| #[trigger] sorted_texts(s).contains(x) <==> s.contains(x),
        forall|i: int, j: int|
            0 <= i < j < sorted_texts(s).len() ==> lex_le(
                #[trigger] sorted_texts(s)[i],
                #[trigger] sorted_texts(s)[j],
            ),
{
    broadcast use vstd::seq_lib::group_to_multiset_ensures;

    lemma_sorted_texts(s, sorted_texts(s));
    let t = sorted_texts(s);
    assert(t.len() == t.to_multiset().len());
    assert forall|x: Seq<char>| #[trigger] t.contains(x) <==> s.contains(x) by {
        assert(t.contains(x) <==> t.to_multiset().count(x) > 0);
        assert(s.contains(x) <==> s.to_multiset().count(x) > 0);
    }
    assert forall|i: int, j: int| 0 <= i < j < t.len() implies lex_le(
        #[trigger] t[i],
        #[trigger] t[j],
    ) by {
        assert(lex_order()(t[i], t[j]));
    }
}

/// A stable sort keeps what it sorts and puts it in order; of two elements that may
/// stand in either order, the one that stood first stays first.
pub proof fn law_stable_sort_is_stable<T>(
    before: Seq<T>,
    after: Seq<T>,
    le: spec_fn(T, T) -> bool,
)
    requires
        is_stable_sort(before, after, le),
    ensures
        after.len() == before.len(),
        exists|from: Seq<usize>|
            {
                &&& from.len() == after.len()
                &&& forall|i: int|
                    0 <= i < after.len() ==> (#[trigger] from[i]) < before.len() && after[i]
                        == before[from[i] as int]
                &&& forall|i: int, j: int|
                    0 <= i < j < after.len() ==> from[i] != from[j] && le(
                        after[i],
                        after[j],
                    ) && (le(after[j], after[i]) ==> #[trigger] from[i] < #[trigger] from[j])
            },
{
    let perm = choose|perm: Seq<usize>| #[trigger]
        orders(before, perm, le) && after == picked(before, perm);
    assert forall|i: int| 0 <= i < after.len() implies (#[trigger] perm[i]) < before.len()
        && after[i] == before[perm[i] as int] by {}
}

} // verus!
