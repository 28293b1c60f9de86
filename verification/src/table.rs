//! Facts about tables held as sequences of rows: keys that occur once,
//! rows kept by a filter, and orderings of rows by a sort key.

use vstd::prelude::*;
use crate::text::{lemma_text_le_total, lemma_text_le_transitive, text_le, text_le_exec};

verus! {

/// No two rows of `s` share a key.
pub open spec fn unique_by<T, K>(s: Seq<T>, key: spec_fn(T) -> K) -> bool {
    forall|i: int, j: int|
        0 <= i < s.len() && 0 <= j < s.len() && i != j ==> key(s[i]) != key(s[j])
}

/// Some row of `s` has the key `k`.
pub open spec fn has_key<T, K>(s: Seq<T>, key: spec_fn(T) -> K, k: K) -> bool {
    exists|i: int| 0 <= i < s.len() && key(s[i]) == k
}

pub proof fn lemma_in_filter_from<T>(s: Seq<T>, p: spec_fn(T) -> bool, k: int)
    requires
        0 <= k < s.filter(p).len(),
    ensures
        exists|m: int| 0 <= m < s.len() && s[m] == s.filter(p)[k],
{
    assert(s.filter(p).contains(s.filter(p)[k]));
    s.lemma_filter_contains_rev(p, s.filter(p)[k]);
}

/// The rows a filter keeps still have distinct keys.
pub proof fn lemma_filter_unique<T, K>(s: Seq<T>, p: spec_fn(T) -> bool, key: spec_fn(T) -> K)
    requires
        unique_by(s, key),
    ensures
        unique_by(s.filter(p), key),
    decreases s.len(),
{
    reveal(Seq::filter);
    if s.len() > 0 {
        lemma_filter_unique(s.drop_last(), p, key);
        assert(unique_by(s.drop_last(), key)) by {
            assert forall|i: int, j: int|
                0 <= i < s.drop_last().len() && 0 <= j < s.drop_last().len() && i
                    != j implies key(s.drop_last()[i]) != key(s.drop_last()[j]) by {
                assert(s.drop_last()[i] == s[i]);
                assert(s.drop_last()[j] == s[j]);
            }
        }
        let sub = s.drop_last().filter(p);
        if p(s.last()) {
            assert(s.filter(p) == sub.push(s.last()));
            assert forall|i: int, j: int|
                0 <= i < s.filter(p).len() && 0 <= j < s.filter(p).len() && i != j implies key(
                s.filter(p)[i],
            ) != key(s.filter(p)[j]) by {
                if i < sub.len() && j < sub.len() {
                } else if i < sub.len() {
                    lemma_in_filter_from(s.drop_last(), p, i);
                } else if j < sub.len() {
                    lemma_in_filter_from(s.drop_last(), p, j);
                }
            }
        }
    }
}

/// A filter that keeps no row leaves nothing.
pub proof fn lemma_filter_drops_all<T>(s: Seq<T>, p: spec_fn(T) -> bool)
    requires
        forall|i: int| 0 <= i < s.len() ==> !p(#[trigger] s[i]),
    ensures
        s.filter(p) == Seq::<T>::empty(),
    decreases s.len(),
{
    reveal(Seq::filter);
    if s.len() > 0 {
        lemma_filter_drops_all(s.drop_last(), p);
    }
}

/// `s` begins with the rows of `t`, in order.
pub open spec fn extends<T>(s: Seq<T>, t: Seq<T>) -> bool {
    t.len() <= s.len() && forall|i: int| 0 <= i < t.len() ==> #[trigger] s[i] == t[i]
}

/// A filter that keeps every row changes nothing.
pub proof fn lemma_filter_keeps_all<T>(s: Seq<T>, p: spec_fn(T) -> bool)
    requires
        forall|i: int| 0 <= i < s.len() ==> p(#[trigger] s[i]),
    ensures
        s.filter(p) == s,
    decreases s.len(),
{
    reveal(Seq::filter);
    if s.len() > 0 {
        lemma_filter_keeps_all(s.drop_last(), p);
        assert(s.drop_last().push(s.last()) =~= s);
    }
}

/// A row whose key is new keeps the keys distinct.
pub proof fn lemma_push_unique<T, K>(s: Seq<T>, x: T, key: spec_fn(T) -> K)
    requires
        unique_by(s, key),
        !has_key(s, key, key(x)),
    ensures
        unique_by(s.push(x), key),
{
    assert forall|i: int, j: int|
        0 <= i < s.push(x).len() && 0 <= j < s.push(x).len() && i != j implies key(s.push(x)[i])
        != key(s.push(x)[j]) by {
        if i < s.len() && j < s.len() {
        } else if i < s.len() {
            assert(key(s[i]) != key(x));
        } else if j < s.len() {
            assert(key(s[j]) != key(x));
        }
    }
}

/// Rows rewritten in place without changing their keys keep the keys distinct.
pub proof fn lemma_same_keys_unique<T, K>(s: Seq<T>, t: Seq<T>, key: spec_fn(T) -> K)
    requires
        unique_by(s, key),
        s.len() == t.len(),
        forall|i: int| 0 <= i < s.len() ==> key(#[trigger] t[i]) == key(s[i]),
    ensures
        unique_by(t, key),
{
    assert forall|i: int, j: int|
        0 <= i < t.len() && 0 <= j < t.len() && i != j implies key(t[i]) != key(t[j]) by {
        assert(key(t[i]) == key(s[i]));
        assert(key(t[j]) == key(s[j]));
    }
}

/// `p` lists each of `0..n` once.
pub open spec fn is_perm(p: Seq<usize>, n: int) -> bool {
    &&& p.len() == n
    &&& forall|i: int| 0 <= i < p.len() ==> p[i] < n
    &&& forall|i: int, j: int| 0 <= i < p.len() && 0 <= j < p.len() && i != j ==> p[i] != p[j]
}

/// `result` holds the rows of `src`, each once, in some order.
pub open spec fn arranged<T>(result: Seq<T>, src: Seq<T>) -> bool {
    exists|p: Seq<usize>|
        is_perm(p, src.len() as int) && result.len() == src.len() && forall|k: int|
            0 <= k < result.len() ==> result[k] == src[#[trigger] p[k] as int]
}

/// A total preorder on sort keys, with its executable comparison.
pub trait SortKey: Sized {
    spec fn key_le(self, other: Self) -> bool;

    proof fn lemma_key_total(a: Self, b: Self)
        ensures
            a.key_le(b) || b.key_le(a),
    ;

    proof fn lemma_key_transitive(a: Self, b: Self, c: Self)
        requires
            a.key_le(b),
            b.key_le(c),
        ensures
            a.key_le(c),
    ;

    fn key_le_exec(&self, other: &Self) -> (r: bool)
        ensures
            r == self.key_le(*other),
    ;
}

/// Texts in code-point order.
impl SortKey for String {
    open spec fn key_le(self, other: Self) -> bool {
        text_le(self@, other@)
    }

    proof fn lemma_key_total(a: Self, b: Self) {
        lemma_text_le_total(a@, b@);
    }

    proof fn lemma_key_transitive(a: Self, b: Self, c: Self) {
        lemma_text_le_transitive(a@, b@, c@);
    }

    fn key_le_exec(&self, other: &Self) -> (r: bool) {
        text_le_exec(self.as_str(), other.as_str())
    }
}

/// Texts in reverse code-point order (newest time stamp first).
pub struct NewestFirst(pub String);

impl SortKey for NewestFirst {
    open spec fn key_le(self, other: Self) -> bool {
        text_le(other.0@, self.0@)
    }

    proof fn lemma_key_total(a: Self, b: Self) {
        lemma_text_le_total(a.0@, b.0@);
    }

    proof fn lemma_key_transitive(a: Self, b: Self, c: Self) {
        lemma_text_le_transitive(c.0@, b.0@, a.0@);
    }

    fn key_le_exec(&self, other: &Self) -> (r: bool) {
        text_le_exec(other.0.as_str(), self.0.as_str())
    }
}

/// A rank, then a text breaking ties.
pub struct RankKey {
    pub rank: i64,
    pub stamp: String,
}

impl SortKey for RankKey {
    open spec fn key_le(self, other: Self) -> bool {
        self.rank < other.rank || (self.rank == other.rank && text_le(self.stamp@, other.stamp@))
    }

    proof fn lemma_key_total(a: Self, b: Self) {
        lemma_text_le_total(a.stamp@, b.stamp@);
    }

    proof fn lemma_key_transitive(a: Self, b: Self, c: Self) {
        if a.rank == b.rank && b.rank == c.rank {
            lemma_text_le_transitive(a.stamp@, b.stamp@, c.stamp@);
        }
    }

    fn key_le_exec(&self, other: &Self) -> (r: bool) {
        self.rank < other.rank || (self.rank == other.rank && text_le_exec(
            self.stamp.as_str(),
            other.stamp.as_str(),
        ))
    }
}

/// Integers in ascending order.
impl SortKey for i64 {
    open spec fn key_le(self, other: Self) -> bool {
        self <= other
    }

    proof fn lemma_key_total(a: Self, b: Self) {
    }

    proof fn lemma_key_transitive(a: Self, b: Self, c: Self) {
    }

    fn key_le_exec(&self, other: &Self) -> (r: bool) {
        *self <= *other
    }
}

/// `perm` lists the keys in non-decreasing order.
pub open spec fn sorted_perm<K: SortKey>(perm: Seq<usize>, keys: Seq<K>) -> bool {
    forall|a: int, b: int|
        0 <= a < b < perm.len() ==> #[trigger] keys[perm[a] as int].key_le(
            #[trigger] keys[perm[b] as int],
        )
}

/// A stable insertion sort of positions by key: the result lists each
/// position of `keys` once, in non-decreasing key order.
pub fn sort_order<K: SortKey>(keys: &Vec<K>) -> (perm: Vec<usize>)
    ensures
        is_perm(perm@, keys@.len() as int),
        sorted_perm(perm@, keys@),
{
    let n = keys.len();
    let mut perm: Vec<usize> = Vec::new();
    let mut i: usize = 0;
    while i < n
        invariant
            n == keys@.len(),
            i <= n,
            is_perm(perm@, i as int),
            sorted_perm(perm@, keys@),
        decreases n - i,
    {
        let mut p = perm.len();
        while p > 0 && !keys[perm[p - 1]].key_le_exec(&keys[i])
            invariant
                n == keys@.len(),
                i < n,
                p <= perm@.len(),
                is_perm(perm@, i as int),
                forall|q: int| p <= q < perm@.len() ==> !keys@[perm@[q] as int].key_le(keys@[i as int]),
            decreases p,
        {
            p = p - 1;
        }
        let ghost old_perm = perm@;
        let ghost ki = keys@[i as int];
        perm.insert(p, i);
        proof {
            assert(perm@ == old_perm.insert(p as int, i));
            assert forall|a: int, b: int| 0 <= a < b < perm@.len() implies #[trigger] keys@[perm@[a] as int].key_le(
                #[trigger] keys@[perm@[b] as int],
            ) by {
                if b < p {
                    assert(perm@[a] == old_perm[a] && perm@[b] == old_perm[b]);
                } else if b == p {
                    assert(perm@[b] == i);
                    assert(perm@[a] == old_perm[a]);
                    assert(keys@[old_perm[p - 1] as int].key_le(ki));
                    if a < p - 1 {
                        K::lemma_key_transitive(keys@[old_perm[a] as int], keys@[old_perm[p - 1] as int], ki);
                    }
                } else if a < p {
                    assert(perm@[a] == old_perm[a] && perm@[b] == old_perm[b - 1]);
                } else if a == p {
                    assert(perm@[a] == i && perm@[b] == old_perm[b - 1]);
                    K::lemma_key_total(ki, keys@[old_perm[b - 1] as int]);
                } else {
                    assert(perm@[a] == old_perm[a - 1] && perm@[b] == old_perm[b - 1]);
                }
            }
            assert forall|x: int, y: int|
                0 <= x < perm@.len() && 0 <= y < perm@.len() && x != y implies perm@[x] != perm@[y] by {
                if x < p && y < p {
                } else if x < p && y > p {
                    assert(perm@[y] == old_perm[y - 1]);
                } else if x > p && y < p {
                    assert(perm@[x] == old_perm[x - 1]);
                } else if x > p && y > p {
                    assert(perm@[x] == old_perm[x - 1] && perm@[y] == old_perm[y - 1]);
                } else if x == p {
                    if y < p {
                        assert(perm@[y] == old_perm[y]);
                    } else {
                        assert(perm@[y] == old_perm[y - 1]);
                    }
                } else {
                    if x < p {
                        assert(perm@[x] == old_perm[x]);
                    } else {
                        assert(perm@[x] == old_perm[x - 1]);
                    }
                }
            }
            assert forall|x: int| 0 <= x < perm@.len() implies perm@[x] < i + 1 by {
                if x < p {
                    assert(perm@[x] == old_perm[x]);
                } else if x > p {
                    assert(perm@[x] == old_perm[x - 1]);
                }
            }
        }
        i = i + 1;
    }
    perm
}

} // verus!
