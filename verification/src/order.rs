//! Lexicographic order on character sequences and a stable sort of names by it.
//!
//! For strings, ordering by code points character by character is the same
//! order as `String`'s own (byte-wise on the UTF-8 encoding).

use vstd::prelude::*;
use vstd::relations::{sorted_by, total_ordering};

verus! {

/// `a` comes before `b` or equals it, comparing character by character, a
/// proper prefix first.
pub open spec fn lex_le(a: Seq<char>, b: Seq<char>) -> bool
    decreases a.len(),
{
    if a.len() == 0 {
        true
    } else if b.len() == 0 {
        false
    } else if a[0] != b[0] {
        a[0] < b[0]
    } else {
        lex_le(a.drop_first(), b.drop_first())
    }
}

pub open spec fn lex_leq() -> spec_fn(Seq<char>, Seq<char>) -> bool {
    |a: Seq<char>, b: Seq<char>| lex_le(a, b)
}

pub proof fn lemma_lex_refl(a: Seq<char>)
    ensures
        lex_le(a, a),
    decreases a.len(),
{
    if a.len() > 0 {
        lemma_lex_refl(a.drop_first());
    }
}

pub proof fn lemma_lex_total(a: Seq<char>, b: Seq<char>)
    ensures
        lex_le(a, b) || lex_le(b, a),
    decreases a.len(),
{
    if a.len() > 0 && b.len() > 0 && a[0] == b[0] {
        lemma_lex_total(a.drop_first(), b.drop_first());
    }
}

pub proof fn lemma_lex_antisym(a: Seq<char>, b: Seq<char>)
    requires
        lex_le(a, b),
        lex_le(b, a),
    ensures
        a == b,
    decreases a.len(),
{
    if a.len() > 0 && b.len() > 0 {
        lemma_lex_antisym(a.drop_first(), b.drop_first());
        assert(a =~= seq![a[0]] + a.drop_first());
        assert(b =~= seq![b[0]] + b.drop_first());
    }
}

pub proof fn lemma_lex_trans(a: Seq<char>, b: Seq<char>, c: Seq<char>)
    requires
        lex_le(a, b),
        lex_le(b, c),
    ensures
        lex_le(a, c),
    decreases a.len(),
{
    if a.len() > 0 && b.len() > 0 && c.len() > 0 && a[0] == b[0] && b[0] == c[0] {
        lemma_lex_trans(a.drop_first(), b.drop_first(), c.drop_first());
    }
}

/// The order in which names are listed is a total order: reflexive,
/// antisymmetric, transitive and total.
pub proof fn law_lex_order_is_total()
    ensures
        total_ordering(lex_leq()),
{
    assert forall|a: Seq<char>| #[trigger] lex_leq()(a, a) by {
        lemma_lex_refl(a);
    }
    assert forall|a: Seq<char>, b: Seq<char>| #[trigger]
        lex_leq()(a, b) && #[trigger] lex_leq()(b, a) implies a == b by {
        lemma_lex_antisym(a, b);
    }
    assert forall|a: Seq<char>, b: Seq<char>, c: Seq<char>| #[trigger]
        lex_leq()(a, b) && #[trigger] lex_leq()(b, c) implies lex_leq()(a, c) by {
        lemma_lex_trans(a, b, c);
    }
    assert forall|a: Seq<char>, b: Seq<char>| #[trigger]
        lex_leq()(a, b) || #[trigger] lex_leq()(b, a) by {
        lemma_lex_total(a, b);
    }
}

/// Whether `a` comes before `b` or equals it.
pub fn lex_le_exec(a: &Vec<char>, b: &Vec<char>) -> (r: bool)
    ensures
        r == lex_le(a@, b@),
{
    let mut i: usize = 0;
    assert(a@.skip(0) =~= a@);
    assert(b@.skip(0) =~= b@);
    while i < a.len() && i < b.len() && a[i] == b[i]
        invariant
            i <= a@.len(),
            i <= b@.len(),
            lex_le(a@, b@) == lex_le(a@.skip(i as int), b@.skip(i as int)),
        decreases a.len() - i,
    {
        assert(a@.skip(i as int).drop_first() =~= a@.skip(i + 1));
        assert(b@.skip(i as int).drop_first() =~= b@.skip(i + 1));
        i = i + 1;
    }
    if i == a.len() {
        true
    } else if i == b.len() {
        false
    } else {
        a[i] < b[i]
    }
}

/// `v` sorted in lexicographic order; equal names keep their order.
pub fn sort_names(v: Vec<Vec<char>>) -> (r: Vec<Vec<char>>)
    ensures
        r@.map_values(|s: Vec<char>| s@).to_multiset() == v@.map_values(
            |s: Vec<char>| s@,
        ).to_multiset(),
        sorted_by(r@.map_values(|s: Vec<char>| s@), lex_leq()),
{
    broadcast use vstd::seq_lib::to_multiset_insert;

    let ghost vv = v@.map_values(|s: Vec<char>| s@);
    let mut out: Vec<Vec<char>> = Vec::new();
    let mut i: usize = 0;
    assert(vv.take(0) =~= Seq::<Seq<char>>::empty());
    assert(out@.map_values(|s: Vec<char>| s@) =~= Seq::<Seq<char>>::empty());
    while i < v.len()
        invariant
            vv == v@.map_values(|s: Vec<char>| s@),
            i <= v@.len(),
            out@.map_values(|s: Vec<char>| s@).to_multiset() == vv.take(i as int).to_multiset(),
            sorted_by(out@.map_values(|s: Vec<char>| s@), lex_leq()),
        decreases v.len() - i,
    {
        let ghost ov = out@.map_values(|s: Vec<char>| s@);
        let x = v[i].clone();
        assert(x@ =~= v@[i as int]@);
        assert(x@ == vv[i as int]);
        let mut p: usize = 0;
        while p < out.len() && lex_le_exec(&out[p], &x)
            invariant
                p <= out@.len(),
                ov == out@.map_values(|s: Vec<char>| s@),
                x@ == vv[i as int],
                forall|q: int| 0 <= q < p ==> lex_le(#[trigger] ov[q], x@),
            decreases out.len() - p,
        {
            p = p + 1;
        }
        proof {
            if p < ov.len() {
                lemma_lex_total(ov[p as int], x@);
            }
        }
        let ghost xv = x@;
        out.insert(p, x);
        proof {
            let nv = out@.map_values(|s: Vec<char>| s@);
            assert(nv =~= ov.insert(p as int, xv));
            vstd::seq_lib::to_multiset_insert(ov, p as int, xv);
            assert(vv.take(i + 1) =~= vv.take(i as int).push(xv));
            assert(vv.take(i as int).push(xv).to_multiset() =~= vv.take(i as int).to_multiset().insert(xv)) by {
                vstd::seq_lib::to_multiset_build(vv.take(i as int), xv);
            }
            assert forall|a: int, b: int| 0 <= a < b < nv.len() implies #[trigger] lex_leq()(
                nv[a],
                nv[b],
            ) by {
                if a < p && b < p {
                    assert(lex_leq()(ov[a], ov[b]));
                } else if a < p && b == p {
                } else if a < p {
                    assert(lex_le(ov[a], xv));
                    assert(lex_le(xv, ov[p as int]));
                    assert(lex_leq()(ov[p as int], ov[b - 1]) || p as int == b - 1);
                    if p as int != b - 1 {
                        lemma_lex_trans(xv, ov[p as int], ov[b - 1]);
                    }
                    lemma_lex_trans(ov[a], xv, ov[b - 1]);
                } else if a == p {
                    assert(lex_le(xv, ov[p as int]));
                    if p as int != b - 1 {
                        assert(lex_leq()(ov[p as int], ov[b - 1]));
                        lemma_lex_trans(xv, ov[p as int], ov[b - 1]);
                    }
                } else {
                    assert(lex_leq()(ov[a - 1], ov[b - 1]));
                }
            }
        }
        i = i + 1;
    }
    assert(vv.take(v@.len() as int) =~= vv);
    out
}

/// Record `a` comes before record `b` in a stable order by `keys`: a smaller
/// key first, and among equal keys the earlier record first.
pub open spec fn stable_before(keys: Seq<i64>, a: int, b: int) -> bool {
    keys[a] < keys[b] || (keys[a] == keys[b] && a < b)
}

/// `p` lists the records `0..keys.len()` in the stable order by `keys`.
pub open spec fn is_stable_order(keys: Seq<i64>, p: Seq<usize>) -> bool {
    &&& p.len() == keys.len()
    &&& forall|i: int| 0 <= i < p.len() ==> #[trigger] p[i] < keys.len()
    &&& forall|i: int, j: int|
        0 <= i < j < p.len() ==> stable_before(keys, #[trigger] p[i] as int, #[trigger] p[j] as int)
}

/// The order in which the records with the given keys (timestamps) come when
/// they are sorted stably by key: the positions of the records, smallest key
/// first, records with equal keys in their input order.
pub fn stable_order_by_key(keys: &Vec<i64>) -> (p: Vec<usize>)
    ensures
        is_stable_order(keys@, p@),
        p@ == stable_order(keys@),
{
    let n = keys.len();
    let mut p: Vec<usize> = Vec::new();
    let mut x: usize = 0;
    while x < n
        invariant
            n == keys@.len(),
            x <= n,
            p@.len() == x,
            forall|i: int| 0 <= i < p@.len() ==> #[trigger] p@[i] < x,
            forall|i: int, j: int|
                0 <= i < j < p@.len() ==> stable_before(keys@, #[trigger] p@[i] as int, #[trigger] p@[j] as int),
        decreases n - x,
    {
        let kx = keys[x];
        let mut j = p.len();
        while j > 0 && keys[p[j - 1]] > kx
            invariant
                n == keys@.len(),
                x < n,
                kx == keys@[x as int],
                j <= p@.len(),
                forall|i: int| 0 <= i < p@.len() ==> #[trigger] p@[i] < x,
                forall|i: int| j <= i < p@.len() ==> keys@[#[trigger] p@[i] as int] > kx,
            decreases j,
        {
            j = j - 1;
        }
        let ghost old_p = p@;
        proof {
            if j > 0 {
                assert forall|i: int| 0 <= i < j implies keys@[#[trigger] old_p[i] as int] <= kx by {
                    if i < j - 1 {
                        assert(stable_before(keys@, old_p[i] as int, old_p[j - 1] as int));
                    }
                }
            }
        }
        p.insert(j, x);
        assert forall|i: int, k: int|
            0 <= i < k < p@.len() implies stable_before(keys@, #[trigger] p@[i] as int, #[trigger] p@[k] as int) by {
            if k < j {
                assert(p@[i] == old_p[i] && p@[k] == old_p[k]);
            } else if k == j {
                assert(p@[i] == old_p[i]);
                assert(keys@[old_p[i] as int] <= kx);
            } else if i == j {
                assert(p@[k] == old_p[k - 1]);
            } else if i < j {
                assert(p@[i] == old_p[i] && p@[k] == old_p[k - 1]);
            } else {
                assert(p@[i] == old_p[i - 1] && p@[k] == old_p[k - 1]);
            }
        }
        assert forall|i: int| 0 <= i < p@.len() implies #[trigger] p@[i] < x + 1 by {
            if i < j {
                assert(p@[i] == old_p[i]);
            } else if i > j {
                assert(p@[i] == old_p[i - 1]);
            }
        }
        x = x + 1;
    }
    proof {
        lemma_stable_order(keys@);
    }
    p
}

/// Index `r` occurs in `p`.
pub open spec fn occurs(p: Seq<usize>, r: int) -> bool {
    exists|i: int| 0 <= i < p.len() && p[i] == r
}

/// A stable order lists every record exactly once, keys never decreasing.
pub proof fn law_stable_order_is_sorted_permutation(keys: Seq<i64>, p: Seq<usize>)
    requires
        is_stable_order(keys, p),
    ensures
        forall|i: int, j: int| 0 <= i < j < p.len() ==> p[i] != p[j],
        forall|i: int, j: int| 0 <= i <= j < p.len() ==> keys[p[i] as int] <= keys[p[j] as int],
        forall|r: int| 0 <= r < keys.len() ==> #[trigger] occurs(p, r),
{
    assert forall|i: int, j: int| 0 <= i <= j < p.len() implies keys[p[i] as int] <= keys[p[j] as int] by {
        if i < j {
            assert(stable_before(keys, p[i] as int, p[j] as int));
        }
    }
    lemma_distinct_indices_cover(keys.len(), p);
}

/// `n` distinct indices below `n` include every index below `n`.
proof fn lemma_distinct_indices_cover(n: nat, p: Seq<usize>)
    requires
        p.len() == n,
        forall|i: int| 0 <= i < p.len() ==> #[trigger] p[i] < n,
        forall|i: int, j: int| 0 <= i < j < p.len() ==> p[i] != p[j],
    ensures
        forall|r: int| 0 <= r < n ==> #[trigger] occurs(p, r),
{
    assert forall|r: int| 0 <= r < n implies #[trigger] occurs(p, r) by {
        if !occurs(p, r) {
            let m = p.map_values(|v: usize| v as int);
            assert forall|i: int, j: int| 0 <= i < j < m.len() implies m[i] != m[j] by {
                assert(p[i] != p[j]);
            }
            m.unique_seq_to_set();
            let below = Set::new(|v: int| 0 <= v < n && v != r);
            assert(m.to_set().subset_of(below)) by {
                assert forall|v: int| m.to_set().contains(v) implies below.contains(v) by {
                    let i = choose|i: int| 0 <= i < m.len() && m[i] == v;
                    assert(p[i] < n);
                }
            }
            vstd::set_lib::lemma_int_range(0, n as int);
            assert(below =~= vstd::set_lib::set_int_range(0, n as int).remove(r));
            vstd::set_lib::lemma_len_subset(m.to_set(), below);
        }
    }
}

/// Two stable orders of the same keys agree up to position `i`.
proof fn lemma_stable_order_prefix(keys: Seq<i64>, p: Seq<usize>, q: Seq<usize>, i: int)
    requires
        is_stable_order(keys, p),
        is_stable_order(keys, q),
        0 <= i < p.len(),
    ensures
        forall|j: int| 0 <= j <= i ==> p[j] == q[j],
    decreases i,
{
    if i > 0 {
        lemma_stable_order_prefix(keys, p, q, i - 1);
    }
    law_stable_order_is_sorted_permutation(keys, p);
    law_stable_order_is_sorted_permutation(keys, q);
    let r = p[i] as int;
    assert(occurs(q, r));
    let k = choose|k: int| 0 <= k < q.len() && q[k] == r;
    if k < i {
        assert(p[k] == q[k]);
        assert(false);
    } else if k > i {
        let sv = q[i] as int;
        assert(occurs(p, sv));
        let m = choose|m: int| 0 <= m < p.len() && p[m] == sv;
        if m < i {
            assert(q[m] == p[m]);
            assert(false);
        } else if m == i {
            assert(false);
        } else {
            assert(stable_before(keys, r, sv));
            assert(stable_before(keys, sv, r));
            assert(false);
        }
    }
}

/// There is one stable order of a sequence of keys.
pub proof fn law_stable_order_unique(keys: Seq<i64>, p: Seq<usize>, q: Seq<usize>)
    requires
        is_stable_order(keys, p),
        is_stable_order(keys, q),
    ensures
        p == q,
{
    if p.len() > 0 {
        lemma_stable_order_prefix(keys, p, q, p.len() - 1);
    }
    assert(p =~= q);
}

/// How many records of `q` have a key at most `k`.
pub open spec fn count_key_le(keys: Seq<i64>, q: Seq<usize>, k: i64) -> nat
    decreases q.len(),
{
    if q.len() == 0 {
        0
    } else {
        count_key_le(keys, q.drop_last(), k) + if keys[q.last() as int] <= k {
            1nat
        } else {
            0nat
        }
    }
}

/// The stable order of the first `n` records: each record inserted after the
/// records already placed whose key is at most its own.
pub open spec fn stable_prefix_order(keys: Seq<i64>, n: nat) -> Seq<usize>
    decreases n,
{
    if n == 0 {
        seq![]
    } else {
        let q = stable_prefix_order(keys, (n - 1) as nat);
        q.insert(count_key_le(keys, q, keys[n - 1]) as int, (n - 1) as usize)
    }
}

/// The stable order of all records by `keys`.
pub open spec fn stable_order(keys: Seq<i64>) -> Seq<usize> {
    stable_prefix_order(keys, keys.len())
}

/// In a sequence whose keys never decrease, the records with key at most `k`
/// come first, then those with a larger key.
proof fn lemma_count_key_le_split(keys: Seq<i64>, q: Seq<usize>, k: i64)
    requires
        forall|i: int| 0 <= i < q.len() ==> #[trigger] q[i] < keys.len(),
        forall|i: int, j: int|
            0 <= i <= j < q.len() ==> keys[#[trigger] q[i] as int] <= keys[#[trigger] q[j] as int],
    ensures
        count_key_le(keys, q, k) <= q.len(),
        forall|i: int| 0 <= i < count_key_le(keys, q, k) ==> keys[#[trigger] q[i] as int] <= k,
        forall|i: int| count_key_le(keys, q, k) <= i < q.len() ==> keys[#[trigger] q[i] as int] > k,
    decreases q.len(),
{
    if q.len() > 0 {
        let d = q.drop_last();
        assert forall|i: int, j: int| 0 <= i <= j < d.len() implies keys[#[trigger] d[i] as int] <= keys[#[trigger] d[j] as int] by {
            assert(d[i] == q[i] && d[j] == q[j]);
        }
        lemma_count_key_le_split(keys, d, k);
        let c = count_key_le(keys, d, k) as int;
        let l = q.len() - 1;
        if keys[q.last() as int] <= k {
            assert forall|i: int| 0 <= i < count_key_le(keys, q, k) implies keys[#[trigger] q[i] as int] <= k by {
                assert(keys[q[i] as int] <= keys[q[l] as int]);
            }
            if c < d.len() {
                assert(keys[q[c] as int] <= keys[q[l] as int]);
                assert(d[c] == q[c]);
            }
        } else {
            assert forall|i: int| 0 <= i < count_key_le(keys, q, k) implies keys[#[trigger] q[i] as int] <= k by {
                assert(d[i] == q[i]);
            }
            assert forall|i: int| count_key_le(keys, q, k) <= i < q.len() implies keys[#[trigger] q[i] as int] > k by {
                if i < l {
                    assert(d[i] == q[i]);
                }
            }
        }
    }
}

/// The first `n` records, inserted one by one, are in stable order.
proof fn lemma_stable_prefix_order(keys: Seq<i64>, n: nat)
    requires
        n <= keys.len(),
        keys.len() <= usize::MAX,
    ensures
        stable_prefix_order(keys, n).len() == n,
        forall|i: int| 0 <= i < n ==> #[trigger] stable_prefix_order(keys, n)[i] < n,
        forall|i: int, j: int|
            0 <= i < j < n ==> stable_before(keys, #[trigger] stable_prefix_order(keys, n)[i] as int, #[trigger] stable_prefix_order(keys, n)[j] as int),
    decreases n,
{
    if n > 0 {
        let x = (n - 1) as nat;
        let q = stable_prefix_order(keys, x);
        lemma_stable_prefix_order(keys, x);
        let kx = keys[x as int];
        assert forall|i: int, j: int|
            0 <= i <= j < q.len() implies keys[#[trigger] q[i] as int] <= keys[#[trigger] q[j] as int] by {
            if i < j {
                assert(stable_before(keys, q[i] as int, q[j] as int));
            }
        }
        lemma_count_key_le_split(keys, q, kx);
        let c = count_key_le(keys, q, kx) as int;
        let p = stable_prefix_order(keys, n);
        assert(p == q.insert(c, x as usize));
        assert forall|i: int, k: int| 0 <= i < k < p.len() implies stable_before(keys, #[trigger] p[i] as int, #[trigger] p[k] as int) by {
            if k < c {
                assert(p[i] == q[i] && p[k] == q[k]);
                assert(stable_before(keys, q[i] as int, q[k] as int));
            } else if k == c {
                assert(p[i] == q[i]);
                assert(keys[q[i] as int] <= kx);
            } else if i == c {
                assert(p[k] == q[k - 1]);
                assert(keys[q[k - 1] as int] > kx);
            } else if i < c {
                assert(p[i] == q[i] && p[k] == q[k - 1]);
                assert(stable_before(keys, q[i] as int, q[k - 1] as int));
            } else {
                assert(p[i] == q[i - 1] && p[k] == q[k - 1]);
                assert(stable_before(keys, q[i - 1] as int, q[k - 1] as int));
            }
        }
        assert forall|i: int| 0 <= i < n implies #[trigger] p[i] < n by {
            if i < c {
                assert(p[i] == q[i]);
            } else if i > c {
                assert(p[i] == q[i - 1]);
            }
        }
    }
}

/// The stable order of the keys is a stable order, and the only one.
pub proof fn lemma_stable_order(keys: Seq<i64>)
    requires
        keys.len() <= usize::MAX,
    ensures
        is_stable_order(keys, stable_order(keys)),
        forall|p: Seq<usize>| #[trigger] is_stable_order(keys, p) ==> p == stable_order(keys),
{
    lemma_stable_prefix_order(keys, keys.len());
    assert forall|p: Seq<usize>| #[trigger] is_stable_order(keys, p) implies p == stable_order(keys) by {
        law_stable_order_unique(keys, p, stable_order(keys));
    }
}

/// The last record (largest position) whose key is `t`.
pub open spec fn latest_with_key(keys: Seq<i64>, t: int) -> Option<int>
    decreases keys.len(),
{
    if keys.len() == 0 {
        None
    } else if keys.last() == t {
        Some(keys.len() - 1)
    } else {
        latest_with_key(keys.drop_last(), t)
    }
}

pub proof fn lemma_latest_with_key(keys: Seq<i64>, t: int)
    ensures
        match latest_with_key(keys, t) {
            Some(j) => 0 <= j < keys.len() && keys[j] == t && forall|k: int|
                j < k < keys.len() ==> keys[k] != t,
            None => forall|k: int| 0 <= k < keys.len() ==> keys[k] != t,
        },
    decreases keys.len(),
{
    if keys.len() > 0 && keys.last() != t {
        lemma_latest_with_key(keys.drop_last(), t);
        assert forall|k: int| 0 <= k < keys.len() - 1 implies keys[k] == keys.drop_last()[k] by {}
    }
}

/// The last record whose key is `t` (see `latest_with_key`), found in the stable
/// order `p` of the keys.
pub fn latest_with_key_in_order(keys: &Vec<i64>, p: &Vec<usize>, t: i64) -> (r: Option<usize>)
    requires
        is_stable_order(keys@, p@),
    ensures
        match r {
            Some(j) => latest_with_key(keys@, t as int) == Some(j as int),
            None => latest_with_key(keys@, t as int) is None,
        },
{
    proof {
        law_stable_order_is_sorted_permutation(keys@, p@);
        lemma_latest_with_key(keys@, t as int);
    }
    let mut lo: usize = 0;
    let mut hi: usize = p.len();
    while lo < hi
        invariant
            is_stable_order(keys@, p@),
            lo <= hi <= p@.len(),
            forall|i: int| 0 <= i < lo ==> keys@[#[trigger] p@[i] as int] <= t,
            forall|i: int| hi <= i < p@.len() ==> keys@[#[trigger] p@[i] as int] > t,
            forall|i: int, j: int| 0 <= i <= j < p@.len() ==> keys@[p@[i] as int] <= keys@[p@[j] as int],
        decreases hi - lo,
    {
        let mid = lo + (hi - lo) / 2;
        if keys[p[mid]] <= t {
            assert forall|i: int| 0 <= i < mid + 1 implies keys@[#[trigger] p@[i] as int] <= t by {
                assert(keys@[p@[i] as int] <= keys@[p@[mid as int] as int]);
            }
            lo = mid + 1;
        } else {
            assert forall|i: int| mid <= i < p@.len() implies keys@[#[trigger] p@[i] as int] > t by {
                assert(keys@[p@[mid as int] as int] <= keys@[p@[i] as int]);
            }
            hi = mid;
        }
    }
    if lo == 0 {
        proof {
            assert forall|k: int| 0 <= k < keys@.len() implies keys@[k] != t by {
                assert(occurs(p@, k));
                let i = choose|i: int| 0 <= i < p@.len() && p@[i] == k;
                assert(keys@[p@[i] as int] > t);
            }
        }
        return None;
    }
    let k = lo - 1;
    let j = p[k];
    if keys[j] == t {
        proof {
            assert forall|m: int| j < m < keys@.len() implies keys@[m] != t by {
                if keys@[m] == t {
                    assert(occurs(p@, m));
                    let i = choose|i: int| 0 <= i < p@.len() && p@[i] == m;
                    if i > k {
                        assert(keys@[p@[i] as int] > t);
                    } else if i < k {
                        assert(stable_before(keys@, p@[i] as int, p@[k as int] as int));
                    }
                }
            }
            match latest_with_key(keys@, t as int) {
                Some(q) => {
                    if q < j {
                        assert(keys@[j as int] == t);
                    }
                },
                None => {
                    assert(keys@[j as int] == t);
                },
            }
        }
        Some(j)
    } else {
        proof {
            assert forall|m: int| 0 <= m < keys@.len() implies keys@[m] != t by {
                if keys@[m] == t {
                    assert(occurs(p@, m));
                    let i = choose|i: int| 0 <= i < p@.len() && p@[i] == m;
                    if i <= k {
                        assert(keys@[p@[i] as int] <= keys@[p@[k as int] as int]);
                    } else {
                        assert(keys@[p@[i] as int] > t);
                    }
                }
            }
        }
        None
    }
}

/// Name `a` comes before name `b` in a stable order of names: lexicographically
/// smaller first, and among equal names the earlier one first.
pub open spec fn name_before(names: Seq<Seq<char>>, a: int, b: int) -> bool {
    (lex_le(names[a], names[b]) && names[a] != names[b]) || (names[a] == names[b] && a < b)
}

/// `p` lists the positions `0..names.len()` in the stable order of the names.
pub open spec fn is_name_order(names: Seq<Seq<char>>, p: Seq<usize>) -> bool {
    &&& p.len() == names.len()
    &&& forall|i: int| 0 <= i < p.len() ==> #[trigger] p[i] < names.len()
    &&& forall|i: int, j: int|
        0 <= i < j < p.len() ==> name_before(names, #[trigger] p[i] as int, #[trigger] p[j] as int)
}

/// The order in which named records come when sorted stably by name: their
/// positions, the lexicographically smallest name first, equal names in their
/// input order.
pub fn stable_order_by_name(names: &Vec<String>) -> (p: Vec<usize>)
    ensures
        is_name_order(names@.map_values(|s: String| s@), p@),
{
    let ghost nv = names@.map_values(|s: String| s@);
    let n = names.len();
    let mut cs: Vec<Vec<char>> = Vec::new();
    let mut k: usize = 0;
    while k < n
        invariant
            n == names@.len(),
            nv == names@.map_values(|s: String| s@),
            k <= n,
            cs@.len() == k,
            forall|i: int| 0 <= i < k ==> (#[trigger] cs@[i])@ == nv[i],
        decreases n - k,
    {
        cs.push(crate::text::chars_of(names[k].as_str()));
        k = k + 1;
    }
    let mut p: Vec<usize> = Vec::new();
    let mut x: usize = 0;
    while x < n
        invariant
            n == names@.len(),
            nv == names@.map_values(|s: String| s@),
            cs@.len() == n,
            forall|i: int| 0 <= i < n ==> (#[trigger] cs@[i])@ == nv[i],
            x <= n,
            p@.len() == x,
            forall|i: int| 0 <= i < p@.len() ==> #[trigger] p@[i] < x,
            forall|i: int, j: int|
                0 <= i < j < p@.len() ==> name_before(nv, #[trigger] p@[i] as int, #[trigger] p@[j] as int),
        decreases n - x,
    {
        let mut j = p.len();
        while j > 0 && !lex_le_exec(&cs[p[j - 1]], &cs[x])
            invariant
                n == names@.len(),
                cs@.len() == n,
                forall|i: int| 0 <= i < n ==> (#[trigger] cs@[i])@ == nv[i],
                x < n,
                j <= p@.len(),
                forall|i: int| 0 <= i < p@.len() ==> #[trigger] p@[i] < x,
                forall|i: int| j <= i < p@.len() ==> !lex_le(nv[#[trigger] p@[i] as int], nv[x as int]),
            decreases j,
        {
            j = j - 1;
        }
        let ghost old_p = p@;
        let ghost xv = nv[x as int];
        proof {
            if j > 0 {
                assert(lex_le(nv[old_p[j - 1] as int], xv));
                assert forall|i: int| 0 <= i < j implies lex_le(nv[#[trigger] old_p[i] as int], xv) by {
                    if i < j - 1 {
                        assert(name_before(nv, old_p[i] as int, old_p[j - 1] as int));
                        lemma_lex_refl(nv[old_p[i] as int]);
                        lemma_lex_trans(nv[old_p[i] as int], nv[old_p[j - 1] as int], xv);
                    }
                }
            }
            assert forall|i: int| j <= i < old_p.len() implies name_before(nv, x as int, #[trigger] old_p[i] as int) by {
                lemma_lex_total(nv[old_p[i] as int], xv);
                if nv[old_p[i] as int] == xv {
                    lemma_lex_refl(xv);
                }
            }
            assert forall|i: int| 0 <= i < j implies name_before(nv, #[trigger] old_p[i] as int, x as int) by {
                if nv[old_p[i] as int] != xv {
                } else {
                    assert(old_p[i] < x);
                }
            }
        }
        p.insert(j, x);
        assert forall|i: int, k2: int|
            0 <= i < k2 < p@.len() implies name_before(nv, #[trigger] p@[i] as int, #[trigger] p@[k2] as int) by {
            if k2 < j {
                assert(p@[i] == old_p[i] && p@[k2] == old_p[k2]);
            } else if k2 == j {
                assert(p@[i] == old_p[i]);
            } else if i == j {
                assert(p@[k2] == old_p[k2 - 1]);
            } else if i < j {
                assert(p@[i] == old_p[i] && p@[k2] == old_p[k2 - 1]);
            } else {
                assert(p@[i] == old_p[i - 1] && p@[k2] == old_p[k2 - 1]);
            }
        }
        assert forall|i: int| 0 <= i < p@.len() implies #[trigger] p@[i] < x + 1 by {
            if i < j {
                assert(p@[i] == old_p[i]);
            } else if i > j {
                assert(p@[i] == old_p[i - 1]);
            }
        }
        x = x + 1;
    }
    p
}

} // verus!
