//! Stable ordering by integer keys.
use vstd::prelude::*;

verus! {

/// Position `a` comes before position `b`: by key, and by position among equal keys.
pub open spec fn before(keys: Seq<u64>, a: int, b: int) -> bool {
    keys[a] < keys[b] || (keys[a] == keys[b] && a < b)
}

/// `p` lists every position of `keys` exactly once, in stable key order:
/// ascending keys, and equal keys in their original order.
pub open spec fn is_stable_order(keys: Seq<u64>, p: Seq<usize>) -> bool {
    &&& p.len() == keys.len()
    &&& forall|i: int| 0 <= i < p.len() ==> #[trigger] p[i] < keys.len()
    &&& forall|i: int, j: int| 0 <= i < j < p.len() ==> p[i] != p[j]
    &&& forall|i: int, j: int|
        0 <= i < j < p.len() ==> before(keys, #[trigger] p[i] as int, #[trigger] p[j] as int)
}

/// The positions of `keys` in stable key order (a stable sort of the positions).
pub fn stable_order(keys: &Vec<u64>) -> (p: Vec<usize>)
    ensures
        is_stable_order(keys@, p@),
{
    let n = keys.len();
    let mut p: Vec<usize> = Vec::new();
    let mut k: usize = 0;
    while k < n
        invariant
            k <= n,
            n == keys@.len(),
            p@.len() == k,
            forall|i: int| 0 <= i < k ==> p@[i] == i,
        decreases n - k,
    {
        p.push(k);
        k += 1;
    }
    let mut i: usize = 0;
    while i < n
        invariant
            n == keys@.len(),
            i <= n,
            p@.len() == n,
            forall|a: int| 0 <= a < n ==> #[trigger] p@[a] < n,
            forall|a: int, b: int| 0 <= a < b < n ==> p@[a] != p@[b],
            forall|a: int, b: int|
                0 <= a < b < n && a < i ==> before(keys@, #[trigger] p@[a] as int, #[trigger] p@[b] as int),
        decreases n - i,
    {
        let mut m = i;
        let mut j = i + 1;
        while j < n
            invariant
                n == keys@.len(),
                p@.len() == n,
                i <= m < j <= n,
                forall|a: int| 0 <= a < n ==> #[trigger] p@[a] < n,
                forall|a: int, b: int| 0 <= a < b < n ==> p@[a] != p@[b],
                forall|c: int| i <= c < j && c != m ==> before(keys@, p@[m as int] as int, #[trigger] p@[c] as int),
            decreases n - j,
        {
            let pj = p[j];
            let pm = p[m];
            if keys[pj] < keys[pm] || (keys[pj] == keys[pm] && pj < pm) {
                proof {
                    assert forall|c: int| i <= c < j + 1 && c != j implies before(
                        keys@,
                        p@[j as int] as int,
                        #[trigger] p@[c] as int,
                    ) by {
                        if c != m {
                            assert(before(keys@, p@[m as int] as int, p@[c] as int));
                        }
                    }
                }
                m = j;
            } else {
                assert(p@[j as int] != p@[m as int]);
            }
            j += 1;
        }
        let pi = p[i];
        let pm = p[m];
        let ghost old_p = p@;
        p.set(i, pm);
        p.set(m, pi);
        proof {
            assert forall|a: int, b: int| 0 <= a < b < n implies p@[a] != p@[b] by {
                if a == i as int || a == m as int || b == i as int || b == m as int {
                    if a != i && a != m {
                        assert(p@[a] == old_p[a]);
                    }
                    if b != i && b != m {
                        assert(p@[b] == old_p[b]);
                    }
                } else {
                    assert(p@[a] == old_p[a] && p@[b] == old_p[b]);
                }
            }
            assert forall|a: int, b: int| 0 <= a < b < n && a < i + 1 implies before(
                keys@,
                #[trigger] p@[a] as int,
                #[trigger] p@[b] as int,
            ) by {
                if a < i {
                    if b != i && b != m {
                        assert(p@[b] == old_p[b]);
                    }
                    assert(p@[a] == old_p[a]);
                } else {
                    assert(a == i);
                    if b == m {
                        assert(p@[b] == old_p[i as int]);
                    } else {
                        assert(p@[b] == old_p[b]);
                    }
                }
            }
        }
        i += 1;
    }
    p
}

/// Some entry of `p` is `v`.
pub open spec fn lists(p: Seq<usize>, v: int) -> bool {
    exists|i: int| 0 <= i < p.len() && p[i] == v
}

/// A sequence of `n` distinct positions below `n` lists every position:
/// it is a permutation.
pub proof fn lemma_distinct_covers(p: Seq<usize>, n: nat)
    requires
        p.len() == n,
        forall|i: int| 0 <= i < p.len() ==> #[trigger] p[i] < n,
        forall|i: int, j: int| 0 <= i < j < p.len() ==> p[i] != p[j],
    ensures
        forall|v: int| 0 <= v < n ==> #[trigger] lists(p, v),
{
    let q = Seq::new(p.len(), |i: int| p[i] as int);
    assert forall|a: int, b: int| 0 <= a < q.len() && 0 <= b < q.len() && a != b implies q[a]
        != q[b] by {
        if a < b {
            assert(p[a] != p[b]);
        } else {
            assert(p[b] != p[a]);
        }
    }
    assert(q.no_duplicates());
    q.unique_seq_to_set();
    vstd::set_lib::lemma_int_range(0, n as int);
    let r = vstd::set_lib::set_int_range(0, n as int);
    assert forall|x: int| q.to_set().contains(x) implies r.contains(x) by {
        let i = choose|i: int| 0 <= i < q.len() && q[i] == x;
        assert(p[i] < n);
    }
    vstd::set_lib::lemma_len_subset(q.to_set(), r);
    vstd::set_lib::lemma_subset_equality(q.to_set(), r);
    assert forall|v: int| 0 <= v < n implies #[trigger] lists(p, v) by {
        assert(r.contains(v));
        assert(q.to_set().contains(v));
        let i = choose|i: int| 0 <= i < q.len() && q[i] == v;
        assert(p[i] == v);
    }
}

/// A stable order lists every position: it is a permutation.
pub proof fn lemma_stable_order_covers(keys: Seq<u64>, p: Seq<usize>)
    requires
        is_stable_order(keys, p),
    ensures
        forall|v: int| 0 <= v < keys.len() ==> #[trigger] lists(p, v),
{
    lemma_distinct_covers(p, keys.len());
}

proof fn lemma_increasing_lower(p: Seq<usize>, i: int)
    requires
        0 <= i < p.len(),
        forall|a: int, b: int| 0 <= a < b < p.len() ==> p[a] < p[b],
    ensures
        p[i] >= i,
    decreases i,
{
    if i > 0 {
        lemma_increasing_lower(p, i - 1);
        assert(p[i - 1] < p[i]);
    }
}

proof fn lemma_increasing_upper(p: Seq<usize>, n: nat, i: int)
    requires
        p.len() == n,
        0 <= i < n,
        forall|a: int| 0 <= a < p.len() ==> #[trigger] p[a] < n,
        forall|a: int, b: int| 0 <= a < b < p.len() ==> p[a] < p[b],
    ensures
        p[i] <= i,
    decreases n - i,
{
    if i < n - 1 {
        lemma_increasing_upper(p, n, i + 1);
        assert(p[i] < p[i + 1]);
    } else {
        assert(p[i] < n);
    }
}

/// Ordering keys that are already in ascending order leaves every position
/// where it is: their stable order is the identity.
pub proof fn lemma_sorted_stable_order_is_identity(keys: Seq<u64>, p: Seq<usize>)
    requires
        is_stable_order(keys, p),
        forall|a: int, b: int| 0 <= a < b < keys.len() ==> keys[a] <= keys[b],
    ensures
        forall|i: int| 0 <= i < p.len() ==> p[i] == i,
{
    assert forall|a: int, b: int| 0 <= a < b < p.len() implies p[a] < p[b] by {
        assert(before(keys, p[a] as int, p[b] as int));
        assert(p[a] != p[b]);
        if p[a] > p[b] {
            assert(keys[p[b] as int] <= keys[p[a] as int]);
        }
    }
    assert forall|i: int| 0 <= i < p.len() implies p[i] == i by {
        lemma_increasing_lower(p, i);
        lemma_increasing_upper(p, keys.len(), i);
    }
}

} // verus!
