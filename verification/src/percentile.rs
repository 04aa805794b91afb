//! Turn-duration percentiles: an ascending sort and nearest-rank selection.

use vstd::prelude::*;
use vstd::relations::*;
use vstd::seq_lib::*;

verus! {

broadcast use vstd::seq_lib::group_to_multiset_ensures, vstd::multiset::group_multiset_axioms;

/// The ascending order on durations.
pub open spec fn ascending() -> spec_fn(u64, u64) -> bool {
    |a: u64, b: u64| a <= b
}

/// `s` in ascending order.
pub open spec fn sorted_ascending(s: Seq<u64>) -> Seq<u64> {
    s.sort_by(ascending())
}

/// The rank a percentile picks among `n` sorted values: `p/100 * (n - 1)`
/// rounded to the nearest integer, halves rounded up, capped at the last one.
pub open spec fn percentile_index(n: nat, p: nat) -> nat
    recommends
        n > 0,
{
    let r = (2 * p * (n - 1) + 100) / 200;
    if r < n - 1 {
        r as nat
    } else {
        (n - 1) as nat
    }
}

/// The `p`-th percentile of already-sorted values; 0 when there are none.
pub open spec fn percentile_of(sorted: Seq<u64>, p: nat) -> u64 {
    if sorted.len() == 0 {
        0
    } else {
        sorted[percentile_index(sorted.len(), p) as int]
    }
}

/// `ascending` is a total order.
pub proof fn lemma_ascending_total()
    ensures
        total_ordering(ascending()),
{
}

proof fn lemma_index_at_least_last(n: nat, p: nat)
    requires
        n > 0,
        p >= 100,
    ensures
        (2 * p * (n - 1) + 100) / 200 >= n - 1,
{
    let m: int = n - 1;
    assert(2 * p * m >= 200 * m) by (nonlinear_arith)
        requires
            p >= 100,
            m >= 0,
    ;
    assert((200 * m + 100) / 200 == m) by (nonlinear_arith)
        requires
            m >= 0,
    ;
    assert((2 * p * m + 100) / 200 >= (200 * m + 100) / 200) by (nonlinear_arith)
        requires
            2 * p * m >= 200 * m,
    ;
}

/// Compute the `p`-th percentile (`p` in whole percent) from an
/// already-sorted slice of values.
pub fn percentile_from_sorted(sorted: &[u64], p: u64) -> (res: u64)
    ensures
        res == percentile_of(sorted@, p as nat),
{
    let n = sorted.len();
    if n == 0 {
        return 0;
    }
    let last = n - 1;
    if p >= 100 {
        proof {
            lemma_index_at_least_last(n as nat, p as nat);
        }
        return sorted[last];
    }
    let m = last as u128;
    let q = p as u128;
    assert(2 * q * m < 0x1_0000_0000_0000_0000_0000) by (nonlinear_arith)
        requires
            q < 100,
            m < 0x1_0000_0000_0000_0000,
    ;
    let r = (2 * q * m + 100) / 200;
    if r < m {
        sorted[r as usize]
    } else {
        sorted[last]
    }
}

proof fn lemma_insert_to_multiset(s: Seq<u64>, pos: int, x: u64)
    requires
        0 <= pos <= s.len(),
    ensures
        s.insert(pos, x).to_multiset() == s.to_multiset().insert(x),
{
    let t = s.insert(pos, x);
    assert(t.remove(pos) =~= s);
    assert(t.to_multiset().remove(x) == s.to_multiset());
    assert(t.contains(x)) by {
        assert(t[pos] == x);
    }
    assert(t.to_multiset() =~= s.to_multiset().insert(x));
}

/// `values` in ascending order.
pub fn sort_ascending(values: &Vec<u64>) -> (res: Vec<u64>)
    ensures
        res@ == sorted_ascending(values@),
{
    let mut out: Vec<u64> = Vec::new();
    let mut i: usize = 0;
    while i < values.len()
        invariant
            i <= values@.len(),
            sorted_by(out@, ascending()),
            out@.to_multiset() == values@.take(i as int).to_multiset(),
        decreases values.len() - i,
    {
        let x = values[i];
        let mut pos: usize = 0;
        while pos < out.len() && out[pos] <= x
            invariant
                pos <= out@.len(),
                forall|j: int| 0 <= j < pos ==> out@[j] <= x,
            decreases out.len() - pos,
        {
            pos = pos + 1;
        }
        let ghost before = out@;
        out.insert(pos, x);
        proof {
            lemma_insert_to_multiset(before, pos as int, x);
            assert(values@.take(i + 1) =~= values@.take(i as int).push(x));
            assert forall|a: int, b: int| 0 <= a < b < out@.len() implies #[trigger] ascending()(
                out@[a],
                out@[b],
            ) by {
                if b < pos {
                    assert(ascending()(before[a], before[b]));
                } else if b == pos {
                } else if a < pos {
                    assert(out@[b] == before[b - 1]);
                    if pos < before.len() {
                        assert(ascending()(before[pos as int], before[b - 1]) || pos == b - 1);
                    }
                } else if a == pos {
                    assert(out@[b] == before[b - 1]);
                    if pos < b - 1 {
                        assert(ascending()(before[pos as int], before[b - 1]));
                    }
                } else {
                    assert(ascending()(before[a - 1], before[b - 1]));
                }
            }
        }
        i = i + 1;
    }
    proof {
        assert(values@.take(values@.len() as int) =~= values@);
        lemma_ascending_total();
        values@.lemma_sort_by_ensures(ascending());
        lemma_sorted_unique(out@, sorted_ascending(values@), ascending());
    }
    out
}

} // verus!
