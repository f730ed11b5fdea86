//! Integer statistics over nanosecond measurements: sum, mean, extrema, a
//! sorted order for the median, and the sample standard deviation with a
//! floor integer square root.

use vstd::prelude::*;
use vstd::arithmetic::div_mod::{lemma_div_is_ordered, lemma_fundamental_div_mod, lemma_mod_bound};
use vstd::multiset::Multiset;
use vstd::relations::{sorted_by, total_ordering};
use vstd::seq_lib::lemma_sorted_unique;

verus! {

/// The order measurements are sorted by.
pub open spec fn leq64() -> spec_fn(u64, u64) -> bool {
    |x: u64, y: u64| x <= y
}

/// `leq64` is a total order.
pub proof fn lemma_leq64_total_ordering()
    ensures
        total_ordering(leq64()),
{
    let r = leq64();
    assert forall|x: u64| #[trigger] r(x, x) by {}
    assert forall|x: u64, y: u64| #[trigger] r(x, y) && #[trigger] r(y, x) implies x == y by {}
    assert forall|x: u64, y: u64, z: u64| #[trigger] r(x, y) && #[trigger] r(y, z) implies r(
        x,
        z,
    ) by {}
    assert forall|x: u64, y: u64| !(#[trigger] r(x, y)) implies #[trigger] r(y, x) by {}
}

/// The sum of a sequence of measurements.
pub open spec fn sum_seq(s: Seq<u64>) -> int
    decreases s.len(),
{
    if s.len() == 0 {
        0
    } else {
        sum_seq(s.drop_last()) + s.last()
    }
}

/// The arithmetic mean, rounded toward zero.
pub open spec fn mean_spec(s: Seq<u64>) -> int {
    sum_seq(s) / (s.len() as int)
}

/// The least element of a non-empty sequence.
pub open spec fn min_seq(s: Seq<u64>) -> u64
    decreases s.len(),
{
    if s.len() <= 1 {
        s[0]
    } else {
        let m = min_seq(s.drop_last());
        if s.last() < m {
            s.last()
        } else {
            m
        }
    }
}

/// The greatest element of a non-empty sequence.
pub open spec fn max_seq(s: Seq<u64>) -> u64
    decreases s.len(),
{
    if s.len() <= 1 {
        s[0]
    } else {
        let m = max_seq(s.drop_last());
        if s.last() > m {
            s.last()
        } else {
            m
        }
    }
}

/// The measurements in ascending order.
pub open spec fn sorted_times(s: Seq<u64>) -> Seq<u64> {
    s.sort_by(leq64())
}

/// The median of a non-empty sequence: the middle element of the sorted
/// order, or, for an even count, the mean of the two middle elements rounded
/// toward zero.
pub open spec fn median_spec(s: Seq<u64>) -> int {
    let t = sorted_times(s);
    let n = s.len() as int;
    if n % 2 == 1 {
        t[n / 2] as int
    } else {
        (t[n / 2 - 1] + t[n / 2]) as int / 2
    }
}

/// The sum of squared deviations from `mean`.
pub open spec fn sq_dev_sum(s: Seq<u64>, mean: int) -> int
    decreases s.len(),
{
    if s.len() == 0 {
        0
    } else {
        sq_dev_sum(s.drop_last(), mean) + (s.last() - mean) * (s.last() - mean)
    }
}

/// The sample variance: squared deviations from the mean over `n - 1`,
/// rounded toward zero.
pub open spec fn variance_spec(s: Seq<u64>) -> int {
    sq_dev_sum(s, mean_spec(s)) / (s.len() as int - 1)
}

/// The floor of the square root of a non-negative integer.
pub open spec fn sqrt_floor(v: int) -> int
    decreases v,
{
    if v <= 0 {
        0
    } else {
        let r = sqrt_floor(v - 1);
        if (r + 1) * (r + 1) <= v {
            r + 1
        } else {
            r
        }
    }
}

/// The sample standard deviation: the floor square root of the sample
/// variance.
pub open spec fn stddev_spec(s: Seq<u64>) -> int {
    sqrt_floor(variance_spec(s))
}

/// `sqrt_floor` is bracketed by the perfect squares around its argument.
pub proof fn lemma_sqrt_floor_bounds(v: int)
    requires
        0 <= v,
    ensures
        0 <= sqrt_floor(v),
        sqrt_floor(v) * sqrt_floor(v) <= v,
        v < (sqrt_floor(v) + 1) * (sqrt_floor(v) + 1),
    decreases v,
{
    if v == 0 {
    } else {
        lemma_sqrt_floor_bounds(v - 1);
        let r = sqrt_floor(v - 1);
        if (r + 1) * (r + 1) <= v {
            assert(v < ((r + 1) + 1) * ((r + 1) + 1)) by (nonlinear_arith)
                requires
                    v - 1 < (r + 1) * (r + 1),
                    0 <= r,
            ;
        }
    }
}

/// Any integer bracketed the same way is the floor square root.
pub proof fn lemma_sqrt_floor_unique(v: int, r: int)
    requires
        0 <= v,
        0 <= r,
        r * r <= v,
        v < (r + 1) * (r + 1),
    ensures
        r == sqrt_floor(v),
{
    let s = sqrt_floor(v);
    lemma_sqrt_floor_bounds(v);
    if r < s {
        assert((r + 1) * (r + 1) <= s * s) by (nonlinear_arith)
            requires
                0 <= r,
                r + 1 <= s,
        ;
    }
    if s < r {
        assert((s + 1) * (s + 1) <= r * r) by (nonlinear_arith)
            requires
                0 <= s,
                s + 1 <= r,
        ;
    }
}

/// A sum of elements each at most `bound` is at most `len * bound`.
pub proof fn lemma_sum_seq_bounded(s: Seq<u64>, bound: int)
    requires
        forall|i: int| 0 <= i < s.len() ==> s[i] <= bound,
        0 <= bound,
    ensures
        0 <= sum_seq(s),
        sum_seq(s) <= s.len() * bound,
    decreases s.len(),
{
    if s.len() == 0 {
    } else {
        let d = s.drop_last();
        assert(forall|i: int| 0 <= i < d.len() ==> d[i] == s[i]);
        lemma_sum_seq_bounded(d, bound);
        assert(d.len() * bound + bound == s.len() * bound) by (nonlinear_arith)
            requires
                d.len() + 1 == s.len(),
        ;
    }
}

/// Division by a positive count keeps a product bound: `x <= n * m` gives
/// `x / n <= m`.
pub proof fn lemma_div_le(x: int, n: int, m: int)
    requires
        0 <= x,
        1 <= n,
        0 <= m,
        x <= n * m,
    ensures
        0 <= x / n,
        x / n <= m,
{
    lemma_fundamental_div_mod(x, n);
    lemma_mod_bound(x, n);
    lemma_div_is_ordered(0, x, n);
    if x / n > m {
        assert(n * (m + 1) <= n * (x / n)) by (nonlinear_arith)
            requires
                1 <= n,
                m + 1 <= x / n,
        ;
        assert(n * (m + 1) == n * m + n) by (nonlinear_arith);
    }
}

/// Sum a sequence of measurements without overflow.
pub fn sum_u128(v: &Vec<u64>) -> (s: u128)
    ensures
        s == sum_seq(v@),
{
    let mut s: u128 = 0;
    let mut i: usize = 0;
    let n: usize = v.len();
    while i < n
        invariant
            0 <= i <= n,
            n == v@.len(),
            s == sum_seq(v@.subrange(0, i as int)),
            s <= (i as int) * (u64::MAX as int),
        decreases n - i,
    {
        proof {
            assert(v@.subrange(0, i as int + 1).drop_last() =~= v@.subrange(0, i as int));
            assert((i as int) * (u64::MAX as int) + u64::MAX == (i as int + 1) * (u64::MAX as int))
                by (nonlinear_arith);
            assert((i as int + 1) * (u64::MAX as int) < u128::MAX) by (nonlinear_arith)
                requires
                    i as int + 1 <= u64::MAX,
            ;
        }
        s = s + (v[i] as u128);
        i += 1;
    }
    proof {
        assert(v@.subrange(0, n as int) =~= v@);
    }
    s
}

/// The arithmetic mean of a non-empty sequence of measurements.
pub fn mean_u64(v: &Vec<u64>) -> (r: u64)
    requires
        v@.len() >= 1,
    ensures
        r == mean_spec(v@),
{
    let s = sum_u128(v);
    let n = v.len();
    let q: u128 = s / (n as u128);
    proof {
        lemma_sum_seq_bounded(v@, u64::MAX as int);
        lemma_div_le(s as int, n as int, u64::MAX as int);
    }
    q as u64
}

/// The least of a non-empty sequence of measurements.
pub fn min_u64(v: &Vec<u64>) -> (r: u64)
    requires
        v@.len() >= 1,
    ensures
        r == min_seq(v@),
{
    let mut r: u64 = v[0];
    let mut i: usize = 1;
    let n: usize = v.len();
    proof {
        assert(v@.subrange(0, 1) =~= seq![v@[0]]);
    }
    while i < n
        invariant
            1 <= i <= n,
            n == v@.len(),
            r == min_seq(v@.subrange(0, i as int)),
        decreases n - i,
    {
        proof {
            assert(v@.subrange(0, i as int + 1).drop_last() =~= v@.subrange(0, i as int));
        }
        if v[i] < r {
            r = v[i];
        }
        i += 1;
    }
    proof {
        assert(v@.subrange(0, n as int) =~= v@);
    }
    r
}

/// The greatest of a non-empty sequence of measurements.
pub fn max_u64(v: &Vec<u64>) -> (r: u64)
    requires
        v@.len() >= 1,
    ensures
        r == max_seq(v@),
{
    let mut r: u64 = v[0];
    let mut i: usize = 1;
    let n: usize = v.len();
    proof {
        assert(v@.subrange(0, 1) =~= seq![v@[0]]);
    }
    while i < n
        invariant
            1 <= i <= n,
            n == v@.len(),
            r == max_seq(v@.subrange(0, i as int)),
        decreases n - i,
    {
        proof {
            assert(v@.subrange(0, i as int + 1).drop_last() =~= v@.subrange(0, i as int));
        }
        if v[i] > r {
            r = v[i];
        }
        i += 1;
    }
    proof {
        assert(v@.subrange(0, n as int) =~= v@);
    }
    r
}

/// Sort measurements ascending; the result is the unique sorted reordering,
/// `sorted_times` of the input.
pub fn sort_u64(v: &Vec<u64>) -> (r: Vec<u64>)
    ensures
        r@ == sorted_times(v@),
        r@.len() == v@.len(),
        sorted_by(r@, leq64()),
{
    let mut work: Vec<u64> = Vec::new();
    let mut i: usize = 0;
    let n: usize = v.len();
    while i < n
        invariant
            0 <= i <= n,
            n == v@.len(),
            work@ == v@.subrange(0, i as int),
        decreases n - i,
    {
        work.push(v[i]);
        proof {
            assert(work@ =~= v@.subrange(0, i as int + 1));
        }
        i += 1;
    }
    proof {
        assert(work@ =~= v@);
        broadcast use vstd::seq_lib::group_to_multiset_ensures;

    }

    let mut out: Vec<u64> = Vec::new();
    while work.len() > 0
        invariant
            out@.to_multiset().add(work@.to_multiset()) == v@.to_multiset(),
            sorted_by(out@, leq64()),
            forall|a: int, b: int|
                0 <= a < out@.len() && 0 <= b < work@.len() ==> out@[a] <= work@[b],
        decreases work.len(),
    {
        // Find the least remaining element.
        let mut m: usize = 0;
        let mut k: usize = 1;
        while k < work.len()
            invariant
                0 < work@.len(),
                0 <= m < k <= work@.len(),
                forall|b: int| 0 <= b < k ==> work@[m as int] <= work@[b],
            decreases work.len() - k,
        {
            if work[k] < work[m] {
                m = k;
            }
            k += 1;
        }
        let ghost out_before = out@;
        let ghost work_before = work@;
        let x = work.remove(m);
        out.push(x);
        proof {
            broadcast use vstd::seq_lib::group_to_multiset_ensures;

            assert(x == work_before[m as int]);
            assert(work@ == work_before.remove(m as int));
            assert(work@.to_multiset() =~= work_before.to_multiset().remove(x));
            assert(out@ == out_before.push(x));
            assert(out@.to_multiset() =~= out_before.to_multiset().insert(x));
            assert(work_before.contains(x));
            assert(work_before.to_multiset().count(x) > 0);
            assert(out@.to_multiset().add(work@.to_multiset()) =~= out_before.to_multiset().add(
                work_before.to_multiset(),
            ));
            // The pushed element is at least every earlier one, so the order
            // is kept.
            let r = leq64();
            assert forall|p: int, q: int| 0 <= p < q < out@.len() implies #[trigger] r(
                out@[p],
                out@[q],
            ) by {
                if q == out@.len() - 1 {
                    assert(out@[p] == out_before[p]);
                    assert(out_before[p] <= work_before[m as int]);
                } else {
                    assert(r(out_before[p], out_before[q]));
                }
            }
            // Everything still waiting is at least the minimum just moved.
            assert forall|a: int, b: int|
                0 <= a < out@.len() && 0 <= b < work@.len() implies out@[a] <= work@[b] by {
                let wb = if b < m { work_before[b] } else { work_before[b + 1] };
                assert(work@[b] == wb);
                assert(work_before[m as int] <= wb);
                if a < out@.len() - 1 {
                    assert(out@[a] == out_before[a]);
                    assert(out_before[a] <= wb);
                } else {
                    assert(out@[a] == work_before[m as int]);
                }
            }
        }
    }
    proof {
        broadcast use vstd::seq_lib::group_to_multiset_ensures;

        assert(work@.to_multiset() =~= Multiset::<u64>::empty());
        assert(out@.to_multiset() =~= v@.to_multiset());
        lemma_leq64_total_ordering();
        v@.lemma_sort_by_ensures(leq64());
        lemma_sorted_unique(out@, v@.sort_by(leq64()), leq64());
        assert(out@ =~= v@.sort_by(leq64()));
        assert(out@.to_multiset().len() == out@.len());
        assert(v@.to_multiset().len() == v@.len());
    }
    out
}

/// The longest single measurement the aggregate accepts, about 78 hours in
/// nanoseconds; it keeps every squared deviation well inside `u128`.
pub const MAX_MEASURED_NANOS: u64 = 0x1_0000_0000_0000;

/// The most measurements one aggregate accepts.
pub const MAX_MEASUREMENTS: usize = 0xffff_ffff;

/// The median of a non-empty sequence of measurements.
pub fn median_u64(v: &Vec<u64>) -> (r: u64)
    requires
        v@.len() >= 1,
    ensures
        r as int == median_spec(v@),
{
    let sorted = sort_u64(v);
    let n: usize = v.len();
    if n % 2 == 1 {
        sorted[n / 2]
    } else {
        let a = sorted[n / 2 - 1];
        let b = sorted[n / 2];
        (((a as u128) + (b as u128)) / 2) as u64
    }
}

/// The floor integer square root.
pub fn isqrt_u128(v: u128) -> (r: u64)
    ensures
        r as int == sqrt_floor(v as int),
{
    let mut lo: u64 = 0;
    let mut hi: u64 = u64::MAX;
    proof {
        assert((u64::MAX as int + 1) * (u64::MAX as int + 1) > u128::MAX as int) by (nonlinear_arith);
    }
    while lo < hi
        invariant
            lo <= hi,
            (lo as int) * (lo as int) <= v as int,
            (v as int) < (hi as int + 1) * (hi as int + 1),
        decreases hi - lo,
    {
        let mid: u64 = (lo as u128 + (((hi - lo) as u128 + 1) / 2)) as u64;
        proof {
            let d = (hi - lo) as int + 1;
            lemma_fundamental_div_mod(d, 2);
            lemma_mod_bound(d, 2);
            assert(lo < mid <= hi);
            assert((mid as int) * (mid as int) <= (u64::MAX as int) * (u64::MAX as int))
                by (nonlinear_arith)
                requires
                    0 <= mid <= u64::MAX,
            ;
        }
        if (mid as u128) * (mid as u128) <= v {
            lo = mid;
        } else {
            hi = mid - 1;
        }
    }
    proof {
        lemma_sqrt_floor_unique(v as int, lo as int);
    }
    lo
}

/// The sample standard deviation of at least two measurements, each bounded
/// by `MAX_MEASURED_NANOS`, given their mean.
pub fn stddev_u64(v: &Vec<u64>, mean: u64) -> (r: u64)
    requires
        v@.len() >= 2,
        v@.len() <= MAX_MEASUREMENTS,
        forall|i: int| 0 <= i < v@.len() ==> v@[i] <= MAX_MEASURED_NANOS,
        mean as int == mean_spec(v@),
    ensures
        r as int == stddev_spec(v@),
{
    proof {
        lemma_sum_seq_bounded(v@, MAX_MEASURED_NANOS as int);
        lemma_div_le(sum_seq(v@), v@.len() as int, MAX_MEASURED_NANOS as int);
    }
    let ghost bound_sq: int = (MAX_MEASURED_NANOS as int) * (MAX_MEASURED_NANOS as int);
    let mut acc: u128 = 0;
    let mut i: usize = 0;
    let n: usize = v.len();
    while i < n
        invariant
            0 <= i <= n,
            n == v@.len(),
            n <= MAX_MEASUREMENTS,
            forall|k: int| 0 <= k < n ==> v@[k] <= MAX_MEASURED_NANOS,
            mean <= MAX_MEASURED_NANOS,
            bound_sq == (MAX_MEASURED_NANOS as int) * (MAX_MEASURED_NANOS as int),
            acc == sq_dev_sum(v@.subrange(0, i as int), mean as int),
            acc <= (i as int) * bound_sq,
        decreases n - i,
    {
        let x = v[i];
        let d: u64 = if x >= mean {
            x - mean
        } else {
            mean - x
        };
        proof {
            assert(v@.subrange(0, i as int + 1).drop_last() =~= v@.subrange(0, i as int));
            assert((x - mean) * (x - mean) == (d as int) * (d as int)) by (nonlinear_arith)
                requires
                    d as int == x - mean || d as int == mean - x,
            ;
            assert((d as int) * (d as int) <= bound_sq) by (nonlinear_arith)
                requires
                    0 <= d <= MAX_MEASURED_NANOS,
                    bound_sq == (MAX_MEASURED_NANOS as int) * (MAX_MEASURED_NANOS as int),
            ;
            assert((i as int) * bound_sq + bound_sq == (i as int + 1) * bound_sq)
                by (nonlinear_arith);
            assert((i as int + 1) * bound_sq < u128::MAX) by (nonlinear_arith)
                requires
                    0 < i as int + 1 <= 0xffff_ffff,
                    bound_sq == (MAX_MEASURED_NANOS as int) * (MAX_MEASURED_NANOS as int),
                    MAX_MEASURED_NANOS == 0x1_0000_0000_0000,
            ;
        }
        let sq: u128 = (d as u128) * (d as u128);
        acc = acc + sq;
        i += 1;
    }
    proof {
        assert(v@.subrange(0, n as int) =~= v@);
    }
    let var: u128 = acc / ((n - 1) as u128);
    isqrt_u128(var)
}

} // verus!
