//! Consensus over several exchanges: a weighted mean of their offsets in
//! which each sample is weighted by the inverse square of its delay.
//!
//! The weighting is a heuristic precision weighting, not a statistically
//! derived optimal estimator: a lower round-trip delay bounds the timing
//! uncertainty more tightly, so low-delay samples dominate the consensus.
//! The mean is computed exactly. Every weight `1 / delay²` is multiplied by
//! the common factor `Π delay_j²` over the samples that take part, which
//! leaves the mean unchanged and makes each weight an integer; the sums are
//! held as unsigned integers of any size.

use vstd::prelude::*;
use crate::bignum::{val, one, zero, mul_small, plus, le};
use crate::exchange::{
    NTPResult, MAX_OFFSET_MS, MAX_DELAY_MS, trunc_div, trunc_div_exec, lemma_trunc_div_bound,
};

verus! {

/// Bound on each weight that `weighted_mean` accepts.
pub const MAX_WEIGHT: u64 = 1_000_000_000_000;

/// Why no consensus offset could be computed.
#[derive(Clone, Copy, Debug, PartialEq, Eq, Structural)]
pub enum AggregationError {
    /// No exchange had a non-zero delay, so no weight was finite.
    NoData,
}

/// `Σ values[i] * weights[i]` over the first `values.len()` entries.
pub open spec fn weighted_sum(values: Seq<i64>, weights: Seq<u64>) -> int
    decreases values.len(),
{
    if values.len() == 0 {
        0
    } else {
        weighted_sum(values.drop_last(), weights.take(values.len() - 1))
            + values.last() * weights[values.len() - 1]
    }
}

/// `Σ weights[i]`.
pub open spec fn total_weight(weights: Seq<u64>) -> int
    decreases weights.len(),
{
    if weights.len() == 0 {
        0
    } else {
        total_weight(weights.drop_last()) + weights.last()
    }
}

proof fn lemma_term_bound(v: int, w: int)
    requires
        -MAX_OFFSET_MS <= v <= MAX_OFFSET_MS,
        0 <= w,
    ensures
        -(MAX_OFFSET_MS * w) <= v * w <= MAX_OFFSET_MS * w,
{
    assert(-(MAX_OFFSET_MS * w) <= v * w <= MAX_OFFSET_MS * w) by (nonlinear_arith)
        requires
            -25_000_000_000_000_000 <= v <= 25_000_000_000_000_000,
            0 <= w,
    ;
}

/// The weighted mean `Σ values[i] * weights[i] / Σ weights[i]`, rounded
/// toward zero, or `None` where the weights sum to zero.
pub fn weighted_mean(values: &Vec<i64>, weights: &Vec<u64>) -> (r: Option<i64>)
    requires
        values.len() == weights.len(),
        values.len() <= u32::MAX,
        forall|i: int| 0 <= i < values.len() ==> -MAX_OFFSET_MS <= #[trigger] values[i] <= MAX_OFFSET_MS,
        forall|i: int| 0 <= i < weights.len() ==> #[trigger] weights[i] <= MAX_WEIGHT,
    ensures
        r == (if total_weight(weights@) == 0 {
            None::<i64>
        } else {
            Some(trunc_div(weighted_sum(values@, weights@), total_weight(weights@)) as i64)
        }),
        total_weight(weights@) != 0 ==> -MAX_OFFSET_MS <= trunc_div(
            weighted_sum(values@, weights@),
            total_weight(weights@),
        ) <= MAX_OFFSET_MS,
{
    let n = values.len();
    let mut sum: i128 = 0;
    let mut total: i128 = 0;
    let mut i: usize = 0;
    while i < n
        invariant
            n == values.len(),
            n == weights.len(),
            n <= u32::MAX,
            forall|j: int| 0 <= j < n ==> -MAX_OFFSET_MS <= #[trigger] values[j] <= MAX_OFFSET_MS,
            forall|j: int| 0 <= j < n ==> #[trigger] weights[j] <= MAX_WEIGHT,
            0 <= i <= n,
            sum == weighted_sum(values@.take(i as int), weights@.take(i as int)),
            total == total_weight(weights@.take(i as int)),
            0 <= total <= i * MAX_WEIGHT,
            -(MAX_OFFSET_MS * total) <= sum <= MAX_OFFSET_MS * total,
        decreases n - i,
    {
        let v = values[i];
        let w = weights[i];
        proof {
            lemma_term_bound(v as int, w as int);
            let vs = values@.take(i + 1);
            let ws = weights@.take(i + 1);
            assert(vs.drop_last() =~= values@.take(i as int));
            assert(ws.take(i as int) =~= weights@.take(i as int));
            assert(ws.drop_last() =~= weights@.take(i as int));
            assert(total + w <= (i + 1) * MAX_WEIGHT);
            assert(MAX_OFFSET_MS * (total + w) <= MAX_OFFSET_MS * ((i + 1) * MAX_WEIGHT))
                by (nonlinear_arith)
                requires
                    total + w <= (i + 1) * MAX_WEIGHT,
            ;
            assert(MAX_OFFSET_MS * ((i + 1) * MAX_WEIGHT) <= MAX_OFFSET_MS * (
            4_294_967_295int * MAX_WEIGHT)) by (nonlinear_arith)
                requires
                    i + 1 <= 4_294_967_295int,
            ;
        }
        sum = sum + v as i128 * w as i128;
        total = total + w as i128;
        i = i + 1;
    }
    assert(values@.take(n as int) =~= values@);
    assert(weights@.take(n as int) =~= weights@);
    if total == 0 {
        None
    } else {
        proof {
            lemma_trunc_div_bound(sum as int, total as int, MAX_OFFSET_MS as int);
        }
        Some(trunc_div_exec(sum, total) as i64)
    }
}


/// Whether an exchange takes part in the consensus: its weight
/// `1 / delay²` is finite, that is, its delay is not zero.
pub open spec fn included(r: NTPResult) -> bool {
    r.delay_ms() != 0
}

/// `Π delay_j²` over the exchanges `j < k` that take part, `j != i`.
pub open spec fn square_product_except(rs: Seq<NTPResult>, i: int, k: nat) -> int
    decreases k,
{
    if k == 0 {
        1
    } else {
        let j = k - 1;
        let rest = square_product_except(rs, i, (k - 1) as nat);
        if j != i && included(rs[j]) {
            rest * (rs[j].delay_ms() * rs[j].delay_ms())
        } else {
            rest
        }
    }
}

/// The weight `1 / delay²` of exchange `i`, multiplied by the common factor
/// `Π delay_j²` over all exchanges that take part; zero for one that does not.
pub open spec fn scaled_weight(rs: Seq<NTPResult>, i: int) -> int {
    if included(rs[i]) {
        square_product_except(rs, i, rs.len())
    } else {
        0
    }
}

/// `Σ offset_i * scaled_weight(i)` over the first `k` exchanges.
pub open spec fn scaled_weighted_sum(rs: Seq<NTPResult>, k: nat) -> int
    decreases k,
{
    if k == 0 {
        0
    } else {
        scaled_weighted_sum(rs, (k - 1) as nat) + rs[k - 1].offset_ms() * scaled_weight(rs, k - 1)
    }
}

/// `Σ scaled_weight(i)` over the first `k` exchanges.
pub open spec fn scaled_total_weight(rs: Seq<NTPResult>, k: nat) -> int
    decreases k,
{
    if k == 0 {
        0
    } else {
        scaled_total_weight(rs, (k - 1) as nat) + scaled_weight(rs, k - 1)
    }
}

proof fn lemma_square_product_positive(rs: Seq<NTPResult>, i: int, k: nat)
    requires
        k <= rs.len(),
    ensures
        square_product_except(rs, i, k) > 0,
    decreases k,
{
    if k > 0 {
        lemma_square_product_positive(rs, i, (k - 1) as nat);
        let d = rs[k - 1].delay_ms();
        let rest = square_product_except(rs, i, (k - 1) as nat);
        if k - 1 != i && included(rs[k - 1]) {
            assert(rest * (d * d) > 0) by (nonlinear_arith)
                requires
                    rest > 0,
                    d != 0,
            ;
        }
    }
}

proof fn lemma_total_zero(rs: Seq<NTPResult>, k: nat)
    requires
        k <= rs.len(),
    ensures
        scaled_total_weight(rs, k) >= 0,
        (scaled_total_weight(rs, k) == 0) == (forall|i: int| 0 <= i < k ==> !included(#[trigger] rs[i])),
    decreases k,
{
    if k > 0 {
        lemma_total_zero(rs, (k - 1) as nat);
        lemma_square_product_positive(rs, k - 1, rs.len());
        if scaled_total_weight(rs, k) == 0 {
            assert forall|i: int| 0 <= i < k implies !included(#[trigger] rs[i]) by {
                if i < k - 1 {
                } else {
                }
            }
        } else {
            if !included(rs[k - 1]) {
                assert(!(forall|i: int| 0 <= i < k - 1 ==> !included(#[trigger] rs[i])));
                let w = choose|i: int| 0 <= i < k - 1 && included(#[trigger] rs[i]);
                assert(0 <= w < k && included(rs[w]));
            }
        }
    }
}

proof fn lemma_le_div(m: int, diff: int, den: int)
    requires
        den > 0,
        diff >= 0,
        m >= 0,
    ensures
        (m * den <= diff) == (m <= diff / den),
{
    let q = diff / den;
    let r = diff % den;
    vstd::arithmetic::div_mod::lemma_fundamental_div_mod(diff, den);
    vstd::arithmetic::div_mod::lemma_mod_bound(diff, den);
    if m <= q {
        assert(m * den <= diff) by (nonlinear_arith)
            requires
                m <= q,
                den > 0,
                diff == den * q + r,
                0 <= r,
        ;
    } else {
        assert(m * den > diff) by (nonlinear_arith)
            requires
                m >= q + 1,
                den > 0,
                diff == den * q + r,
                r < den,
        ;
    }
}

/// `(val(num) - val(sub)) / val(den)`, rounded down, where that is at most
/// `MAX_OFFSET_MS`.
fn quotient(num: &Vec<u32>, sub: &Vec<u32>, den: &Vec<u32>) -> (r: u64)
    requires
        val(den@) > 0,
        val(sub@) <= val(num@),
        val(num@) - val(sub@) <= MAX_OFFSET_MS * val(den@),
    ensures
        r == (val(num@) - val(sub@)) / (val(den@) as int),
        r <= MAX_OFFSET_MS,
{
    let ghost diff: int = val(num@) - val(sub@);
    let ghost dn: int = val(den@) as int;
    let ghost q: int = diff / dn;
    proof {
        lemma_le_div(MAX_OFFSET_MS + 1, diff, dn);
        assert((MAX_OFFSET_MS + 1) * dn == MAX_OFFSET_MS * dn + dn) by (nonlinear_arith);
        assert(q >= 0) by (nonlinear_arith)
            requires
                diff >= 0,
                dn > 0,
                q == diff / dn,
        ;
    }
    let mut lo: u64 = 0;
    let mut hi: u64 = MAX_OFFSET_MS as u64;
    while lo < hi
        invariant
            lo <= hi <= MAX_OFFSET_MS,
            lo <= q <= hi,
            diff == val(num@) - val(sub@),
            dn == val(den@),
            dn > 0,
            diff >= 0,
            q == diff / dn,
        decreases hi - lo,
    {
        let mid: u64 = lo + (hi - lo + 1) / 2;
        let scaled = mul_small(den, mid);
        let t = plus(&scaled, sub);
        proof {
            lemma_le_div(mid as int, diff, dn);
        }
        if le(&t, num) {
            lo = mid;
        } else {
            hi = mid - 1;
        }
    }
    lo
}

/// The consensus offset in milliseconds over the exchanges that succeeded:
/// the mean of their offsets weighted exactly by `1 / delay²`, rounded
/// toward zero. An exchange with zero delay has no finite weight and is left
/// out; where none is left, fails with `NoData`. The contract states the
/// mean with every weight multiplied by the same factor (`scaled_weight`).
pub fn check_time(results: &Vec<NTPResult>) -> (r: Result<i64, AggregationError>)
    requires
        forall|i: int| 0 <= i < results.len() ==> (#[trigger] results[i]).wf(),
    ensures
        (r == Err::<i64, AggregationError>(AggregationError::NoData)) <==> (forall|i: int|
            0 <= i < results.len() ==> !included(#[trigger] results@[i])),
        (r == Err::<i64, AggregationError>(AggregationError::NoData)) <==> scaled_total_weight(
            results@,
            results.len() as nat,
        ) == 0,
        scaled_total_weight(results@, results.len() as nat) != 0 ==> r == Ok::<
            i64,
            AggregationError,
        >(
            trunc_div(
                scaled_weighted_sum(results@, results.len() as nat),
                scaled_total_weight(results@, results.len() as nat),
            ) as i64,
        ),
        scaled_total_weight(results@, results.len() as nat) != 0 ==> -MAX_OFFSET_MS <= trunc_div(
            scaled_weighted_sum(results@, results.len() as nat),
            scaled_total_weight(results@, results.len() as nat),
        ) <= MAX_OFFSET_MS,
{
    let n = results.len();
    let ghost rs = results@;
    let mut offsets: Vec<i64> = Vec::new();
    let mut delays: Vec<i64> = Vec::new();
    let mut i: usize = 0;
    while i < n
        invariant
            n == results.len(),
            rs == results@,
            forall|j: int| 0 <= j < n ==> (#[trigger] results[j]).wf(),
            0 <= i <= n,
            offsets.len() == i,
            delays.len() == i,
            forall|j: int| 0 <= j < i ==> #[trigger] offsets[j] == rs[j].offset_ms(),
            forall|j: int| 0 <= j < i ==> #[trigger] delays[j] == rs[j].delay_ms(),
            forall|j: int| 0 <= j < i ==> -MAX_OFFSET_MS <= #[trigger] offsets[j] <= MAX_OFFSET_MS,
            forall|j: int| 0 <= j < i ==> -MAX_DELAY_MS <= #[trigger] delays[j] <= MAX_DELAY_MS,
        decreases n - i,
    {
        offsets.push(results[i].offset());
        delays.push(results[i].delay());
        i = i + 1;
    }
    let mut den = zero();
    let mut pos = zero();
    let mut neg = zero();
    let ghost m: int = MAX_OFFSET_MS as int;
    i = 0;
    while i < n
        invariant
            n == results.len(),
            rs == results@,
            0 <= i <= n,
            offsets.len() == n,
            delays.len() == n,
            forall|j: int| 0 <= j < n ==> #[trigger] offsets[j] == rs[j].offset_ms(),
            forall|j: int| 0 <= j < n ==> #[trigger] delays[j] == rs[j].delay_ms(),
            forall|j: int| 0 <= j < n ==> -MAX_OFFSET_MS <= #[trigger] offsets[j] <= MAX_OFFSET_MS,
            forall|j: int| 0 <= j < n ==> -MAX_DELAY_MS <= #[trigger] delays[j] <= MAX_DELAY_MS,
            m == MAX_OFFSET_MS,
            val(den@) == scaled_total_weight(rs, i as nat),
            val(pos@) - val(neg@) == scaled_weighted_sum(rs, i as nat),
            val(pos@) <= m * val(den@),
            val(neg@) <= m * val(den@),
        decreases n - i,
    {
        let d = delays[i];
        if d != 0 {
            let mut q = one();
            let mut j: usize = 0;
            while j < n
                invariant
                    n == results.len(),
                    rs == results@,
                    0 <= i < n,
                    0 <= j <= n,
                    delays.len() == n,
                    forall|k: int| 0 <= k < n ==> #[trigger] delays[k] == rs[k].delay_ms(),
                    forall|k: int| 0 <= k < n ==> -MAX_DELAY_MS <= #[trigger] delays[k] <= MAX_DELAY_MS,
                    val(q@) == square_product_except(rs, i as int, j as nat),
                decreases n - j,
            {
                let dj = delays[j];
                if j != i && dj != 0 {
                    let a: u64 = if dj < 0 {
                        (-dj) as u64
                    } else {
                        dj as u64
                    };
                    let q1 = mul_small(&q, a);
                    let q2 = mul_small(&q1, a);
                    proof {
                        let rest = square_product_except(rs, i as int, j as nat);
                        assert(a * a == dj * dj) by (nonlinear_arith)
                            requires
                                a == dj || a == -dj,
                        ;
                        assert(rest * a * a == rest * (dj * dj)) by (nonlinear_arith)
                            requires
                                a * a == dj * dj,
                        ;
                    }
                    q = q2;
                }
                j = j + 1;
            }
            let o = offsets[i];
            let ghost old_pos = val(pos@);
            let ghost old_neg = val(neg@);
            let ghost old_den = val(den@);
            let ghost w = val(q@) as int;
            proof {
                assert(w == scaled_weight(rs, i as int));
            }
            den = plus(&den, &q);
            proof {
                assert(m * (old_den + w) == m * old_den + m * w) by (nonlinear_arith);
                assert(m * old_den <= m * (old_den + w)) by (nonlinear_arith)
                    requires
                        w >= 0,
                        m >= 0,
                ;
            }
            if o > 0 {
                let t = mul_small(&q, o as u64);
                pos = plus(&pos, &t);
                proof {
                    assert(o * w <= m * w) by (nonlinear_arith)
                        requires
                            o <= m,
                            w >= 0,
                    ;
                    assert(val(t@) == w * o);
                    assert(w * o == o * w) by (nonlinear_arith);
                }
            } else if o < 0 {
                let t = mul_small(&q, (-o) as u64);
                neg = plus(&neg, &t);
                proof {
                    assert((-o) * w <= m * w) by (nonlinear_arith)
                        requires
                            -o <= m,
                            w >= 0,
                    ;
                    assert(val(t@) == w * (-o));
                    assert(w * (-o) == -(o * w)) by (nonlinear_arith);
                }
            } else {
                proof {
                    assert(o * w == 0) by (nonlinear_arith)
                        requires
                            o == 0,
                    ;
                }
            }
        } else {
            proof {
                assert(scaled_weight(rs, i as int) == 0);
                assert(rs[i as int].offset_ms() * 0 == 0);
            }
        }
        i = i + 1;
    }
    proof {
        lemma_total_zero(rs, n as nat);
    }
    let z = zero();
    if le(&den, &z) {
        return Err(AggregationError::NoData);
    }
    let ghost num: int = val(pos@) - val(neg@);
    let ghost dn: int = val(den@) as int;
    proof {
        lemma_trunc_div_bound(num, dn, MAX_OFFSET_MS as int);
    }
    if le(&neg, &pos) {
        let q = quotient(&pos, &neg, &den);
        Ok(q as i64)
    } else {
        let q = quotient(&neg, &pos, &den);
        Ok(-(q as i64))
    }
}

/// Where every exchange that takes part has an offset between `lo` and
/// `hi`, and some exchange takes part, the consensus offset lies between
/// `lo` and `hi`: it is a weighted mean of those offsets.
pub proof fn lemma_consensus_between_offsets(rs: Seq<NTPResult>, lo: int, hi: int)
    requires
        exists|i: int| 0 <= i < rs.len() && included(#[trigger] rs[i]),
        forall|i: int|
            0 <= i < rs.len() && included(#[trigger] rs[i]) ==> lo <= rs[i].offset_ms() <= hi,
    ensures
        lo <= trunc_div(scaled_weighted_sum(rs, rs.len()), scaled_total_weight(rs, rs.len())) <= hi,
{
    lemma_scaled_sum_bounds(rs, rs.len(), lo, hi);
    lemma_total_zero(rs, rs.len());
    let s = scaled_weighted_sum(rs, rs.len());
    let t = scaled_total_weight(rs, rs.len());
    if s >= 0 {
        assert(s / t <= hi) by (nonlinear_arith)
            requires
                0 <= s <= hi * t,
                t > 0,
        ;
        assert(s / t >= lo) by (nonlinear_arith)
            requires
                0 <= s,
                lo * t <= s,
                t > 0,
        ;
    } else {
        assert((-s) / t <= -lo) by (nonlinear_arith)
            requires
                0 <= -s,
                lo * t <= s,
                t > 0,
        ;
        assert((-s) / t >= -hi) by (nonlinear_arith)
            requires
                0 <= -s,
                s <= hi * t,
                t > 0,
        ;
    }
}

proof fn lemma_scaled_sum_bounds(rs: Seq<NTPResult>, k: nat, lo: int, hi: int)
    requires
        k <= rs.len(),
        forall|i: int|
            0 <= i < rs.len() && included(#[trigger] rs[i]) ==> lo <= rs[i].offset_ms() <= hi,
    ensures
        lo * scaled_total_weight(rs, k) <= scaled_weighted_sum(rs, k) <= hi * scaled_total_weight(
            rs,
            k,
        ),
    decreases k,
{
    if k > 0 {
        lemma_scaled_sum_bounds(rs, (k - 1) as nat, lo, hi);
        let i = k - 1;
        let w = scaled_weight(rs, i);
        let o = rs[i].offset_ms();
        let t = scaled_total_weight(rs, (k - 1) as nat);
        lemma_square_product_positive(rs, i, rs.len());
        if included(rs[i]) {
            assert(lo * w <= o * w <= hi * w) by (nonlinear_arith)
                requires
                    lo <= o <= hi,
                    w > 0,
            ;
        } else {
            assert(o * w == 0) by (nonlinear_arith)
                requires
                    w == 0,
            ;
        }
        assert(lo * (t + w) == lo * t + lo * w) by (nonlinear_arith);
        assert(hi * (t + w) == hi * t + hi * w) by (nonlinear_arith);
    }
}

/// `b^e`.
pub open spec fn power(b: int, e: nat) -> int
    decreases e,
{
    if e == 0 {
        1
    } else {
        b * power(b, (e - 1) as nat)
    }
}

/// How many of the exchanges `j < k`, `j != i`, take part.
pub open spec fn count_except(rs: Seq<NTPResult>, i: int, k: nat) -> nat
    decreases k,
{
    if k == 0 {
        0
    } else if k - 1 != i && included(rs[k - 1]) {
        count_except(rs, i, (k - 1) as nat) + 1
    } else {
        count_except(rs, i, (k - 1) as nat)
    }
}

/// `rs2` is `rs` with every delay multiplied by `f` and the offsets kept.
pub open spec fn delays_scaled(rs: Seq<NTPResult>, rs2: Seq<NTPResult>, f: int) -> bool {
    &&& rs2.len() == rs.len()
    &&& forall|i: int|
        0 <= i < rs.len() ==> (#[trigger] rs2[i]).offset_ms() == rs[i].offset_ms()
            && rs2[i].delay_ms() == f * rs[i].delay_ms()
}

proof fn lemma_power_positive(b: int, e: nat)
    requires
        b > 0,
    ensures
        power(b, e) > 0,
    decreases e,
{
    if e > 0 {
        lemma_power_positive(b, (e - 1) as nat);
        assert(b * power(b, (e - 1) as nat) > 0) by (nonlinear_arith)
            requires
                b > 0,
                power(b, (e - 1) as nat) > 0,
        ;
    }
}

proof fn lemma_square_product_scaled(rs: Seq<NTPResult>, rs2: Seq<NTPResult>, f: int, i: int, k: nat)
    requires
        f != 0,
        k <= rs.len(),
        delays_scaled(rs, rs2, f),
    ensures
        square_product_except(rs2, i, k) == power(f * f, count_except(rs, i, k))
            * square_product_except(rs, i, k),
    decreases k,
{
    if k > 0 {
        let j = k - 1;
        lemma_square_product_scaled(rs, rs2, f, i, (k - 1) as nat);
        assert(rs2[j].delay_ms() == f * rs[j].delay_ms());
        let d = rs[j].delay_ms();
        let p = power(f * f, count_except(rs, i, (k - 1) as nat));
        let rest = square_product_except(rs, i, (k - 1) as nat);
        assert(included(rs2[j]) == included(rs[j])) by (nonlinear_arith)
            requires
                rs2[j].delay_ms() == f * d,
                f != 0,
                included(rs2[j]) == (rs2[j].delay_ms() != 0),
                included(rs[j]) == (d != 0),
        ;
        if j != i && included(rs[j]) {
            assert(p * rest * ((f * d) * (f * d)) == (f * f) * p * (rest * (d * d)))
                by (nonlinear_arith);
        }
    }
}

proof fn lemma_count_except(rs: Seq<NTPResult>, i: int, k: nat)
    requires
        0 <= i < k <= rs.len(),
        included(rs[i]),
    ensures
        count_except(rs, i, k) + 1 == count_except(rs, -1, k),
    decreases k,
{
    if k - 1 > i {
        lemma_count_except(rs, i, (k - 1) as nat);
    } else {
        lemma_count_except_before(rs, i, (k - 1) as nat);
    }
}

proof fn lemma_count_except_before(rs: Seq<NTPResult>, i: int, k: nat)
    requires
        k <= i,
        k <= rs.len(),
    ensures
        count_except(rs, i, k) == count_except(rs, -1, k),
    decreases k,
{
    if k > 0 {
        lemma_count_except_before(rs, i, (k - 1) as nat);
    }
}

proof fn lemma_scaled_sums(rs: Seq<NTPResult>, rs2: Seq<NTPResult>, f: int, c: int, k: nat)
    requires
        f != 0,
        k <= rs.len(),
        delays_scaled(rs, rs2, f),
        forall|i: int|
            0 <= i < rs.len() ==> #[trigger] scaled_weight(rs2, i) == c * scaled_weight(rs, i),
    ensures
        scaled_weighted_sum(rs2, k) == c * scaled_weighted_sum(rs, k),
        scaled_total_weight(rs2, k) == c * scaled_total_weight(rs, k),
    decreases k,
{
    if k > 0 {
        lemma_scaled_sums(rs, rs2, f, c, (k - 1) as nat);
        let i = k - 1;
        assert(rs2[i].offset_ms() == rs[i].offset_ms());
        let o = rs[i].offset_ms();
        let w = scaled_weight(rs, i);
        assert(scaled_weight(rs2, i) == c * w);
        assert(c * scaled_weighted_sum(rs, (k - 1) as nat) + o * (c * w) == c * (
        scaled_weighted_sum(rs, (k - 1) as nat) + o * w)) by (nonlinear_arith);
        assert(c * scaled_total_weight(rs, (k - 1) as nat) + c * w == c * (scaled_total_weight(
            rs,
            (k - 1) as nat,
        ) + w)) by (nonlinear_arith);
    }
}

proof fn lemma_trunc_div_cancel(s: int, t: int, c: int)
    requires
        t > 0,
        c > 0,
    ensures
        trunc_div(c * s, c * t) == trunc_div(s, t),
{
    let a = if s >= 0 {
        s
    } else {
        -s
    };
    let q = a / t;
    let r = a % t;
    vstd::arithmetic::div_mod::lemma_fundamental_div_mod(a, t);
    vstd::arithmetic::div_mod::lemma_mod_bound(a, t);
    assert(c * a == (c * t) * q + c * r) by (nonlinear_arith)
        requires
            a == t * q + r,
    ;
    assert(0 <= c * r < c * t) by (nonlinear_arith)
        requires
            0 <= r < t,
            c > 0,
    ;
    vstd::arithmetic::div_mod::lemma_fundamental_div_mod_converse(c * a, c * t, q, c * r);
    if s >= 0 {
        assert(c * s >= 0) by (nonlinear_arith)
            requires
                c > 0,
                s >= 0,
        ;
    } else {
        assert(c * s < 0 && -(c * s) == c * a) by (nonlinear_arith)
            requires
                c > 0,
                s < 0,
                a == -s,
        ;
    }
}

/// Only the relative weights matter: multiplying every delay by the same
/// non-zero factor leaves the consensus offset, and whether there is one,
/// unchanged.
pub proof fn lemma_consensus_scale_invariant(rs: Seq<NTPResult>, rs2: Seq<NTPResult>, f: int)
    requires
        f != 0,
        delays_scaled(rs, rs2, f),
    ensures
        (scaled_total_weight(rs2, rs2.len()) == 0) == (scaled_total_weight(rs, rs.len()) == 0),
        scaled_total_weight(rs, rs.len()) != 0 ==> trunc_div(
            scaled_weighted_sum(rs2, rs2.len()),
            scaled_total_weight(rs2, rs2.len()),
        ) == trunc_div(scaled_weighted_sum(rs, rs.len()), scaled_total_weight(rs, rs.len())),
{
    let n = rs.len();
    assert((f * f) > 0) by (nonlinear_arith)
        requires
            f != 0,
    ;
    let e: nat = if count_except(rs, -1, n) > 0 {
        (count_except(rs, -1, n) - 1) as nat
    } else {
        0
    };
    let c = power(f * f, e);
    lemma_power_positive(f * f, e);
    assert forall|i: int| 0 <= i < n implies #[trigger] scaled_weight(rs2, i) == c * scaled_weight(
        rs,
        i,
    ) by {
        lemma_square_product_scaled(rs, rs2, f, i, n);
        assert(rs2[i].delay_ms() == f * rs[i].delay_ms());
        assert(included(rs2[i]) == included(rs[i])) by (nonlinear_arith)
            requires
                rs2[i].delay_ms() == f * rs[i].delay_ms(),
                f != 0,
                included(rs2[i]) == (rs2[i].delay_ms() != 0),
                included(rs[i]) == (rs[i].delay_ms() != 0),
        ;
        if included(rs[i]) {
            lemma_count_except(rs, i, n);
        }
    }
    lemma_scaled_sums(rs, rs2, f, c, n);
    lemma_total_zero(rs, n);
    let t = scaled_total_weight(rs, n);
    if t != 0 {
        assert(c * t != 0) by (nonlinear_arith)
            requires
                c > 0,
                t > 0,
        ;
        lemma_trunc_div_cancel(scaled_weighted_sum(rs, n), t, c);
    } else {
        assert(c * t == 0) by (nonlinear_arith)
            requires
                t == 0,
        ;
    }
}

} // verus!
