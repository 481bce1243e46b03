//! Sums over index ranges, and the arithmetic of proportional shares.
//!
//! The flex and grid engines hand free space out in proportion to weights,
//! with division that rounds down. The lemmas here bound what such shares
//! add up to.

use vstd::prelude::*;
use vstd::arithmetic::div_mod::{lemma_div_is_ordered, lemma_fundamental_div_mod, lemma_mod_bound};

verus! {

/// The sum of `f(i)` for `lo <= i < hi`; zero where the range is empty.
pub open spec fn sum_over(f: spec_fn(int) -> int, lo: int, hi: int) -> int
    decreases hi - lo,
{
    if hi <= lo {
        0
    } else {
        sum_over(f, lo, hi - 1) + f(hi - 1)
    }
}

/// The share of `amount` that falls to weight `w` out of `total`, rounded
/// down.
pub open spec fn share(amount: int, w: int, total: int) -> int {
    amount * w / total
}

/// The larger of two integers.
pub open spec fn max_int(a: int, b: int) -> int {
    if a >= b {
        a
    } else {
        b
    }
}

/// The smaller of two integers.
pub open spec fn min_int(a: int, b: int) -> int {
    if a <= b {
        a
    } else {
        b
    }
}

/// For a positive divisor, the quotient times the divisor lies within one
/// divisor below the dividend.
pub proof fn lemma_div_bounds(x: int, d: int)
    requires
        d > 0,
    ensures
        d * (x / d) <= x,
        x < d * (x / d) + d,
{
    lemma_fundamental_div_mod(x, d);
    lemma_mod_bound(x, d);
}

/// A share of a non-negative amount for a weight between zero and the total
/// lies between zero and the amount.
pub proof fn lemma_share_bounds(amount: int, w: int, total: int)
    requires
        amount >= 0,
        0 <= w <= total,
        total > 0,
    ensures
        0 <= share(amount, w, total) <= amount,
{
    assert(0 <= amount * w <= amount * total) by (nonlinear_arith)
        requires
            amount >= 0,
            0 <= w <= total,
    ;
    lemma_div_is_ordered(0, amount * w, total);
    lemma_div_is_ordered(amount * w, amount * total, total);
    assert(0int / total == 0) by (nonlinear_arith)
        requires
            total > 0,
    ;
    assert(amount * total / total == amount) by (nonlinear_arith)
        requires
            total > 0,
    ;
}

/// A larger weight never gets a smaller share.
pub proof fn lemma_share_monotone(amount: int, w1: int, w2: int, total: int)
    requires
        amount >= 0,
        w1 <= w2,
        total > 0,
    ensures
        share(amount, w1, total) <= share(amount, w2, total),
{
    assert(amount * w1 <= amount * w2) by (nonlinear_arith)
        requires
            amount >= 0,
            w1 <= w2,
    ;
    lemma_div_is_ordered(amount * w1, amount * w2, total);
}

/// A share that divides evenly, times the total, gives the product back.
pub proof fn lemma_share_exact(amount: int, w: int, total: int)
    requires
        total > 0,
        (amount * w) % total == 0,
    ensures
        total * share(amount, w, total) == amount * w,
{
    lemma_fundamental_div_mod(amount * w, total);
}

/// Two functions that agree on a range have the same sum over it.
pub proof fn lemma_sum_equal(f: spec_fn(int) -> int, g: spec_fn(int) -> int, lo: int, hi: int)
    requires
        forall|i: int| lo <= i < hi ==> #[trigger] f(i) == g(i),
    ensures
        sum_over(f, lo, hi) == sum_over(g, lo, hi),
    decreases hi - lo,
{
    if hi > lo {
        lemma_sum_equal(f, g, lo, hi - 1);
    }
}

/// A sum over a range is the sum over its two parts.
pub proof fn lemma_sum_split(f: spec_fn(int) -> int, lo: int, mid: int, hi: int)
    requires
        lo <= mid <= hi,
    ensures
        sum_over(f, lo, hi) == sum_over(f, lo, mid) + sum_over(f, mid, hi),
    decreases hi - mid,
{
    if hi > mid {
        lemma_sum_split(f, lo, mid, hi - 1);
    }
}

/// The sum of a pointwise sum is the sum of the two sums.
pub proof fn lemma_sum_add(
    f: spec_fn(int) -> int,
    g: spec_fn(int) -> int,
    h: spec_fn(int) -> int,
    lo: int,
    hi: int,
)
    requires
        forall|i: int| lo <= i < hi ==> #[trigger] h(i) == f(i) + g(i),
    ensures
        sum_over(h, lo, hi) == sum_over(f, lo, hi) + sum_over(g, lo, hi),
    decreases hi - lo,
{
    if hi > lo {
        lemma_sum_add(f, g, h, lo, hi - 1);
    }
}

/// A sum of values that all lie in `[a, b]` lies between the count times `a`
/// and the count times `b`.
pub proof fn lemma_sum_bounds(f: spec_fn(int) -> int, lo: int, hi: int, a: int, b: int)
    requires
        lo <= hi,
        forall|i: int| lo <= i < hi ==> a <= #[trigger] f(i) <= b,
    ensures
        (hi - lo) * a <= sum_over(f, lo, hi) <= (hi - lo) * b,
    decreases hi - lo,
{
    if hi > lo {
        lemma_sum_bounds(f, lo, hi - 1, a, b);
        assert(a <= f(hi - 1) <= b);
        assert((hi - lo) * a == (hi - 1 - lo) * a + a) by (nonlinear_arith);
        assert((hi - lo) * b == (hi - 1 - lo) * b + b) by (nonlinear_arith);
    } else {
        assert((hi - lo) * a == 0) by (nonlinear_arith)
            requires
                hi - lo == 0,
        ;
        assert((hi - lo) * b == 0) by (nonlinear_arith)
            requires
                hi - lo == 0,
        ;
    }
}

/// Where each `f(i)` is at most `c + g(i)`, the sum of `f` is at most the
/// count times `c` plus the sum of `g`.
pub proof fn lemma_sum_dominated(
    f: spec_fn(int) -> int,
    g: spec_fn(int) -> int,
    lo: int,
    hi: int,
    c: int,
)
    requires
        lo <= hi,
        forall|i: int| lo <= i < hi ==> #[trigger] f(i) <= c + g(i),
    ensures
        sum_over(f, lo, hi) <= (hi - lo) * c + sum_over(g, lo, hi),
    decreases hi - lo,
{
    if hi > lo {
        lemma_sum_dominated(f, g, lo, hi - 1, c);
        assert(f(hi - 1) <= c + g(hi - 1));
        assert((hi - lo) * c == (hi - 1 - lo) * c + c) by (nonlinear_arith);
    } else {
        assert((hi - lo) * c == 0) by (nonlinear_arith)
            requires
                hi - lo == 0,
        ;
    }
}

/// A sum of non-negative values is non-negative, and no part of the range
/// sums to more than the whole.
pub proof fn lemma_sum_part(f: spec_fn(int) -> int, lo: int, a: int, b: int, hi: int)
    requires
        lo <= a <= b <= hi,
        forall|i: int| lo <= i < hi ==> 0 <= #[trigger] f(i),
    ensures
        0 <= sum_over(f, a, b) <= sum_over(f, lo, hi),
{
    lemma_sum_split(f, lo, a, hi);
    lemma_sum_split(f, a, b, hi);
    lemma_sum_lower(f, lo, a);
    lemma_sum_lower(f, a, b);
    lemma_sum_lower(f, b, hi);
}

/// A sum of non-negative values is non-negative.
pub proof fn lemma_sum_lower(f: spec_fn(int) -> int, lo: int, hi: int)
    requires
        forall|i: int| lo <= i < hi ==> 0 <= #[trigger] f(i),
    ensures
        0 <= sum_over(f, lo, hi),
    decreases hi - lo,
{
    if hi > lo {
        lemma_sum_lower(f, lo, hi - 1);
    }
}

/// The function that gives each index its share of `amount`.
pub open spec fn shares(w: spec_fn(int) -> int, amount: int, total: int) -> spec_fn(int) -> int {
    |i: int| share(amount, w(i), total)
}

/// Shares of a non-negative amount, handed out over non-negative weights
/// whose sum is the total, add up to no more than the amount, and fall short
/// of it by less than one unit for each index.
pub proof fn lemma_shares_sum(w: spec_fn(int) -> int, lo: int, hi: int, amount: int, total: int)
    requires
        lo <= hi,
        amount >= 0,
        total > 0,
        forall|i: int| lo <= i < hi ==> 0 <= #[trigger] w(i),
        sum_over(w, lo, hi) == total,
    ensures
        sum_over(shares(w, amount, total), lo, hi) <= amount,
        sum_over(shares(w, amount, total), lo, hi) > amount - (hi - lo),
        hi == lo ==> sum_over(shares(w, amount, total), lo, hi) == 0,
{
    lemma_shares_scaled(w, lo, hi, hi, amount, total);
    let s = sum_over(shares(w, amount, total), lo, hi);
    assert(s <= amount) by (nonlinear_arith)
        requires
            total * s <= amount * total,
            total > 0,
    ;
    assert(s > amount - (hi - lo)) by (nonlinear_arith)
        requires
            total * s > amount * total - total * (hi - lo),
            total > 0,
    ;
}

/// Where every share divides evenly, the shares add up to the amount.
pub proof fn lemma_shares_exact(
    w: spec_fn(int) -> int,
    lo: int,
    hi: int,
    amount: int,
    total: int,
)
    requires
        lo <= hi,
        total > 0,
        sum_over(w, lo, hi) == total,
        forall|i: int| lo <= i < hi ==> (amount * #[trigger] w(i)) % total == 0,
    ensures
        sum_over(shares(w, amount, total), lo, hi) == amount,
{
    lemma_shares_exact_scaled(w, lo, hi, hi, amount, total);
    let s = sum_over(shares(w, amount, total), lo, hi);
    assert(s == amount) by (nonlinear_arith)
        requires
            total * s == amount * total,
            total > 0,
    ;
}

/// Where every share divides evenly, the total times the shares up to `k`
/// is the amount times the weights up to `k`.
proof fn lemma_shares_exact_scaled(
    w: spec_fn(int) -> int,
    lo: int,
    k: int,
    hi: int,
    amount: int,
    total: int,
)
    requires
        lo <= k <= hi,
        total > 0,
        forall|i: int| lo <= i < hi ==> (amount * #[trigger] w(i)) % total == 0,
    ensures
        total * sum_over(shares(w, amount, total), lo, k) == amount * sum_over(w, lo, k),
    decreases k - lo,
{
    let f = shares(w, amount, total);
    if k > lo {
        lemma_shares_exact_scaled(w, lo, k - 1, hi, amount, total);
        lemma_share_exact(amount, w(k - 1), total);
        let sp = sum_over(f, lo, k - 1);
        let wp = sum_over(w, lo, k - 1);
        let x = f(k - 1);
        assert(x == share(amount, w(k - 1), total));
        assert(total * (sp + x) == total * sp + total * x) by (nonlinear_arith);
        assert(amount * (wp + w(k - 1)) == amount * wp + amount * w(k - 1)) by (nonlinear_arith);
    } else {
        assert(total * 0 == 0 && amount * 0 == 0);
    }
}

/// Shares over a part of the range add up to between zero and the amount.
pub proof fn lemma_shares_part(
    w: spec_fn(int) -> int,
    lo: int,
    a: int,
    b: int,
    hi: int,
    amount: int,
    total: int,
)
    requires
        lo <= a <= b <= hi,
        amount >= 0,
        total > 0,
        forall|i: int| lo <= i < hi ==> 0 <= #[trigger] w(i),
        sum_over(w, lo, hi) == total,
    ensures
        0 <= sum_over(shares(w, amount, total), a, b) <= amount,
{
    let f = shares(w, amount, total);
    assert forall|i: int| lo <= i < hi implies 0 <= #[trigger] f(i) by {
        lemma_sum_part(w, lo, i, i + 1, hi);
        assert(sum_over(w, i, i + 1) == sum_over(w, i, i) + w(i));
        lemma_share_bounds(amount, w(i), total);
    }
    lemma_sum_part(f, lo, a, b, hi);
    lemma_shares_sum(w, lo, hi, amount, total);
}

/// The total times the shares up to `k` lies within `k - lo` totals below
/// the amount times the weights up to `k`.
proof fn lemma_shares_scaled(
    w: spec_fn(int) -> int,
    lo: int,
    k: int,
    hi: int,
    amount: int,
    total: int,
)
    requires
        lo <= k <= hi,
        amount >= 0,
        total > 0,
        forall|i: int| lo <= i < hi ==> 0 <= #[trigger] w(i),
        sum_over(w, lo, hi) == total,
    ensures
        total * sum_over(shares(w, amount, total), lo, k) <= amount * sum_over(w, lo, k),
        amount * sum_over(w, lo, k) <= amount * total,
        k > lo ==> total * sum_over(shares(w, amount, total), lo, k) > amount * sum_over(w, lo, k)
            - total * (k - lo),
        k == lo ==> sum_over(shares(w, amount, total), lo, k) == 0,
        k == hi ==> amount * sum_over(w, lo, k) == amount * total,
    decreases k - lo,
{
    let f = shares(w, amount, total);
    lemma_sum_part(w, lo, lo, k, hi);
    let wk = sum_over(w, lo, k);
    assert(amount * wk <= amount * total) by (nonlinear_arith)
        requires
            amount >= 0,
            wk <= total,
    ;
    if k > lo {
        lemma_shares_scaled(w, lo, k - 1, hi, amount, total);
        let x = amount * w(k - 1);
        lemma_div_bounds(x, total);
        let sp = sum_over(f, lo, k - 1);
        let wp = sum_over(w, lo, k - 1);
        assert(f(k - 1) == x / total);
        assert(total * (sp + x / total) == total * sp + total * (x / total)) by (nonlinear_arith);
        assert(amount * (wp + w(k - 1)) == amount * wp + x) by (nonlinear_arith)
            requires
                x == amount * w(k - 1),
        ;
        assert(total * (k - lo) == total * (k - 1 - lo) + total) by (nonlinear_arith);
    } else {
        assert(total * sum_over(f, lo, k) == 0) by (nonlinear_arith)
            requires
                sum_over(f, lo, k) == 0,
        ;
        assert(amount * wk == 0) by (nonlinear_arith)
            requires
                wk == 0,
        ;
    }
}

/// Division that rounds towards negative infinity, for a positive divisor.
pub fn div_floor(a: i64, b: i64) -> (q: i64)
    requires
        b > 0,
    ensures
        q == a as int / b as int,
{
    if a >= 0 {
        a / b
    } else {
        let m: i64 = -(a + 1);
        let q0: i64 = m / b;
        proof {
            let ai = a as int;
            let bi = b as int;
            let mi = m as int;
            lemma_div_bounds(mi, bi);
            lemma_div_bounds(ai, bi);
            let qa = ai / bi;
            let qm = mi / bi;
            assert(qa == -qm - 1) by (nonlinear_arith)
                requires
                    bi > 0,
                    mi == -ai - 1,
                    bi * qm <= mi,
                    mi < bi * qm + bi,
                    bi * qa <= ai,
                    ai < bi * qa + bi,
            ;
            assert(0 <= qm <= mi) by (nonlinear_arith)
                requires
                    bi > 0,
                    mi >= 0,
                    bi * qm <= mi,
                    mi < bi * qm + bi,
            ;
        }
        -q0 - 1
    }
}

/// `amount * w / total` rounded down, computed without overflow.
pub fn share_of(amount: i64, w: i64, total: i64) -> (q: i64)
    requires
        amount >= 0,
        0 <= w <= total,
        total > 0,
    ensures
        q == share(amount as int, w as int, total as int),
        0 <= q <= amount,
{
    proof {
        lemma_share_bounds(amount as int, w as int, total as int);
        assert(0 <= (amount as int) * (w as int) <= 0x7fff_ffff_ffff_ffff * 0x7fff_ffff_ffff_ffff)
            by (nonlinear_arith)
            requires
                0 <= amount as int <= 0x7fff_ffff_ffff_ffff,
                0 <= w as int <= 0x7fff_ffff_ffff_ffff,
        ;
    }
    let product: i128 = (amount as i128) * (w as i128);
    let q: i128 = product / (total as i128);
    q as i64
}

} // verus!
