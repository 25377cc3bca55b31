//! Stableswap invariant on integer balances: the invariant `D` and the balance `y`
//! of one coin that keeps `D` fixed, both found by Newton's method in at most
//! 32 steps, with every intermediate held in 256 bits.
//!
//! `A * sum(x_i) * n^n + D = A * D * n^n + D^(n+1) / (n^n * prod(x_i))`
use vstd::prelude::*;
use crate::wide::{U256, lemma_u256_bound, u256_modulus, u128_modulus, u256_from_u128, u256_to_u128, u256_is_zero, u256_lt, u256_checked_add, u256_checked_sub, u256_checked_mul, u256_checked_div, u256_checked_multiply_ratio};
use crate::types::{Asset, AssetKey, AssetInfo, amounts_of, amounts};

verus! {

/// The maximum number of Newton steps.
pub const ITERATIONS: u8 = 32;
pub const MAX_AMP: u64 = 1_000_000;
pub const MAX_AMP_CHANGE: u64 = 10;
pub const MIN_AMP_CHANGING_TIME: u64 = 86400;
/// Amplification values are stored multiplied by this factor.
pub const AMP_PRECISION: u64 = 100;

/// Why a computation gave up.
#[derive(Clone, Copy, Debug, PartialEq, Eq)]
pub enum MathError {
    /// A checked multiplication, addition or subtraction overflowed.
    Overflow,
    /// A `checked_multiply_ratio` step failed.
    MultiplyRatio,
    /// A 256-bit result did not fit in 128 bits.
    ConversionOverflow,
    /// Newton's method did not settle within `ITERATIONS` steps.
    NotConverging,
    /// A division by zero was requested of a checked operation.
    DivideByZero,
    /// Offer and ask assets are the same.
    SameAssets,
    /// A decimal could not be represented.
    RangeExceeded,
}

/// What a computation does on given inputs: a value, an error, or a panic of a
/// plain arithmetic operator.
pub enum Outcome {
    Value(nat),
    Fail(MathError),
    Panic,
}

/// A result agrees with an outcome.
pub open spec fn agrees(r: Result<u128, MathError>, o: Outcome) -> bool {
    match r {
        Ok(x) => o == Outcome::Value(x as nat),
        Err(e) => o == Outcome::Fail(e),
    }
}

/// The value as a `Uint128`, or a conversion error.
pub open spec fn narrow(x: nat) -> Outcome {
    if x < u128_modulus() {
        Outcome::Value(x)
    } else {
        Outcome::Fail(MathError::ConversionOverflow)
    }
}

/// Two values differ by at most one.
pub open spec fn close(a: nat, b: nat) -> bool {
    if a >= b {
        a - b <= 1
    } else {
        b - a <= 1
    }
}

pub open spec fn seq_sum(s: Seq<u128>) -> nat
    decreases s.len(),
{
    if s.len() == 0 {
        0
    } else {
        seq_sum(s.drop_last()) + s.last() as nat
    }
}

pub proof fn lemma_seq_sum_prefix(s: Seq<u128>, i: int)
    requires
        0 <= i <= s.len(),
    ensures
        seq_sum(s.take(i)) <= seq_sum(s),
    decreases s.len() - i,
{
    if i < s.len() {
        lemma_seq_sum_prefix(s, i + 1);
        assert(s.take(i + 1).drop_last() == s.take(i));
    } else {
        assert(s.take(i) == s);
    }
}

/// `D_P` after folding the first `i` balances: `D_P <- D_P * D / (x_i * n + 1)`,
/// starting from `D`; `None` when a step does not fit in 256 bits.
pub open spec fn dp_prefix(pools: Seq<u128>, d: nat, n: nat, i: nat) -> Option<nat>
    decreases i,
{
    if i == 0 {
        Some(d)
    } else {
        match dp_prefix(pools, d, n, (i - 1) as nat) {
            None => None,
            Some(acc) => {
                let q = acc * d / ((pools[i - 1] as nat) * n + 1);
                if q < u256_modulus() {
                    Some(q)
                } else {
                    None
                }
            },
        }
    }
}

pub proof fn lemma_dp_prefix_none(pools: Seq<u128>, d: nat, n: nat, i: nat, j: nat)
    requires
        i <= j,
        dp_prefix(pools, d, n, i) is None,
    ensures
        dp_prefix(pools, d, n, j) is None,
    decreases j - i,
{
    if i < j {
        lemma_dp_prefix_none(pools, d, n, i, (j - 1) as nat);
    }
}

/// One Newton step for `D`:
/// `D' = (Ann * S + D_P * n) * D / ((Ann - 1) * D + (n + 1) * D_P)`;
/// `None` when a 256-bit operator would panic.
pub open spec fn d_next(ann: nat, ann_sum_x: nat, n: nat, d: nat, dp: nat) -> Option<nat> {
    let a = dp * n;
    let b = ann_sum_x + a;
    let num = b * d;
    let c: nat = ((ann - 1) as nat) * d;
    let e = (n + 1) * dp;
    let den = c + e;
    if a >= u256_modulus() || b >= u256_modulus() || num >= u256_modulus() || ann == 0
        || c >= u256_modulus() || e >= u256_modulus() || den >= u256_modulus() || den == 0 {
        None
    } else {
        Some(num / den)
    }
}

/// The Newton iteration for `D` with `k` steps left.
pub open spec fn d_loop(pools: Seq<u128>, ann: nat, ann_sum_x: nat, n: nat, d: nat, k: nat) -> Outcome
    decreases k,
{
    if k == 0 {
        narrow(d)
    } else {
        match dp_prefix(pools, d, n, pools.len()) {
            None => Outcome::Fail(MathError::MultiplyRatio),
            Some(dp) => match d_next(ann, ann_sum_x, n, d, dp) {
                None => Outcome::Panic,
                Some(d2) => if close(d2, d) {
                    narrow(d2)
                } else {
                    d_loop(pools, ann, ann_sum_x, n, d2, (k - 1) as nat)
                },
            },
        }
    }
}

/// The number of coins as the `u8` that the computation uses.
pub open spec fn coin_count(len: nat) -> nat {
    len % 256
}

/// The invariant `D` of the balances `pools` under amplification `amp`
/// (which carries the factor `AMP_PRECISION`).
pub open spec fn compute_d_spec(amp: u64, pools: Seq<u128>) -> Outcome {
    let sum = seq_sum(pools);
    let n = coin_count(pools.len());
    if sum >= u256_modulus() {
        Outcome::Panic
    } else if sum == 0 {
        Outcome::Value(0)
    } else if amp * n > u64::MAX {
        Outcome::Fail(MathError::Overflow)
    } else {
        let ann = (amp * n) as nat / (AMP_PRECISION as nat);
        if ann * sum >= u256_modulus() {
            Outcome::Panic
        } else {
            d_loop(pools, ann, ann * sum, n, sum, ITERATIONS as nat)
        }
    }
}

pub(crate) fn unwrap_u256(o: Option<U256>) -> (r: U256)
    requires
        o is Some,
    ensures
        o == Some(r),
{
    match o {
        Some(x) => x,
        None => { proof { assert(false); } U256 { bytes: [0u8; 32] } },
    }
}

/// Sum of the balances in 256 bits.
pub fn sum_u256(pools: &Vec<u128>) -> (r: U256)
    requires
        seq_sum(pools@) < u256_modulus(),
    ensures
        r.value() == seq_sum(pools@),
{
    let mut acc = u256_from_u128(0);
    let mut i: usize = 0;
    while i < pools.len()
        invariant
            i <= pools.len(),
            seq_sum(pools@) < u256_modulus(),
            acc.value() == seq_sum(pools@.take(i as int)),
        decreases pools.len() - i,
    {
        proof {
            assert(pools@.take(i as int + 1).drop_last() == pools@.take(i as int));
            lemma_seq_sum_prefix(pools@, i as int + 1);
        }
        let x = u256_from_u128(pools[i]);
        acc = unwrap_u256(u256_checked_add(acc, x));
        i = i + 1;
    }
    assert(pools@.take(pools.len() as int) == pools@);
    acc
}

/// `D_P` for the current `D`: `None` exactly when `dp_prefix` fails.
fn d_product(pools: &Vec<u128>, d: U256, n: U256) -> (r: Option<U256>)
    requires
        n.value() < 256,
    ensures
        match r {
            Some(x) => dp_prefix(pools@, d.value(), n.value(), pools@.len()) == Some(x.value()),
            None => dp_prefix(pools@, d.value(), n.value(), pools@.len()) is None,
        },
{
    let one = u256_from_u128(1);
    let mut acc = d;
    let mut i: usize = 0;
    while i < pools.len()
        invariant
            i <= pools.len(),
            n.value() < 256,
            one.value() == 1,
            dp_prefix(pools@, d.value(), n.value(), i as nat) == Some(acc.value()),
        decreases pools.len() - i,
    {
        let x = u256_from_u128(pools[i]);
        proof {
            assert(x.value() * n.value() + 1 < u256_modulus()) by (nonlinear_arith)
                requires
                    x.value() < u128_modulus(),
                    n.value() < 256,
            ;
        }
        let xn = unwrap_u256(u256_checked_mul(x, n));
        let den = unwrap_u256(u256_checked_add(xn, one));
        match u256_checked_multiply_ratio(acc, d, den) {
            Some(q) => {
                proof { lemma_u256_bound(q); }
                assert(dp_prefix(pools@, d.value(), n.value(), i as nat + 1) == Some(q.value()));
                acc = q;
            },
            None => {
                proof {
                    lemma_dp_prefix_none(pools@, d.value(), n.value(), i as nat + 1, pools@.len());
                }
                return None;
            },
        }
        i = i + 1;
    }
    Some(acc)
}

/// One Newton step for `D`.
fn d_step(ann: U256, ann_sum_x: U256, n: U256, d: U256, dp: U256) -> (r: U256)
    requires
        n.value() < 256,
        d_next(ann.value(), ann_sum_x.value(), n.value(), d.value(), dp.value()) is Some,
    ensures
        d_next(ann.value(), ann_sum_x.value(), n.value(), d.value(), dp.value()) == Some(r.value()),
{
    let one = u256_from_u128(1);
    let a = unwrap_u256(u256_checked_mul(dp, n));
    let b = unwrap_u256(u256_checked_add(ann_sum_x, a));
    let num = unwrap_u256(u256_checked_mul(b, d));
    let am1 = unwrap_u256(u256_checked_sub(ann, one));
    let c = unwrap_u256(u256_checked_mul(am1, d));
    let n1 = unwrap_u256(u256_checked_add(n, one));
    let e = unwrap_u256(u256_checked_mul(n1, dp));
    let den = unwrap_u256(u256_checked_add(c, e));
    unwrap_u256(u256_checked_div(num, den))
}

/// Whether two values differ by at most one.
pub(crate) fn u256_close(a: U256, b: U256) -> (r: bool)
    ensures
        r == close(a.value(), b.value()),
{
    let one = u256_from_u128(1);
    if !u256_lt(a, b) {
        let diff = unwrap_u256(u256_checked_sub(a, b));
        !u256_lt(one, diff)
    } else {
        let diff = unwrap_u256(u256_checked_sub(b, a));
        !u256_lt(one, diff)
    }
}

/// The value as a `u128`, or a conversion error.
pub(crate) fn narrow_u256(x: U256) -> (r: Result<u128, MathError>)
    ensures
        agrees(r, narrow(x.value())),
{
    match u256_to_u128(x) {
        Some(v) => Ok(v),
        None => Err(MathError::ConversionOverflow),
    }
}

/// The stableswap invariant `D` of `pools` under amplification `amp`.
pub fn compute_d(amp: u64, pools: &Vec<u128>) -> (r: Result<u128, MathError>)
    requires
        !(compute_d_spec(amp, pools@) is Panic),
    ensures
        agrees(r, compute_d_spec(amp, pools@)),
{
    let sum_x = sum_u256(pools);
    if u256_is_zero(sum_x) {
        return Ok(0);
    }
    let n_coins: u8 = (pools.len() % 256) as u8;
    let ann_u64 = match amp.checked_mul(n_coins as u64) {
        Some(v) => v / AMP_PRECISION,
        None => return Err(MathError::Overflow),
    };
    let ann = u256_from_u128(ann_u64 as u128);
    let n = u256_from_u128(n_coins as u128);
    let ann_sum_x = unwrap_u256(u256_checked_mul(ann, sum_x));
    let ghost total = d_loop(pools@, ann.value(), ann_sum_x.value(), n.value(), sum_x.value(), ITERATIONS as nat);
    assert(n_coins as nat == coin_count(pools@.len()));
    assert(ann.value() == (amp * n.value()) as nat / (AMP_PRECISION as nat));
    assert(compute_d_spec(amp, pools@) == total);
    let mut d = sum_x;
    let mut k: u8 = 0;
    while k < ITERATIONS
        invariant
            k <= ITERATIONS,
            n.value() < 256,
            !(total is Panic),
            compute_d_spec(amp, pools@) == total,
            d_loop(pools@, ann.value(), ann_sum_x.value(), n.value(), d.value(), (ITERATIONS - k) as nat) == total,
        decreases ITERATIONS - k,
    {
        proof {
            reveal_with_fuel(d_loop, 1);
        }
        match d_product(pools, d, n) {
            None => {
                assert(d_loop(pools@, ann.value(), ann_sum_x.value(), n.value(), d.value(), (ITERATIONS - k) as nat)
                    == Outcome::Fail(MathError::MultiplyRatio));
                return Err(MathError::MultiplyRatio);
            },
            Some(dp) => {
                let d2 = d_step(ann, ann_sum_x, n, d, dp);
                if u256_close(d2, d) {
                    assert(d_loop(pools@, ann.value(), ann_sum_x.value(), n.value(), d.value(), (ITERATIONS - k) as nat)
                        == narrow(d2.value()));
                    return narrow_u256(d2);
                }
                d = d2;
            },
        }
        k = k + 1;
    }
    narrow_u256(d)
}


/// Running `(sum, c)` of the `y` computation after the first `i` pools: the pool
/// of `from` counts with `new_amount`, the pool of `to` is skipped, the others
/// count with their balance; each counted amount `x` adds to `sum` and turns `c`
/// into `c * D / (x * n)`.
pub enum CyState {
    Val(nat, nat),
    Fail,
    Panic,
}

pub open spec fn cy_step(sum: nat, c: nat, x: nat, d: nat, n: nat) -> CyState {
    let s2 = sum + x;
    let den = x * n;
    if s2 >= u256_modulus() || den >= u256_modulus() {
        CyState::Panic
    } else if den == 0 || c * d / den >= u256_modulus() {
        CyState::Fail
    } else {
        CyState::Val(s2, c * d / den)
    }
}

pub open spec fn cy_prefix(from: AssetKey, to: AssetKey, new_amount: u128, pools: Seq<Asset>, d: nat, n: nat, i: nat) -> CyState
    decreases i,
{
    if i == 0 {
        CyState::Val(0, d)
    } else {
        match cy_prefix(from, to, new_amount, pools, d, n, (i - 1) as nat) {
            CyState::Val(sum, c) => {
                let p = pools[i - 1];
                if p.info@ == from {
                    cy_step(sum, c, new_amount as nat, d, n)
                } else if p.info@ != to {
                    cy_step(sum, c, p.amount as nat, d, n)
                } else {
                    CyState::Val(sum, c)
                }
            },
            other => other,
        }
    }
}

pub proof fn lemma_cy_prefix_stuck(from: AssetKey, to: AssetKey, new_amount: u128, pools: Seq<Asset>, d: nat, n: nat, i: nat, j: nat)
    requires
        i <= j,
        !(cy_prefix(from, to, new_amount, pools, d, n, i) is Val),
    ensures
        cy_prefix(from, to, new_amount, pools, d, n, j) == cy_prefix(from, to, new_amount, pools, d, n, i),
    decreases j - i,
{
    if i < j {
        lemma_cy_prefix_stuck(from, to, new_amount, pools, d, n, i, (j - 1) as nat);
    }
}

/// The Newton iteration for `y` with `k` steps left: `y' = (y^2 + c) / (2y + b - D)`.
pub open spec fn y_loop(c: nat, b: nat, d: nat, y: nat, k: nat) -> Outcome
    decreases k,
{
    if k == 0 {
        Outcome::Fail(MathError::NotConverging)
    } else {
        let yy = y * y;
        let num = yy + c;
        let t = y + y + b;
        if yy >= u256_modulus() || num >= u256_modulus() || y + y >= u256_modulus() || t >= u256_modulus() || t < d
            || t - d == 0 {
            Outcome::Panic
        } else {
            let y2 = num / ((t - d) as nat);
            if close(y2, y) {
                narrow(y2)
            } else {
                y_loop(c, b, d, y2, (k - 1) as nat)
            }
        }
    }
}

/// What follows `D` in the computation of `y`: the fold over the pools, then
/// `c <- c * D / (Ann * n)`, `b = sum + D / Ann`, and the iteration from `y = D`.
pub open spec fn y_after_d(from: AssetKey, to: AssetKey, new_amount: u128, pools: Seq<Asset>, ann: nat, n: nat, d: nat) -> Outcome {
    match cy_prefix(from, to, new_amount, pools, d, n, pools.len()) {
        CyState::Fail => Outcome::Fail(MathError::MultiplyRatio),
        CyState::Panic => Outcome::Panic,
        CyState::Val(sum, c) => {
            let cd = c * d;
            let an = ann * n;
            if cd >= u256_modulus() || an >= u256_modulus() || an == 0 || ann == 0 || sum + d / ann >= u256_modulus() {
                Outcome::Panic
            } else {
                y_loop(cd / an, sum + d / ann, d, d, ITERATIONS as nat)
            }
        },
    }
}

/// The new balance of the `to` pool when the `from` pool is set to `new_amount`,
/// keeping the invariant `D` of the current balances.
pub open spec fn calc_y_spec(from: AssetKey, to: AssetKey, new_amount: u128, pools: Seq<Asset>, amp: u64) -> Outcome {
    let n = coin_count(pools.len());
    if amp * n > u64::MAX {
        Outcome::Fail(MathError::Overflow)
    } else {
        let ann = (amp * n) as nat / (AMP_PRECISION as nat);
        match compute_d_spec(amp, amounts_of(pools)) {
            Outcome::Value(d) => y_after_d(from, to, new_amount, pools, ann, n, d),
            other => other,
        }
    }
}

/// The fold over the pools of the `y` computation.
fn y_fold(from: &AssetInfo, to: &AssetInfo, new_amount: u128, pools: &Vec<Asset>, d: U256, n: U256) -> (r: Result<(U256, U256), MathError>)
    requires
        n.value() < 256,
        !(cy_prefix(from@, to@, new_amount, pools@, d.value(), n.value(), pools@.len()) is Panic),
    ensures
        match r {
            Ok((sum, c)) => cy_prefix(from@, to@, new_amount, pools@, d.value(), n.value(), pools@.len())
                == CyState::Val(sum.value(), c.value()),
            Err(e) => e == MathError::MultiplyRatio
                && cy_prefix(from@, to@, new_amount, pools@, d.value(), n.value(), pools@.len()) is Fail,
        },
{
    let mut sum = u256_from_u128(0);
    let mut c = d;
    let mut i: usize = 0;
    while i < pools.len()
        invariant
            i <= pools.len(),
            n.value() < 256,
            !(cy_prefix(from@, to@, new_amount, pools@, d.value(), n.value(), pools@.len()) is Panic),
            cy_prefix(from@, to@, new_amount, pools@, d.value(), n.value(), i as nat) == CyState::Val(sum.value(), c.value()),
        decreases pools.len() - i,
    {
        let pool = &pools[i];
        let is_from = pool.info.same(from);
        let is_to = pool.info.same(to);
        if is_from || !is_to {
            let x = if is_from { new_amount } else { pool.amount };
            assert(cy_prefix(from@, to@, new_amount, pools@, d.value(), n.value(), i as nat + 1)
                == cy_step(sum.value(), c.value(), x as nat, d.value(), n.value()));
            let xu = u256_from_u128(x);
            proof {
                lemma_u256_bound(sum);
                assert(xu.value() * n.value() < u256_modulus()) by (nonlinear_arith)
                    requires
                        xu.value() < u128_modulus(),
                        n.value() < 256,
                ;
            }
            match u256_checked_add(sum, xu) {
                None => {
                    proof {
                        lemma_cy_prefix_stuck(from@, to@, new_amount, pools@, d.value(), n.value(), i as nat + 1, pools@.len());
                    }
                    assert(false);
                },
                Some(s2) => {
                    let den = unwrap_u256(u256_checked_mul(xu, n));
                    match u256_checked_multiply_ratio(c, d, den) {
                        None => {
                            proof {
                                lemma_cy_prefix_stuck(from@, to@, new_amount, pools@, d.value(), n.value(), i as nat + 1, pools@.len());
                            }
                            return Err(MathError::MultiplyRatio);
                        },
                        Some(c2) => {
                            proof { lemma_u256_bound(c2); lemma_u256_bound(s2); lemma_u256_bound(den); }
                            assert(den.value() == x * n.value());
                            assert(cy_step(sum.value(), c.value(), x as nat, d.value(), n.value()) == CyState::Val(s2.value(), c2.value()));
                            sum = s2;
                            c = c2;
                        },
                    }
                },
            }
        } else {
            assert(pools@[i as int].info@ == to@);
            assert(pools@[i as int].info@ != from@);
        }
        assert(cy_prefix(from@, to@, new_amount, pools@, d.value(), n.value(), i as nat + 1) == CyState::Val(sum.value(), c.value()));
        i = i + 1;
    }
    Ok((sum, c))
}

/// One Newton step for `y`.
pub(crate) fn y_step(c: U256, b: U256, d: U256, y: U256) -> (r: U256)
    requires
        ({
            let yy = y.value() * y.value();
            let t = y.value() + y.value() + b.value();
            !(yy >= u256_modulus() || yy + c.value() >= u256_modulus() || y.value() + y.value() >= u256_modulus()
                || t >= u256_modulus() || t < d.value() || t - d.value() == 0)
        }),
    ensures
        r.value() == (y.value() * y.value() + c.value()) / ((y.value() + y.value() + b.value() - d.value()) as nat),
{
    let yy = unwrap_u256(u256_checked_mul(y, y));
    let num = unwrap_u256(u256_checked_add(yy, c));
    let y2 = unwrap_u256(u256_checked_add(y, y));
    let t = unwrap_u256(u256_checked_add(y2, b));
    let den = unwrap_u256(u256_checked_sub(t, d));
    unwrap_u256(u256_checked_div(num, den))
}

/// The new balance of the `to` pool when the `from` pool holds `new_amount`,
/// keeping the invariant `D` of `pools` under amplification `amp`.
pub fn calc_y(from: &AssetInfo, to: &AssetInfo, new_amount: u128, pools: &Vec<Asset>, amp: u64) -> (r: Result<u128, MathError>)
    requires
        !(calc_y_spec(from@, to@, new_amount, pools@, amp) is Panic),
    ensures
        agrees(r, calc_y_spec(from@, to@, new_amount, pools@, amp)),
{
    let n_coins: u8 = (pools.len() % 256) as u8;
    let ann_u64 = match amp.checked_mul(n_coins as u64) {
        Some(v) => v / AMP_PRECISION,
        None => return Err(MathError::Overflow),
    };
    let ann = u256_from_u128(ann_u64 as u128);
    let n = u256_from_u128(n_coins as u128);
    assert(n_coins as nat == coin_count(pools@.len()));
    let values = amounts(pools);
    let d_small = match compute_d(amp, &values) {
        Ok(v) => v,
        Err(e) => return Err(e),
    };
    let d = u256_from_u128(d_small);
    let (sum, c0) = match y_fold(from, to, new_amount, pools, d, n) {
        Ok(p) => p,
        Err(e) => return Err(e),
    };
    let cd = unwrap_u256(u256_checked_mul(c0, d));
    let an = unwrap_u256(u256_checked_mul(ann, n));
    let c = unwrap_u256(u256_checked_div(cd, an));
    let d_over_ann = unwrap_u256(u256_checked_div(d, ann));
    let b = unwrap_u256(u256_checked_add(sum, d_over_ann));
    let ghost total = y_loop(c.value(), b.value(), d.value(), d.value(), ITERATIONS as nat);
    assert(calc_y_spec(from@, to@, new_amount, pools@, amp) == total);
    let mut y = d;
    let mut k: u8 = 0;
    while k < ITERATIONS
        invariant
            k <= ITERATIONS,
            !(total is Panic),
            calc_y_spec(from@, to@, new_amount, pools@, amp) == total,
            y_loop(c.value(), b.value(), d.value(), y.value(), (ITERATIONS - k) as nat) == total,
        decreases ITERATIONS - k,
    {
        let y2 = y_step(c, b, d, y);
        if u256_close(y2, y) {
            return narrow_u256(y2);
        }
        y = y2;
        k = k + 1;
    }
    Err(MathError::NotConverging)
}

} // verus!
