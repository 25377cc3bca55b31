//! Stableswap invariant on balances held as `Decimal256` (18 decimal places):
//! the invariant `D` with a convergence tolerance of one unit of the pool's
//! greatest token precision, and the balance `y` of one coin that keeps `D` fixed.
use vstd::prelude::*;
use crate::wide::{
    U256, lemma_u256_bound, u256_modulus, u128_modulus, decimal_fractional, pow10, lemma_pow10_le, lemma_pow10_mono,
    u256_from_u128, u256_lt, u256_is_zero, u256_checked_add, u256_checked_sub, u256_checked_mul,
    u256_checked_div, u256_checked_multiply_ratio, dec256_checked_mul, dec256_checked_div,
    dec256_from_atomics, dec256_checked_from_ratio, scaled_down, dec_to_uint256_with_precision,
};
use crate::types::{AssetInfo, AssetKey};
use crate::stableswap::{
    MathError, Outcome, ITERATIONS, AMP_PRECISION, coin_count, close, y_loop, unwrap_u256, y_step,
    u256_close, narrow_u256, agrees,
};

verus! {

/// An amount of a token as a `Decimal256`, by its atomics.
#[derive(Clone, Debug)]
pub struct DecimalAsset {
    pub info: AssetInfo,
    pub amount: U256,
}

/// The values of a sequence of wide integers.
pub open spec fn values_of(s: Seq<U256>) -> Seq<nat> {
    s.map_values(|x: U256| x.value())
}

/// The decimal amounts of a sequence of decimal assets.
pub open spec fn dec_amounts_of(s: Seq<DecimalAsset>) -> Seq<nat> {
    s.map_values(|a: DecimalAsset| a.amount.value())
}

pub open spec fn nat_sum(s: Seq<nat>) -> nat
    decreases s.len(),
{
    if s.len() == 0 {
        0
    } else {
        nat_sum(s.drop_last()) + s.last()
    }
}

pub proof fn lemma_nat_sum_prefix(s: Seq<nat>, i: int)
    requires
        0 <= i <= s.len(),
    ensures
        nat_sum(s.take(i)) <= nat_sum(s),
    decreases s.len() - i,
{
    if i < s.len() {
        lemma_nat_sum_prefix(s, i + 1);
        assert(s.take(i + 1).drop_last() == s.take(i));
    } else {
        assert(s.take(i) == s);
    }
}

/// A computation over decimals that either yields a value or stops with an error.
pub enum DecFold {
    Val(nat),
    Fail(MathError),
}

/// `D_P` after folding the first `i` balances: `D_P <- D_P * D / (x_i * n)` on atomics.
pub open spec fn dpd_prefix(pools: Seq<nat>, d: nat, n: nat, i: nat) -> DecFold
    decreases i,
{
    if i == 0 {
        DecFold::Val(d)
    } else {
        match dpd_prefix(pools, d, n, (i - 1) as nat) {
            DecFold::Val(acc) => {
                let den = pools[i - 1] * n;
                if den >= u256_modulus() {
                    DecFold::Fail(MathError::Overflow)
                } else if den == 0 || acc * d / den >= u256_modulus() {
                    DecFold::Fail(MathError::MultiplyRatio)
                } else {
                    DecFold::Val(acc * d / den)
                }
            },
            other => other,
        }
    }
}

pub proof fn lemma_dpd_prefix_stuck(pools: Seq<nat>, d: nat, n: nat, i: nat, j: nat)
    requires
        i <= j,
        dpd_prefix(pools, d, n, i) is Fail,
    ensures
        dpd_prefix(pools, d, n, j) == dpd_prefix(pools, d, n, i),
    decreases j - i,
{
    if i < j {
        lemma_dpd_prefix_stuck(pools, d, n, i, (j - 1) as nat);
    }
}

/// Decimal product, `None` on overflow (where the operator panics).
pub open spec fn dmul(a: nat, b: nat) -> Option<nat> {
    if a * b / decimal_fractional() >= u256_modulus() {
        None
    } else {
        Some(a * b / decimal_fractional())
    }
}

/// One Newton step for `D` in decimals:
/// `D' = (Ann * S + D_P * n) * D / ((Ann - 1) * D + (n + 1) * D_P)`.
pub open spec fn dd_next(ann: nat, ann_sum_x: nat, nd: nat, d: nat, dp: nat) -> Option<nat> {
    let f = decimal_fractional();
    match dmul(dp, nd) {
        None => None,
        Some(a) => if ann_sum_x + a >= u256_modulus() {
            None
        } else {
            match dmul((ann_sum_x + a) as nat, d) {
                None => None,
                Some(num) => if ann < f {
                    None
                } else {
                    match dmul((ann - f) as nat, d) {
                        None => None,
                        Some(c) => if nd + f >= u256_modulus() {
                            None
                        } else {
                            match dmul((nd + f) as nat, dp) {
                                None => None,
                                Some(e) => if c + e >= u256_modulus() || c + e == 0
                                    || num * f / ((c + e) as nat) >= u256_modulus() {
                                    None
                                } else {
                                    Some(num * f / ((c + e) as nat))
                                },
                            }
                        },
                    }
                },
            }
        },
    }
}

/// Two decimals differ by at most `tol`.
pub open spec fn within(a: nat, b: nat, tol: nat) -> bool {
    if a >= b {
        a - b <= tol
    } else {
        b - a <= tol
    }
}

/// The Newton iteration for `D` in decimals with `k` steps left.
pub open spec fn dd_loop(pools: Seq<nat>, ann: nat, ann_sum_x: nat, n: nat, tol: nat, d: nat, k: nat) -> Outcome
    decreases k,
{
    if k == 0 {
        Outcome::Value(d)
    } else {
        match dpd_prefix(pools, d, n, pools.len()) {
            DecFold::Fail(e) => Outcome::Fail(e),
            DecFold::Val(dp) => match dd_next(ann, ann_sum_x, n * decimal_fractional(), d, dp) {
                None => Outcome::Panic,
                Some(d2) => if within(d2, d, tol) {
                    Outcome::Value(d2)
                } else {
                    dd_loop(pools, ann, ann_sum_x, n, tol, d2, (k - 1) as nat)
                },
            },
        }
    }
}

/// One unit of the given precision, in atomics: `10^(18 - p)`, or 0 past 18 places.
pub open spec fn tolerance(prec: u8) -> nat {
    if prec <= 18 {
        pow10((18 - prec) as nat)
    } else {
        0
    }
}

/// The invariant `D` (as `Decimal256` atomics) of the decimal balances `pools`.
pub open spec fn compute_d_dec_spec(amp: u64, pools: Seq<nat>, prec: u8) -> Outcome {
    let n = coin_count(pools.len());
    let sum = nat_sum(pools);
    if exists|i: int| 0 <= i < pools.len() && pools[i] == 0 {
        Outcome::Value(0)
    } else if sum >= u256_modulus() {
        Outcome::Panic
    } else if amp * n > u64::MAX {
        Outcome::Fail(MathError::Overflow)
    } else {
        let ann = ((amp * n) as nat / (AMP_PRECISION as nat)) * decimal_fractional();
        match dmul(ann, sum) {
            None => Outcome::Panic,
            Some(ann_sum_x) => dd_loop(pools, ann, ann_sum_x, n, tolerance(prec), sum, ITERATIONS as nat),
        }
    }
}

/// A decimal result agrees with an outcome.
pub open spec fn agrees_wide(r: Result<U256, MathError>, o: Outcome) -> bool {
    match r {
        Ok(x) => o == Outcome::Value(x.value()),
        Err(e) => o == Outcome::Fail(e),
    }
}

/// Whether any balance is zero.
fn any_zero(pools: &Vec<U256>) -> (r: bool)
    ensures
        r == exists|i: int| 0 <= i < pools@.len() && pools@[i].value() == 0,
{
    let mut i: usize = 0;
    while i < pools.len()
        invariant
            i <= pools.len(),
            forall|j: int| 0 <= j < i ==> pools@[j].value() != 0,
        decreases pools.len() - i,
    {
        if u256_is_zero(pools[i]) {
            return true;
        }
        i = i + 1;
    }
    false
}

fn sum_dec(pools: &Vec<U256>) -> (r: U256)
    requires
        nat_sum(values_of(pools@)) < u256_modulus(),
    ensures
        r.value() == nat_sum(values_of(pools@)),
{
    let mut acc = u256_from_u128(0);
    let mut i: usize = 0;
    while i < pools.len()
        invariant
            i <= pools.len(),
            nat_sum(values_of(pools@)) < u256_modulus(),
            acc.value() == nat_sum(values_of(pools@).take(i as int)),
        decreases pools.len() - i,
    {
        proof {
            assert(values_of(pools@).take(i as int + 1).drop_last() == values_of(pools@).take(i as int));
            lemma_nat_sum_prefix(values_of(pools@), i as int + 1);
        }
        acc = unwrap_u256(u256_checked_add(acc, pools[i]));
        i = i + 1;
    }
    assert(values_of(pools@).take(pools.len() as int) == values_of(pools@));
    acc
}

fn dp_dec(pools: &Vec<U256>, d: U256, n: U256) -> (r: Result<U256, MathError>)
    ensures
        match r {
            Ok(x) => dpd_prefix(values_of(pools@), d.value(), n.value(), pools@.len()) == DecFold::Val(x.value()),
            Err(e) => dpd_prefix(values_of(pools@), d.value(), n.value(), pools@.len()) == DecFold::Fail(e),
        },
{
    let mut acc = d;
    let mut i: usize = 0;
    while i < pools.len()
        invariant
            i <= pools.len(),
            dpd_prefix(values_of(pools@), d.value(), n.value(), i as nat) == DecFold::Val(acc.value()),
        decreases pools.len() - i,
    {
        let ghost vals = values_of(pools@);
        assert(vals[i as int] == pools@[i as int].value());
        match u256_checked_mul(pools[i], n) {
            None => {
                proof { lemma_dpd_prefix_stuck(vals, d.value(), n.value(), i as nat + 1, pools@.len()); }
                return Err(MathError::Overflow);
            },
            Some(den) => match u256_checked_multiply_ratio(acc, d, den) {
                None => {
                    proof {
                        lemma_u256_bound(den);
                        lemma_dpd_prefix_stuck(vals, d.value(), n.value(), i as nat + 1, pools@.len());
                    }
                    return Err(MathError::MultiplyRatio);
                },
                Some(q) => {
                    proof { lemma_u256_bound(q); lemma_u256_bound(den); }
                    assert(dpd_prefix(vals, d.value(), n.value(), i as nat + 1) == DecFold::Val(q.value()));
                    acc = q;
                },
            },
        }
        i = i + 1;
    }
    Ok(acc)
}

fn unwrap_dmul(a: U256, b: U256) -> (r: U256)
    requires
        dmul(a.value(), b.value()) is Some,
    ensures
        dmul(a.value(), b.value()) == Some(r.value()),
{
    unwrap_u256(dec256_checked_mul(a, b))
}

fn dd_step(ann: U256, ann_sum_x: U256, nd: U256, d: U256, dp: U256) -> (r: U256)
    requires
        dd_next(ann.value(), ann_sum_x.value(), nd.value(), d.value(), dp.value()) is Some,
    ensures
        dd_next(ann.value(), ann_sum_x.value(), nd.value(), d.value(), dp.value()) == Some(r.value()),
{
    let one = u256_from_u128(1_000_000_000_000_000_000);
    let a = unwrap_dmul(dp, nd);
    let b = unwrap_u256(u256_checked_add(ann_sum_x, a));
    let num = unwrap_dmul(b, d);
    let am1 = unwrap_u256(u256_checked_sub(ann, one));
    let c = unwrap_dmul(am1, d);
    let n1 = unwrap_u256(u256_checked_add(nd, one));
    let e = unwrap_dmul(n1, dp);
    let den = unwrap_u256(u256_checked_add(c, e));
    unwrap_u256(dec256_checked_div(num, den))
}

fn within_exec(a: U256, b: U256, tol: U256) -> (r: bool)
    ensures
        r == within(a.value(), b.value(), tol.value()),
{
    if !u256_lt(a, b) {
        let diff = unwrap_u256(u256_checked_sub(a, b));
        !u256_lt(tol, diff)
    } else {
        let diff = unwrap_u256(u256_checked_sub(b, a));
        !u256_lt(tol, diff)
    }
}

/// One unit of precision `prec` as `Decimal256::with_precision(1, prec)`.
fn unit_of_precision(prec: u8) -> (r: U256)
    ensures
        r.value() == tolerance(prec),
{
    let one = u256_from_u128(1);
    proof {
        if prec <= 18 {
            lemma_pow10_le((18 - prec) as nat);
        } else {
            reveal_with_fuel(pow10, 2);
            lemma_pow10_mono(1, (prec - 18) as nat);
        }
    }
    assert(prec > 18 ==> 1nat / pow10((prec - 18) as nat) == 0) by (nonlinear_arith)
        requires
            prec > 18 ==> pow10((prec - 18) as nat) >= 10,
    {
    }
    unwrap_u256(dec256_from_atomics(one, prec as u32))
}

/// The stableswap invariant `D`, as `Decimal256` atomics, of the decimal
/// balances `pools` under amplification `amp`; iteration stops once two
/// successive values differ by at most one unit of precision `prec`.
pub fn compute_d_dec(amp: u64, pools: &Vec<U256>, prec: u8) -> (r: Result<U256, MathError>)
    requires
        !(compute_d_dec_spec(amp, values_of(pools@), prec) is Panic),
    ensures
        agrees_wide(r, compute_d_dec_spec(amp, values_of(pools@), prec)),
{
    let ghost vals = values_of(pools@);
    if any_zero(pools) {
        let ghost w = choose|i: int| 0 <= i < pools@.len() && pools@[i].value() == 0;
        assert(vals[w] == 0);
        return Ok(u256_from_u128(0));
    }
    assert(!exists|i: int| 0 <= i < vals.len() && vals[i] == 0);
    let sum_x = sum_dec(pools);
    let n_coins: u8 = (pools.len() % 256) as u8;
    let ann_int = match amp.checked_mul(n_coins as u64) {
        Some(v) => v / AMP_PRECISION,
        None => return Err(MathError::Overflow),
    };
    let one_int = u256_from_u128(1);
    assert((ann_int as nat) * decimal_fractional() < u256_modulus()) by (nonlinear_arith)
        requires
            ann_int < 0x1_0000_0000_0000_0000nat,
            decimal_fractional() == 1_000_000_000_000_000_000nat,
    ;
    let ann = unwrap_u256(dec256_checked_from_ratio(u256_from_u128(ann_int as u128), one_int));
    let n = u256_from_u128(n_coins as u128);
    assert((n_coins as nat) * decimal_fractional() < u256_modulus()) by (nonlinear_arith)
        requires
            n_coins < 256,
            decimal_fractional() == 1_000_000_000_000_000_000nat,
    ;
    let nd = unwrap_u256(dec256_checked_from_ratio(n, one_int));
    let ann_sum_x = unwrap_dmul(ann, sum_x);
    let tol = unit_of_precision(prec);
    let ghost total = dd_loop(vals, ann.value(), ann_sum_x.value(), n.value(), tol.value(), sum_x.value(), ITERATIONS as nat);
    assert(n_coins as nat == coin_count(pools@.len()));
    assert(compute_d_dec_spec(amp, vals, prec) == total);
    let mut d = sum_x;
    let mut k: u8 = 0;
    while k < ITERATIONS
        invariant
            k <= ITERATIONS,
            vals == values_of(pools@),
            nd.value() == n.value() * decimal_fractional(),
            !(total is Panic),
            compute_d_dec_spec(amp, vals, prec) == total,
            dd_loop(vals, ann.value(), ann_sum_x.value(), n.value(), tol.value(), d.value(), (ITERATIONS - k) as nat) == total,
        decreases ITERATIONS - k,
    {
        match dp_dec(pools, d, n) {
            Err(e) => {
                assert(dd_loop(vals, ann.value(), ann_sum_x.value(), n.value(), tol.value(), d.value(), (ITERATIONS - k) as nat)
                    == Outcome::Fail(e));
                return Err(e);
            },
            Ok(dp) => {
                let d2 = dd_step(ann, ann_sum_x, nd, d, dp);
                if within_exec(d2, d, tol) {
                    assert(dd_loop(vals, ann.value(), ann_sum_x.value(), n.value(), tol.value(), d.value(), (ITERATIONS - k) as nat)
                        == Outcome::Value(d2.value()));
                    return Ok(d2);
                }
                d = d2;
            },
        }
        k = k + 1;
    }
    Ok(d)
}

/// Running `(sum, c)` of the decimal `y` computation.
pub enum CydState {
    Val(nat, nat),
    Fail,
    Panic,
}

/// A counted decimal amount `x` turns `c` into `c * D / (int(x) * n)` and adds
/// to `sum`, where `int(x)` is `x` scaled down to precision `prec`.
pub open spec fn cyd_step(sum: nat, c: nat, x: nat, d: nat, n: nat, prec: u8) -> CydState {
    let den = scaled_down(x, prec) * n;
    if den >= u256_modulus() {
        CydState::Panic
    } else if den == 0 || c * d / den >= u256_modulus() {
        CydState::Fail
    } else if sum + x >= u256_modulus() {
        CydState::Panic
    } else {
        CydState::Val(sum + x, c * d / den)
    }
}

pub open spec fn cyd_prefix(from: AssetKey, to: AssetKey, new_amount: nat, pools: Seq<DecimalAsset>, d: nat, n: nat, prec: u8, i: nat) -> CydState
    decreases i,
{
    if i == 0 {
        CydState::Val(0, d)
    } else {
        match cyd_prefix(from, to, new_amount, pools, d, n, prec, (i - 1) as nat) {
            CydState::Val(sum, c) => {
                let p = pools[i - 1];
                if p.info@ == from {
                    cyd_step(sum, c, new_amount, d, n, prec)
                } else if p.info@ != to {
                    cyd_step(sum, c, p.amount.value(), d, n, prec)
                } else {
                    CydState::Val(sum, c)
                }
            },
            other => other,
        }
    }
}

pub proof fn lemma_cyd_prefix_stuck(from: AssetKey, to: AssetKey, new_amount: nat, pools: Seq<DecimalAsset>, d: nat, n: nat, prec: u8, i: nat, j: nat)
    requires
        i <= j,
        !(cyd_prefix(from, to, new_amount, pools, d, n, prec, i) is Val),
    ensures
        cyd_prefix(from, to, new_amount, pools, d, n, prec, j) == cyd_prefix(from, to, new_amount, pools, d, n, prec, i),
    decreases j - i,
{
    if i < j {
        lemma_cyd_prefix_stuck(from, to, new_amount, pools, d, n, prec, i, (j - 1) as nat);
    }
}

/// The new balance (an integer at precision `prec`) of the `to` pool when the
/// pool of `from` holds `new_amount`, keeping the invariant of the decimal balances.
pub open spec fn calc_y_dec_spec(from: AssetKey, to: AssetKey, new_amount: nat, pools: Seq<DecimalAsset>, amp: u64, prec: u8) -> Outcome {
    let n = coin_count(pools.len());
    if from == to {
        Outcome::Fail(MathError::SameAssets)
    } else if amp * n > u64::MAX {
        Outcome::Fail(MathError::Overflow)
    } else {
        let ann = (amp * n) as nat / (AMP_PRECISION as nat);
        match compute_d_dec_spec(amp, dec_amounts_of(pools), prec) {
            Outcome::Value(dd) => if prec > 18 {
                Outcome::Panic
            } else {
                let d = scaled_down(dd, prec);
                match cyd_prefix(from, to, new_amount, pools, d, n, prec, pools.len()) {
                    CydState::Fail => Outcome::Fail(MathError::MultiplyRatio),
                    CydState::Panic => Outcome::Panic,
                    CydState::Val(sum, c) => {
                        let cd = c * d;
                        let an = ann * n;
                        let si = scaled_down(sum, prec);
                        if cd >= u256_modulus() || an >= u256_modulus() || an == 0 || ann == 0
                            || si + d / ann >= u256_modulus() {
                            Outcome::Panic
                        } else {
                            y_loop(cd / an, si + d / ann, d, d, ITERATIONS as nat)
                        }
                    },
                }
            },
            other => other,
        }
    }
}

fn dec_amounts(pools: &Vec<DecimalAsset>) -> (r: Vec<U256>)
    ensures
        values_of(r@) == dec_amounts_of(pools@),
{
    let mut r: Vec<U256> = Vec::new();
    let mut i: usize = 0;
    while i < pools.len()
        invariant
            i <= pools.len(),
            values_of(r@) == dec_amounts_of(pools@.take(i as int)),
        decreases pools.len() - i,
    {
        r.push(pools[i].amount);
        assert(dec_amounts_of(pools@.take(i as int + 1)) == dec_amounts_of(pools@.take(i as int)).push(pools@[i as int].amount.value()));
        assert(values_of(r@) == dec_amounts_of(pools@.take(i as int + 1)));
        i = i + 1;
    }
    assert(pools@.take(pools.len() as int) == pools@);
    r
}

fn yd_fold(from: &AssetInfo, to: &AssetInfo, new_amount: U256, pools: &Vec<DecimalAsset>, d: U256, n: U256, prec: u8) -> (r: Result<(U256, U256), MathError>)
    requires
        prec <= 18,
        !(cyd_prefix(from@, to@, new_amount.value(), pools@, d.value(), n.value(), prec, pools@.len()) is Panic),
    ensures
        match r {
            Ok((sum, c)) => cyd_prefix(from@, to@, new_amount.value(), pools@, d.value(), n.value(), prec, pools@.len())
                == CydState::Val(sum.value(), c.value()),
            Err(e) => e == MathError::MultiplyRatio
                && cyd_prefix(from@, to@, new_amount.value(), pools@, d.value(), n.value(), prec, pools@.len()) is Fail,
        },
{
    let mut sum = u256_from_u128(0);
    let mut c = d;
    let mut i: usize = 0;
    while i < pools.len()
        invariant
            i <= pools.len(),
            prec <= 18,
            !(cyd_prefix(from@, to@, new_amount.value(), pools@, d.value(), n.value(), prec, pools@.len()) is Panic),
            cyd_prefix(from@, to@, new_amount.value(), pools@, d.value(), n.value(), prec, i as nat) == CydState::Val(sum.value(), c.value()),
        decreases pools.len() - i,
    {
        let pool = &pools[i];
        let is_from = pool.info.same(from);
        let is_to = pool.info.same(to);
        if is_from || !is_to {
            let x = if is_from { new_amount } else { pool.amount };
            assert(cyd_prefix(from@, to@, new_amount.value(), pools@, d.value(), n.value(), prec, i as nat + 1)
                == cyd_step(sum.value(), c.value(), x.value(), d.value(), n.value(), prec));
            let xi = dec_to_uint256_with_precision(x, prec);
            match u256_checked_mul(xi, n) {
                None => {
                    proof {
                        lemma_cyd_prefix_stuck(from@, to@, new_amount.value(), pools@, d.value(), n.value(), prec, i as nat + 1, pools@.len());
                    }
                    assert(false);
                },
                Some(den) => match u256_checked_multiply_ratio(c, d, den) {
                    None => {
                        proof {
                            lemma_u256_bound(den);
                            lemma_cyd_prefix_stuck(from@, to@, new_amount.value(), pools@, d.value(), n.value(), prec, i as nat + 1, pools@.len());
                        }
                        return Err(MathError::MultiplyRatio);
                    },
                    Some(c2) => {
                        proof { lemma_u256_bound(c2); lemma_u256_bound(den); }
                        match u256_checked_add(sum, x) {
                            None => {
                                proof {
                                    lemma_cyd_prefix_stuck(from@, to@, new_amount.value(), pools@, d.value(), n.value(), prec, i as nat + 1, pools@.len());
                                }
                                assert(false);
                            },
                            Some(s2) => {
                                proof { lemma_u256_bound(s2); }
                                assert(cyd_step(sum.value(), c.value(), x.value(), d.value(), n.value(), prec) == CydState::Val(s2.value(), c2.value()));
                                sum = s2;
                                c = c2;
                            },
                        }
                    },
                },
            }
        } else {
            assert(pools@[i as int].info@ == to@);
            assert(pools@[i as int].info@ != from@);
        }
        assert(cyd_prefix(from@, to@, new_amount.value(), pools@, d.value(), n.value(), prec, i as nat + 1) == CydState::Val(sum.value(), c.value()));
        i = i + 1;
    }
    Ok((sum, c))
}

/// The new balance, at precision `prec`, of the `to` pool when the pool of
/// `from` holds the decimal `new_amount`, keeping the invariant of `pools`.
pub fn calc_y_dec(from: &AssetInfo, to: &AssetInfo, new_amount: U256, pools: &Vec<DecimalAsset>, amp: u64, prec: u8) -> (r: Result<u128, MathError>)
    requires
        !(calc_y_dec_spec(from@, to@, new_amount.value(), pools@, amp, prec) is Panic),
    ensures
        agrees(r, calc_y_dec_spec(from@, to@, new_amount.value(), pools@, amp, prec)),
{
    if from.same(to) {
        return Err(MathError::SameAssets);
    }
    let n_coins: u8 = (pools.len() % 256) as u8;
    let ann_u64 = match amp.checked_mul(n_coins as u64) {
        Some(v) => v / AMP_PRECISION,
        None => return Err(MathError::Overflow),
    };
    let ann = u256_from_u128(ann_u64 as u128);
    let n = u256_from_u128(n_coins as u128);
    assert(n_coins as nat == coin_count(pools@.len()));
    let values = dec_amounts(pools);
    let dd = match compute_d_dec(amp, &values, prec) {
        Ok(v) => v,
        Err(e) => return Err(e),
    };
    if prec > 18 {
        assert(false);
    }
    let d = dec_to_uint256_with_precision(dd, prec);
    let (sum, c0) = match yd_fold(from, to, new_amount, pools, d, n, prec) {
        Ok(p) => p,
        Err(e) => return Err(e),
    };
    let cd = unwrap_u256(u256_checked_mul(c0, d));
    let an = unwrap_u256(u256_checked_mul(ann, n));
    let c = unwrap_u256(u256_checked_div(cd, an));
    let si = dec_to_uint256_with_precision(sum, prec);
    let d_over_ann = unwrap_u256(u256_checked_div(d, ann));
    let b = unwrap_u256(u256_checked_add(si, d_over_ann));
    let ghost total = y_loop(c.value(), b.value(), d.value(), d.value(), ITERATIONS as nat);
    assert(calc_y_dec_spec(from@, to@, new_amount.value(), pools@, amp, prec) == total);
    let mut y = d;
    let mut k: u8 = 0;
    while k < ITERATIONS
        invariant
            k <= ITERATIONS,
            !(total is Panic),
            calc_y_dec_spec(from@, to@, new_amount.value(), pools@, amp, prec) == total,
            y_loop(c.value(), b.value(), d.value(), y.value(), (ITERATIONS - k) as nat) == total,
        decreases ITERATIONS - k,
    {
        let y2 = y_step(c, b, d, y);
        if u256_close(y2, y) {
            return narrow_u256(y2);
        }
        y = y2;
        k = k + 1;
    }
    Err(MathError::NotConverging)
}

} // verus!
