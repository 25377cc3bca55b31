//! The stableswap pool's own computations: the price of a swap in either
//! direction, the time-weighted price accumulators, and the checks on the
//! pool's tokens.
use vstd::prelude::*;
use crate::wide::{
    U256, lemma_u256_bound, u256_modulus, u128_modulus, decimal_fractional, pow10, scaled_down,
    u256_from_u128, u256_to_u128, u256_checked_add, u256_checked_sub, u256_checked_mul, u256_checked_div,
    dec256_from_atomics, decimal_checked_from_ratio, dec_to_uint128_with_precision, lemma_pow10_le,
};
use crate::types::{Asset, AssetInfo, AssetKey};
use crate::stableswap::{MathError, Outcome, y_loop, coin_count, ITERATIONS, AMP_PRECISION};
use crate::stableswap_dec::{DecimalAsset, calc_y_dec, calc_y_dec_spec, CydState, cyd_prefix, dec_amounts_of, compute_d_dec_spec};
use crate::amp::{MathConfig, compute_current_amp, current_amp_spec};
use crate::precision::{adjust_precision, adjust_precision_spec};
use crate::vault::swap::{SwapType, SwapResponse, Trade};
use crate::vault::join::PoolResponse;

verus! {

/// What a swap computation gives: two amounts, an error, or a panic of a
/// plain arithmetic operator.
pub enum SwapMath {
    Value(nat, nat),
    Fail(MathError),
    Panic,
}

/// The integer at precision `prec` of a decimal, if it fits in 128 bits.
pub open spec fn to_u128_at(x: nat, prec: u8) -> Option<nat> {
    if scaled_down(x, prec) < u128_modulus() { Some(scaled_down(x, prec)) } else { None }
}

/// The tokens received for `offer` (a decimal amount of a token with balance
/// `offer_pool`) from the pool of `ask_pool`, whose token has `prec` decimals,
/// and the spread against a one-to-one rate; the amplification is `amp`.
pub open spec fn compute_swap_spec(offer_info: AssetInfo, offer_amount: nat, offer_pool: DecimalAsset, ask_pool: DecimalAsset, pools: Seq<DecimalAsset>, amp: Result<u64, MathError>, prec: u8) -> SwapMath {
    let new_amount = offer_pool.amount.value() + offer_amount;
    if new_amount >= u256_modulus() {
        SwapMath::Panic
    } else {
        match amp {
            Err(e) => SwapMath::Fail(e),
            Ok(a) => match calc_y_dec_spec(offer_info@, ask_pool.info@, new_amount, pools, a, prec) {
                Outcome::Panic => SwapMath::Panic,
                Outcome::Fail(e) => SwapMath::Fail(e),
                Outcome::Value(new_ask) => if prec > 18 {
                    SwapMath::Panic
                } else {
                    match to_u128_at(ask_pool.amount.value(), prec) {
                        None => SwapMath::Fail(MathError::ConversionOverflow),
                        Some(ask) => if ask < new_ask {
                            SwapMath::Panic
                        } else {
                            let ret = (ask - new_ask) as nat;
                            match to_u128_at(offer_amount, prec) {
                                None => SwapMath::Fail(MathError::ConversionOverflow),
                                Some(off) => SwapMath::Value(ret, if off > ret { (off - ret) as nat } else { 0 }),
                            }
                        },
                    }
                },
            },
        }
    }
}

/// The result of a swap of `offer` against the pools at block time `t`:
/// the amount returned of the asked token (with `ask_precision` decimals) and
/// the spread.
pub fn compute_swap(
    offer: &DecimalAsset,
    offer_pool: &DecimalAsset,
    ask_pool: &DecimalAsset,
    pools: &Vec<DecimalAsset>,
    math_config: &MathConfig,
    t: u64,
    ask_precision: u8,
) -> (r: Result<(u128, u128), MathError>)
    requires
        !(compute_swap_spec(offer.info, offer.amount.value(), *offer_pool, *ask_pool, pools@, current_amp_spec(*math_config, t), ask_precision) is Panic),
    ensures
        match r {
            Ok((a, b)) => compute_swap_spec(offer.info, offer.amount.value(), *offer_pool, *ask_pool, pools@, current_amp_spec(*math_config, t), ask_precision)
                == SwapMath::Value(a as nat, b as nat),
            Err(e) => compute_swap_spec(offer.info, offer.amount.value(), *offer_pool, *ask_pool, pools@, current_amp_spec(*math_config, t), ask_precision)
                == SwapMath::Fail(e),
        },
{
    let new_amount = match u256_checked_add(offer_pool.amount, offer.amount) {
        Some(v) => v,
        None => {
            proof { assert(false); }
            return Err(MathError::Overflow);
        },
    };
    let amp = compute_current_amp(math_config, t)?;
    let new_ask = calc_y_dec(&offer.info, &ask_pool.info, new_amount, pools, amp, ask_precision)?;
    if ask_precision > 18 {
        proof { assert(false); }
        return Err(MathError::Overflow);
    }
    let ask = match dec_to_uint128_with_precision(ask_pool.amount, ask_precision) {
        Some(v) => v,
        None => return Err(MathError::ConversionOverflow),
    };
    if ask < new_ask {
        proof { assert(false); }
        return Err(MathError::Overflow);
    }
    let ret = ask - new_ask;
    let off = match dec_to_uint128_with_precision(offer.amount, ask_precision) {
        Some(v) => v,
        None => return Err(MathError::ConversionOverflow),
    };
    let spread = if off > ret { off - ret } else { 0 };
    Ok((ret, spread))
}

/// What the offer computation gives: three amounts, an error, or a panic.
pub enum OfferMath {
    Value(nat, nat, nat),
    Fail(MathError),
    Panic,
}

/// The atomics of the commission rate `bps / 10000`.
pub open spec fn commission_atomics(bps: u16) -> nat {
    (bps as nat) * decimal_fractional() / 10000
}

/// `Decimal * Uint128` with a check: `amount * atomics / 10^18` floored, if it fits.
pub open spec fn checked_mul_uint128_spec(atomics: nat, amount: u128) -> Option<nat> {
    let v = (amount as nat) * atomics / decimal_fractional();
    if v < u128_modulus() { Some(v) } else { None }
}

/// The amount to offer, the spread and the commission, to receive `ask_amount`
/// of the asked token (with `ask_prec` decimals) from the pool of `ask_pool`,
/// offering the token of `offer_pool` (with `offer_prec` decimals); the
/// invariant is computed at `greatest_prec`, and `bps` is the total fee.
pub open spec fn compute_offer_amount_spec(
    ask_amount: u128,
    offer_pool: DecimalAsset,
    ask_pool: DecimalAsset,
    pools: Seq<DecimalAsset>,
    amp: Result<u64, MathError>,
    bps: u16,
    greatest_prec: u8,
    offer_prec: u8,
    ask_prec: u8,
) -> OfferMath {
    let rate = commission_atomics(bps);
    if rate > decimal_fractional() {
        OfferMath::Panic
    } else {
        let keep = (decimal_fractional() - rate) as nat;
        let inv = if keep == 0 { decimal_fractional() } else { decimal_fractional() * decimal_fractional() / keep };
        match checked_mul_uint128_spec(inv, ask_amount) {
            None => OfferMath::Fail(MathError::Overflow),
            Some(gross) => if ask_prec <= 18 && gross * pow10((18 - ask_prec) as nat) >= u256_modulus() {
                OfferMath::Fail(MathError::RangeExceeded)
            } else {
                let before = if ask_prec <= 18 { gross * pow10((18 - ask_prec) as nat) } else { gross / pow10((ask_prec - 18) as nat) };
                if ask_pool.amount.value() < before {
                    OfferMath::Panic
                } else {
                    match amp {
                        Err(e) => OfferMath::Fail(e),
                        Ok(a) => match calc_y_dec_spec(ask_pool.info@, offer_pool.info@, (ask_pool.amount.value() - before) as nat, pools, a, greatest_prec) {
                            Outcome::Panic => OfferMath::Panic,
                            Outcome::Fail(e) => OfferMath::Fail(e),
                            Outcome::Value(y) => if greatest_prec > 18 {
                                OfferMath::Panic
                            } else {
                                match to_u128_at(offer_pool.amount.value(), greatest_prec) {
                                    None => OfferMath::Fail(MathError::ConversionOverflow),
                                    Some(held) => if y < held {
                                        OfferMath::Fail(MathError::Overflow)
                                    } else if (greatest_prec < offer_prec && offer_prec - greatest_prec > 38)
                                        || (greatest_prec > offer_prec && greatest_prec - offer_prec > 38) {
                                        OfferMath::Panic
                                    } else {
                                        match adjust_precision_spec((y - held) as u128, greatest_prec, offer_prec) {
                                            None => OfferMath::Fail(MathError::Overflow),
                                            Some(offer) => if ask_prec > 18 {
                                                OfferMath::Panic
                                            } else {
                                                match to_u128_at(before, ask_prec) {
                                                    None => OfferMath::Fail(MathError::ConversionOverflow),
                                                    Some(b) => match checked_mul_uint128_spec(rate, b as u128) {
                                                        None => OfferMath::Fail(MathError::Overflow),
                                                        Some(commission) => OfferMath::Value(
                                                            offer,
                                                            if offer > b { (offer - b) as nat } else { 0 },
                                                            commission,
                                                        ),
                                                    },
                                                }
                                            },
                                        }
                                    },
                                }
                            },
                        },
                    }
                }
            },
        }
    }
}

/// `Decimal * Uint128`, checked: `amount * atomics / 10^18` floored, `None` when it does not fit.
pub(crate) fn checked_mul_uint128(atomics: u128, amount: u128) -> (r: Option<u128>)
    ensures
        match r {
            Some(v) => checked_mul_uint128_spec(atomics as nat, amount) == Some(v as nat),
            None => checked_mul_uint128_spec(atomics as nat, amount) is None,
        },
{
    if atomics == 0 || amount == 0 {
        assert((amount as nat) * (atomics as nat) == 0) by (nonlinear_arith)
            requires atomics == 0 || amount == 0;
        return Some(0);
    }
    let a = u256_from_u128(amount);
    let b = u256_from_u128(atomics);
    proof {
        assert((amount as nat) * (atomics as nat) < u256_modulus()) by (nonlinear_arith)
            requires amount < u128_modulus(), atomics < u128_modulus(), u256_modulus() == u128_modulus() * u128_modulus();
    }
    let p = match u256_checked_mul(a, b) {
        Some(p) => p,
        None => { proof { assert(false); } return None; },
    };
    let f = u256_from_u128(1_000_000_000_000_000_000);
    let q = match u256_checked_div(p, f) {
        Some(q) => q,
        None => { proof { assert(false); } return None; },
    };
    match u256_to_u128(q) {
        Some(v) => Some(v),
        None => None,
    }
}

/// The amount to offer so as to receive `ask_amount` of the asked token at
/// block time `t`, with the spread and the commission. `bps` is the total fee;
/// the invariant is computed at `greatest_precision`; the offered and asked
/// tokens have `offer_precision` and `ask_precision` decimals.
pub fn compute_offer_amount(
    ask_amount: u128,
    offer_pool: &DecimalAsset,
    ask_pool: &DecimalAsset,
    pools: &Vec<DecimalAsset>,
    math_config: &MathConfig,
    t: u64,
    bps: u16,
    greatest_precision: u8,
    offer_precision: u8,
    ask_precision: u8,
) -> (r: Result<(u128, u128, u128), MathError>)
    requires
        !(compute_offer_amount_spec(ask_amount, *offer_pool, *ask_pool, pools@, current_amp_spec(*math_config, t), bps, greatest_precision, offer_precision, ask_precision) is Panic),
    ensures
        match r {
            Ok((a, b, c)) => compute_offer_amount_spec(ask_amount, *offer_pool, *ask_pool, pools@, current_amp_spec(*math_config, t), bps, greatest_precision, offer_precision, ask_precision)
                == OfferMath::Value(a as nat, b as nat, c as nat),
            Err(e) => compute_offer_amount_spec(ask_amount, *offer_pool, *ask_pool, pools@, current_amp_spec(*math_config, t), bps, greatest_precision, offer_precision, ask_precision)
                == OfferMath::Fail(e),
        },
{
    let rate = match decimal_checked_from_ratio(bps as u128, 10000) {
        Some(r) => r,
        None => {
            proof {
                assert((bps as nat) * decimal_fractional() / 10000 < u128_modulus()) by (nonlinear_arith)
                    requires bps < 65536, decimal_fractional() == 1_000_000_000_000_000_000nat, u128_modulus() > 1_000_000_000_000_000_000_000_000_000nat;
            }
            return Err(MathError::Overflow);
        },
    };
    assert(rate == commission_atomics(bps));
    let one: u128 = 1_000_000_000_000_000_000;
    if rate > one {
        proof { assert(false); }
        return Err(MathError::Overflow);
    }
    let keep = one - rate;
    let inv: u128 = if keep == 0 { one } else { 1_000_000_000_000_000_000_000_000_000_000_000_000 / keep };
    let gross = match checked_mul_uint128(inv, ask_amount) {
        Some(g) => g,
        None => return Err(MathError::Overflow),
    };
    let before = match dec256_from_atomics(u256_from_u128(gross), ask_precision as u32) {
        Some(b) => b,
        None => return Err(MathError::RangeExceeded),
    };
    let new_ask_pool = match u256_checked_sub(ask_pool.amount, before) {
        Some(v) => v,
        None => {
            proof { assert(false); }
            return Err(MathError::Overflow);
        },
    };
    let amp = compute_current_amp(math_config, t)?;
    let y = calc_y_dec(&ask_pool.info, &offer_pool.info, new_ask_pool, pools, amp, greatest_precision)?;
    if greatest_precision > 18 {
        proof { assert(false); }
        return Err(MathError::Overflow);
    }
    let held = match dec_to_uint128_with_precision(offer_pool.amount, greatest_precision) {
        Some(v) => v,
        None => return Err(MathError::ConversionOverflow),
    };
    if y < held {
        return Err(MathError::Overflow);
    }
    if (greatest_precision < offer_precision && offer_precision - greatest_precision > 38)
        || (greatest_precision > offer_precision && greatest_precision - offer_precision > 38) {
        proof { assert(false); }
        return Err(MathError::Overflow);
    }
    let offer = adjust_precision(y - held, greatest_precision, offer_precision)?;
    if ask_precision > 18 {
        proof { assert(false); }
        return Err(MathError::Overflow);
    }
    let b = match dec_to_uint128_with_precision(before, ask_precision) {
        Some(v) => v,
        None => return Err(MathError::ConversionOverflow),
    };
    let spread = if offer > b { offer - b } else { 0 };
    let commission = match checked_mul_uint128(rate, b) {
        Some(c) => c,
        None => return Err(MathError::Overflow),
    };
    Ok((offer, spread, commission))
}

/// The first position of the token `info` among `pools`, if any.
pub open spec fn pool_index(pools: Seq<DecimalAsset>, info: AssetKey) -> Option<nat>
    decreases pools.len(),
{
    if pools.len() == 0 {
        None
    } else if pools[0].info@ == info {
        Some(0)
    } else {
        match pool_index(pools.drop_first(), info) {
            Some(i) => Some(i + 1),
            None => None,
        }
    }
}

/// The positions of the offered and the asked token among `pools`: both
/// must be there.
pub fn select_pools(offer: &AssetInfo, ask: &AssetInfo, pools: &Vec<DecimalAsset>) -> (r: Option<(usize, usize)>)
    ensures
        match r {
            Some((i, j)) => pool_index(pools@, offer@) == Some(i as nat) && pool_index(pools@, ask@) == Some(j as nat)
                && i < pools@.len() && j < pools@.len() && pools@[i as int].info@ == offer@ && pools@[j as int].info@ == ask@,
            None => pool_index(pools@, offer@) is None || pool_index(pools@, ask@) is None,
        },
{
    let i = find_pool(offer, pools)?;
    let j = find_pool(ask, pools)?;
    Some((i, j))
}

fn find_pool(info: &AssetInfo, pools: &Vec<DecimalAsset>) -> (r: Option<usize>)
    ensures
        match r {
            Some(i) => pool_index(pools@, info@) == Some(i as nat) && i < pools@.len() && pools@[i as int].info@ == info@,
            None => pool_index(pools@, info@) is None,
        },
{
    let mut i: usize = 0;
    assert(pools@.skip(0) =~= pools@);
    while i < pools.len()
        invariant
            i <= pools.len(),
            pool_index(pools@, info@) == match pool_index(pools@.skip(i as int), info@) {
                Some(k) => Some((k + i) as nat),
                None => None::<nat>,
            },
        decreases pools.len() - i,
    {
        assert(pools@.skip(i as int).drop_first() =~= pools@.skip(i as int + 1));
        assert(pools@.skip(i as int)[0] == pools@[i as int]);
        if pools[i].info.same(info) {
            return Some(i);
        }
        i = i + 1;
    }
    None
}

/// The time-weighted price accumulators of a pool: for each ordered pair of
/// its tokens, the sum over time of the amount of the second token that one
/// unit of the first buys, and when they were last brought forward.
#[derive(Clone, Debug)]
pub struct Twap {
    pub cumulative_prices: Vec<(AssetInfo, AssetInfo, u128)>,
    pub block_time_last: u64,
}

/// A sum below 2^129 taken modulo 2^128.
pub open spec fn wrapped_sum(x: nat) -> u128 {
    if x >= u128_modulus() { (x - u128_modulus()) as u128 } else { x as u128 }
}

/// One unit of a decimal token.
pub open spec fn unit() -> nat {
    decimal_fractional()
}

/// The accumulators after bringing forward the first `i` pairs by
/// `elapsed` seconds at the prices of `pools` (`precisions` holding the
/// decimals of each token).
pub open spec fn accumulate_prefix(
    prices: Seq<(AssetInfo, AssetInfo, u128)>,
    elapsed: u64,
    pools: Seq<DecimalAsset>,
    precisions: Seq<u8>,
    amp: Result<u64, MathError>,
    i: nat,
) -> Result<Seq<u128>, SwapMath>
    decreases i,
{
    if i == 0 {
        Ok(seq![])
    } else {
        match accumulate_prefix(prices, elapsed, pools, precisions, amp, (i - 1) as nat) {
            Err(e) => Err(e),
            Ok(done) => {
                let (from, to, value) = prices[i - 1];
                match (pool_index(pools, from@), pool_index(pools, to@)) {
                    (Some(oi), Some(ai)) => {
                        match compute_swap_spec(
                            from,
                            unit(),
                            pools[oi as int],
                            pools[ai as int],
                            pools,
                            amp,
                            precisions[ai as int],
                        ) {
                            SwapMath::Value(ret, _) => if (elapsed as nat) * ret >= u128_modulus() {
                                Err(SwapMath::Fail(MathError::Overflow))
                            } else {
                                Ok(done.push(wrapped_sum(value as nat + (elapsed as nat) * ret)))
                            },
                            other => Err(other),
                        }
                    },
                    _ => Err(SwapMath::Panic),
                }
            },
        }
    }
}

proof fn lemma_accumulate_err(prices: Seq<(AssetInfo, AssetInfo, u128)>, elapsed: u64, pools: Seq<DecimalAsset>, precisions: Seq<u8>, amp: Result<u64, MathError>, i: nat, j: nat)
    requires
        i <= j,
        accumulate_prefix(prices, elapsed, pools, precisions, amp, i) is Err,
    ensures
        accumulate_prefix(prices, elapsed, pools, precisions, amp, j) == accumulate_prefix(prices, elapsed, pools, precisions, amp, i),
    decreases j - i,
{
    if i < j {
        lemma_accumulate_err(prices, elapsed, pools, precisions, amp, i, (j - 1) as nat);
    }
}

/// Brings the price accumulators forward to `block_time`, at the prices of
/// `pools` (whose tokens have the decimals `precisions`), by the time passed
/// since the accumulators were last brought forward. Nothing changes unless
/// time passed since then. Returns the new accumulators, or `None` when
/// nothing changes.
pub fn accumulate_prices(
    twap: &Twap,
    block_time: u64,
    pools: &Vec<DecimalAsset>,
    precisions: &Vec<u8>,
    math_config: &MathConfig,
) -> (r: Result<Option<Twap>, MathError>)
    requires
        precisions@.len() == pools@.len(),
        block_time > twap.block_time_last ==> !(accumulate_prefix(twap.cumulative_prices@, (block_time - twap.block_time_last) as u64, pools@, precisions@,
            current_amp_spec(*math_config, block_time), twap.cumulative_prices@.len()) matches Err(SwapMath::Panic)),
    ensures
        block_time <= twap.block_time_last ==> r matches Ok(None),
        block_time > twap.block_time_last ==> match accumulate_prefix(twap.cumulative_prices@, (block_time - twap.block_time_last) as u64, pools@, precisions@,
            current_amp_spec(*math_config, block_time), twap.cumulative_prices@.len()) {
            Ok(values) => r matches Ok(Some(t)) && t.block_time_last == block_time
                && t.cumulative_prices@.len() == twap.cumulative_prices@.len() && values.len() == twap.cumulative_prices@.len()
                && forall|i: int| 0 <= i < values.len() ==> (#[trigger] t.cumulative_prices@[i]).0 == twap.cumulative_prices@[i].0
                    && t.cumulative_prices@[i].1 == twap.cumulative_prices@[i].1 && t.cumulative_prices@[i].2 == values[i],
            Err(SwapMath::Fail(e)) => r == Err::<Option<Twap>, MathError>(e),
            Err(_) => false,
        },
{
    if block_time <= twap.block_time_last {
        return Ok(None);
    }
    let elapsed: u64 = block_time - twap.block_time_last;
    let ghost amp = current_amp_spec(*math_config, block_time);
    let ghost prices = twap.cumulative_prices@;
    let ghost n = prices.len();
    let mut out: Vec<(AssetInfo, AssetInfo, u128)> = Vec::new();
    let mut i: usize = 0;
    while i < twap.cumulative_prices.len()
        invariant
            i <= twap.cumulative_prices.len(),
            block_time > twap.block_time_last,
            elapsed == (block_time - twap.block_time_last) as u64,
            prices == twap.cumulative_prices@,
            n == prices.len(),
            precisions@.len() == pools@.len(),
            amp == current_amp_spec(*math_config, block_time),
            !(accumulate_prefix(prices, elapsed, pools@, precisions@, amp, n) matches Err(SwapMath::Panic)),
            out@.len() == i,
            accumulate_prefix(prices, elapsed, pools@, precisions@, amp, i as nat) matches Ok(done)
                && done.len() == i
                && forall|k: int| 0 <= k < i ==> (#[trigger] out@[k]).0 == prices[k].0 && out@[k].1 == prices[k].1 && out@[k].2 == done[k],
        decreases twap.cumulative_prices.len() - i,
    {
        let ghost done = accumulate_prefix(prices, elapsed, pools@, precisions@, amp, i as nat)->Ok_0;
        let (from, to, value) = &twap.cumulative_prices[i];
        proof {
            if accumulate_prefix(prices, elapsed, pools@, precisions@, amp, i as nat + 1) is Err {
                lemma_accumulate_err(prices, elapsed, pools@, precisions@, amp, i as nat + 1, n);
            }
        }
        let (oi, ai) = match select_pools(from, to, pools) {
            Some(p) => p,
            None => {
                proof { assert(false); }
                return Err(MathError::Overflow);
            },
        };
        let offer = DecimalAsset { info: from.copy(), amount: u256_from_u128(1_000_000_000_000_000_000) };
        let (ret, _) = match compute_swap(&offer, &pools[oi], &pools[ai], pools, math_config, block_time, precisions[ai]) {
            Ok(p) => p,
            Err(e) => return Err(e),
        };
        let step = match (elapsed as u128).checked_mul(ret) {
            Some(x) => x,
            None => return Err(MathError::Overflow),
        };
        let new_value = value.wrapping_add(step);
        out.push((from.copy(), to.copy(), new_value));
        proof {
            let next = accumulate_prefix(prices, elapsed, pools@, precisions@, amp, i as nat + 1)->Ok_0;
            assert(next == done.push(new_value));
            assert forall|k: int| 0 <= k < i + 1 implies (#[trigger] out@[k]).0 == prices[k].0 && out@[k].1 == prices[k].1 && out@[k].2 == next[k] by {
                if k < i {
                    assert(next[k] == done[k]);
                }
            }
        }
        i = i + 1;
    }
    Ok(Some(Twap { cumulative_prices: out, block_time_last: block_time }))
}

/// `pools` as decimals: each balance, with the decimals of its token, as the
/// atomics of a `Decimal256`.
pub open spec fn decimal_pools_of(dec: Seq<DecimalAsset>, pools: Seq<Asset>, precisions: Seq<u8>) -> bool {
    &&& dec.len() == pools.len()
    &&& forall|i: int| 0 <= i < pools.len() ==> (#[trigger] dec[i]).info == pools[i].info
        && precisions[i] <= 18 && dec[i].amount.value() == (pools[i].amount as nat) * pow10((18 - precisions[i]) as nat)
}

/// Whether every token of the pool has at most 18 decimals.
pub open spec fn precisions_supported(precisions: Seq<u8>) -> bool {
    forall|i: int| 0 <= i < precisions.len() ==> (#[trigger] precisions[i]) <= 18
}

/// The balances of a pool as decimals.
pub fn to_decimal_assets(pools: &Vec<Asset>, precisions: &Vec<u8>) -> (r: Vec<DecimalAsset>)
    requires
        precisions@.len() == pools@.len(),
        precisions_supported(precisions@),
    ensures
        decimal_pools_of(r@, pools@, precisions@),
{
    let mut out: Vec<DecimalAsset> = Vec::new();
    let mut i: usize = 0;
    while i < pools.len()
        invariant
            i <= pools.len(),
            precisions@.len() == pools@.len(),
            precisions_supported(precisions@),
            out@.len() == i,
            forall|k: int| 0 <= k < i ==> (#[trigger] out@[k]).info == pools@[k].info
                && precisions@[k] <= 18 && out@[k].amount.value() == (pools@[k].amount as nat) * pow10((18 - precisions@[k]) as nat),
        decreases pools.len() - i,
    {
        let p = precisions[i];
        assert(p <= 18);
        let amount = match dec256_from_atomics(u256_from_u128(pools[i].amount), p as u32) {
            Some(a) => a,
            None => {
                proof {
                    lemma_pow10_le((18 - p) as nat);
                    assert((pools@[i as int].amount as nat) * pow10((18 - p) as nat) < u256_modulus()) by (nonlinear_arith)
                        requires pools@[i as int].amount < u128_modulus(), pow10((18 - p) as nat) <= decimal_fractional(),
                            decimal_fractional() == 1_000_000_000_000_000_000nat, u256_modulus() == u128_modulus() * u128_modulus(),
                            u128_modulus() > 1_000_000_000_000_000_000_000nat;
                }
                return out;
            },
        };
        out.push(DecimalAsset { info: pools[i].info.copy(), amount });
        i = i + 1;
    }
    out
}

/// What the pool answers to a swap: the amounts traded, the spread and the
/// fee (in the asked token), a refusal, an error, or a panic.
pub enum SwapAnswer {
    Trade { amount_in: nat, amount_out: nat, spread: nat, fee: nat },
    Failure,
    Fail(MathError),
    Panic,
}

/// The fee of `bps` on `amount`: `amount * (bps / 10000)`, floored.
pub open spec fn swap_fee(amount: nat, bps: u16) -> nat {
    amount * commission_atomics(bps) / decimal_fractional()
}

/// The pool's answer to a swap of `amount` of `offer` for `ask`, the pool's
/// balances being `dec` (as decimals, with `precisions`).
pub open spec fn swap_query_spec(
    swap_type: SwapType,
    offer: AssetInfo,
    ask: AssetInfo,
    amount: u128,
    dec: Seq<DecimalAsset>,
    precisions: Seq<u8>,
    amp: Result<u64, MathError>,
    bps: u16,
    greatest: u8,
) -> SwapAnswer {
    if dec.len() < 2 {
        SwapAnswer::Panic
    } else {
        match (pool_index(dec, offer@), pool_index(dec, ask@)) {
            (Some(oi), Some(ai)) => if dec[oi as int].amount.value() == 0 || dec[ai as int].amount.value() == 0 {
                SwapAnswer::Failure
            } else {
                let op = precisions[oi as int];
                let ap = precisions[ai as int];
                match swap_type {
                    SwapType::GiveIn => if op > 18 || (amount as nat) * pow10((18 - op) as nat) >= u256_modulus() {
                        SwapAnswer::Panic
                    } else {
                        let priced = compute_swap_spec(offer, (amount as nat) * pow10((18 - op) as nat), dec[oi as int], dec[ai as int], dec, amp, ap);
                        if priced is Panic {
                            SwapAnswer::Panic
                        } else {
                            let (calc, spread) = match priced {
                                SwapMath::Value(c, s) => (c, s),
                                _ => (0nat, 0nat),
                            };
                            let fee = swap_fee(calc, bps);
                            if fee > calc {
                                SwapAnswer::Fail(MathError::Overflow)
                            } else {
                                SwapAnswer::Trade { amount_in: amount as nat, amount_out: (calc - fee) as nat, spread, fee }
                            }
                        }
                    },
                    SwapType::GiveOut => match compute_offer_amount_spec(amount, dec[oi as int], dec[ai as int], dec, amp, bps, greatest, op, ap) {
                        OfferMath::Value(o, s, c) => SwapAnswer::Trade { amount_in: o, amount_out: amount as nat, spread: s, fee: c },
                        OfferMath::Panic => SwapAnswer::Panic,
                        OfferMath::Fail(_) => SwapAnswer::Trade { amount_in: 0, amount_out: amount as nat, spread: 0, fee: 0 },
                    },
                    SwapType::Custom(_) => SwapAnswer::Failure,
                }
            },
            _ => SwapAnswer::Failure,
        }
    }
}

/// The pool's refusal of a swap.
fn swap_failure() -> (r: SwapResponse)
    ensures
        r.response is Failure,
        r.trade_params.amount_in == 0 && r.trade_params.amount_out == 0 && r.trade_params.spread == 0,
        r.fee is None,
{
    SwapResponse { trade_params: Trade { amount_in: 0, amount_out: 0, spread: 0 }, response: PoolResponse::Failure(String::new()), fee: None }
}

/// The pool's answer to a swap of `amount` (offered with `GiveIn`, asked for
/// with `GiveOut`) of `offer` for `ask` at block time `t`. The pool holds
/// `pools`, whose tokens have `precisions` decimals; `bps` is the total fee;
/// the invariant is computed at `greatest` decimals. Where the price cannot be
/// computed the trade is priced at zero.
pub fn query_on_swap(
    swap_type: &SwapType,
    offer: &AssetInfo,
    ask: &AssetInfo,
    amount: u128,
    pools: &Vec<Asset>,
    precisions: &Vec<u8>,
    math_config: &MathConfig,
    t: u64,
    bps: u16,
    greatest: u8,
) -> (r: Result<SwapResponse, MathError>)
    requires
        precisions@.len() == pools@.len(),
        precisions_supported(precisions@),
        forall|dec: Seq<DecimalAsset>| decimal_pools_of(dec, pools@, precisions@)
            ==> !(swap_query_spec(*swap_type, *offer, *ask, amount, dec, precisions@, current_amp_spec(*math_config, t), bps, greatest) is Panic),
    ensures
        exists|dec: Seq<DecimalAsset>| decimal_pools_of(dec, pools@, precisions@) && match swap_query_spec(*swap_type, *offer, *ask, amount, dec, precisions@, current_amp_spec(*math_config, t), bps, greatest) {
            SwapAnswer::Trade { amount_in, amount_out, spread, fee } => (r matches Ok(resp) && resp.response is Success
                && resp.trade_params.amount_in == amount_in && resp.trade_params.amount_out == amount_out
                && resp.trade_params.spread == spread && (resp.fee matches Some(f) && f.info == *ask && f.amount == fee)),
            SwapAnswer::Failure => (r matches Ok(resp) && resp.response is Failure),
            SwapAnswer::Fail(e) => r == Err::<SwapResponse, MathError>(e),
            SwapAnswer::Panic => false,
        },
{
    let dec = to_decimal_assets(pools, precisions);
    let ghost g = current_amp_spec(*math_config, t);
    assert(!(swap_query_spec(*swap_type, *offer, *ask, amount, dec@, precisions@, g, bps, greatest) is Panic));
    if dec.len() < 2 {
        proof { assert(false); }
        return Err(MathError::Overflow);
    }
    let (oi, ai) = match select_pools(offer, ask, &dec) {
        Some(p) => p,
        None => return Ok(swap_failure()),
    };
    if crate::wide::u256_is_zero(dec[oi].amount) || crate::wide::u256_is_zero(dec[ai].amount) {
        return Ok(swap_failure());
    }
    let op = precisions[oi];
    let ap = precisions[ai];
    match swap_type {
        SwapType::GiveIn => {
            if op > 18 {
                proof { assert(false); }
                return Err(MathError::Overflow);
            }
            let offered = match dec256_from_atomics(u256_from_u128(amount), op as u32) {
                Some(x) => x,
                None => {
                    proof { assert(false); }
                    return Err(MathError::Overflow);
                },
            };
            let offer_dec = DecimalAsset { info: offer.copy(), amount: offered };
            let (calc, spread) = match compute_swap(&offer_dec, &dec[oi], &dec[ai], &dec, math_config, t, ap) {
                Ok(p) => p,
                Err(_) => (0, 0),
            };
            let rate = match decimal_checked_from_ratio(bps as u128, 10000) {
                Some(x) => x,
                None => {
                    proof {
                        assert((bps as nat) * decimal_fractional() / 10000 < u128_modulus()) by (nonlinear_arith)
                            requires bps < 65536, decimal_fractional() == 1_000_000_000_000_000_000nat, u128_modulus() > 1_000_000_000_000_000_000_000_000_000nat;
                    }
                    return Err(MathError::Overflow);
                },
            };
            let fee = match checked_mul_uint128(rate, calc) {
                Some(f) => f,
                None => return Err(MathError::Overflow),
            };
            if fee > calc {
                return Err(MathError::Overflow);
            }
            Ok(SwapResponse {
                trade_params: Trade { amount_in: amount, amount_out: calc - fee, spread },
                response: PoolResponse::Success,
                fee: Some(Asset { info: ask.copy(), amount: fee }),
            })
        },
        SwapType::GiveOut => {
            let (o, s, c) = match compute_offer_amount(amount, &dec[oi], &dec[ai], &dec, math_config, t, bps, greatest, op, ap) {
                Ok(p) => p,
                Err(_) => (0, 0, 0),
            };
            Ok(SwapResponse {
                trade_params: Trade { amount_in: o, amount_out: amount, spread: s },
                response: PoolResponse::Success,
                fee: Some(Asset { info: ask.copy(), amount: c }),
            })
        },
        SwapType::Custom(_) => Ok(swap_failure()),
    }
}

/// The accumulated price of `offer` in `ask`: that of the first pair for
/// them, if any.
pub open spec fn cumulative_price_of(prices: Seq<(AssetInfo, AssetInfo, u128)>, offer: AssetKey, ask: AssetKey) -> Option<u128>
    decreases prices.len(),
{
    if prices.len() == 0 {
        None
    } else if prices[0].0@ == offer && prices[0].1@ == ask {
        Some(prices[0].2)
    } else {
        cumulative_price_of(prices.drop_first(), offer, ask)
    }
}

/// The accumulated price of `offer` in `ask`, if the pool tracks the pair.
pub fn find_cumulative_price(twap: &Twap, offer: &AssetInfo, ask: &AssetInfo) -> (r: Option<u128>)
    ensures
        r == cumulative_price_of(twap.cumulative_prices@, offer@, ask@),
{
    let mut i: usize = 0;
    assert(twap.cumulative_prices@.skip(0) =~= twap.cumulative_prices@);
    while i < twap.cumulative_prices.len()
        invariant
            i <= twap.cumulative_prices.len(),
            cumulative_price_of(twap.cumulative_prices@, offer@, ask@) == cumulative_price_of(twap.cumulative_prices@.skip(i as int), offer@, ask@),
        decreases twap.cumulative_prices.len() - i,
    {
        assert(twap.cumulative_prices@.skip(i as int).drop_first() =~= twap.cumulative_prices@.skip(i as int + 1));
        assert(twap.cumulative_prices@.skip(i as int)[0] == twap.cumulative_prices@[i as int]);
        let (from, to, value) = &twap.cumulative_prices[i];
        if from.same(offer) && to.same(ask) {
            return Some(*value);
        }
        i = i + 1;
    }
    None
}

/// A swap never pays out more than the asked pool holds.
pub proof fn law_swap_return_within_pool(offer_info: AssetInfo, offer_amount: nat, offer_pool: DecimalAsset, ask_pool: DecimalAsset, pools: Seq<DecimalAsset>, amp: Result<u64, MathError>, prec: u8)
    requires
        compute_swap_spec(offer_info, offer_amount, offer_pool, ask_pool, pools, amp, prec) is Value,
    ensures
        ({
            let ret = compute_swap_spec(offer_info, offer_amount, offer_pool, ask_pool, pools, amp, prec)->Value_0;
            prec <= 18 && ret <= scaled_down(ask_pool.amount.value(), prec)
        }),
{
}
/// The fee on a swap's return is `bps` basis points of it, floored.
proof fn lemma_swap_fee_is_bps(amount: nat, bps: u16)
    ensures
        swap_fee(amount, bps) == amount * (bps as nat) / 10000,
{
    let b = bps as nat;
    assert(commission_atomics(bps) == b * 100_000_000_000_000) by (nonlinear_arith)
        requires commission_atomics(bps) == b * 1_000_000_000_000_000_000nat / 10000;
    assert(amount * (b * 100_000_000_000_000) / 1_000_000_000_000_000_000nat == amount * b / 10000) by (nonlinear_arith);
}

/// A swap that gives an amount in pays out the invariant-priced return less
/// the fee, and the fee is `bps` basis points of that return (floored): the
/// amount paid out and the fee add up to what the invariant prices the
/// offered amount at. Where the invariant cannot price it, nothing is paid
/// out and no fee is taken.
pub proof fn law_give_in_pays_return_less_fee(
    offer: AssetInfo,
    ask: AssetInfo,
    amount: u128,
    dec: Seq<DecimalAsset>,
    precisions: Seq<u8>,
    amp: Result<u64, MathError>,
    bps: u16,
    greatest: u8,
)
    requires
        swap_query_spec(SwapType::GiveIn, offer, ask, amount, dec, precisions, amp, bps, greatest) is Trade,
    ensures
        ({
            let answer = swap_query_spec(SwapType::GiveIn, offer, ask, amount, dec, precisions, amp, bps, greatest);
            let oi = pool_index(dec, offer@)->Some_0 as int;
            let ai = pool_index(dec, ask@)->Some_0 as int;
            let offered = (amount as nat) * pow10((18 - precisions[oi]) as nat);
            &&& answer->amount_in == amount
            &&& answer->fee == (answer->amount_out + answer->fee) * (bps as nat) / 10000
            &&& compute_swap_spec(offer, offered, dec[oi], dec[ai], dec, amp, precisions[ai]) matches SwapMath::Value(ret, _)
                ==> answer->amount_out + answer->fee == ret
            &&& !(compute_swap_spec(offer, offered, dec[oi], dec[ai], dec, amp, precisions[ai]) is Value)
                ==> answer->amount_out == 0 && answer->fee == 0
        }),
{
    let oi = pool_index(dec, offer@)->Some_0 as int;
    let ai = pool_index(dec, ask@)->Some_0 as int;
    let offered = (amount as nat) * pow10((18 - precisions[oi]) as nat);
    let priced = compute_swap_spec(offer, offered, dec[oi], dec[ai], dec, amp, precisions[ai]);
    let calc = match priced { SwapMath::Value(c, _) => c, _ => 0nat };
    lemma_swap_fee_is_bps(calc, bps);
}

/// A swap that asks for an amount out pays out exactly that amount; what it
/// asks in, its spread and its commission are those that the offer
/// computation gives for the two pools' balances.
pub proof fn law_give_out_pays_the_asked_amount(
    offer: AssetInfo,
    ask: AssetInfo,
    amount: u128,
    dec: Seq<DecimalAsset>,
    precisions: Seq<u8>,
    amp: Result<u64, MathError>,
    bps: u16,
    greatest: u8,
)
    requires
        swap_query_spec(SwapType::GiveOut, offer, ask, amount, dec, precisions, amp, bps, greatest) is Trade,
    ensures
        ({
            let answer = swap_query_spec(SwapType::GiveOut, offer, ask, amount, dec, precisions, amp, bps, greatest);
            let oi = pool_index(dec, offer@)->Some_0 as int;
            let ai = pool_index(dec, ask@)->Some_0 as int;
            let priced = compute_offer_amount_spec(amount, dec[oi], dec[ai], dec, amp, bps, greatest, precisions[oi], precisions[ai]);
            &&& answer->amount_out == amount
            &&& priced is Value ==> answer->amount_in == priced->Value_0 && answer->spread == priced->Value_1
                && answer->fee == priced->Value_2
            &&& !(priced is Value) ==> answer->amount_in == 0 && answer->spread == 0 && answer->fee == 0
        }),
{
}

/// A swap that asks for an amount out first grosses the asked amount up by
/// the fee (`ask / (1 - bps/10000)`, at 18 decimals and floored), takes that
/// from the asked token's balance, and charges, in the offered token, the
/// invariant's increase of the offered balance at `greatest_prec` decimals,
/// carried to the offered token's decimals: divided (floored) by the power of
/// ten between them when the offered token has fewer decimals, multiplied by
/// it when it has more, and unchanged when they agree. The commission is
/// `bps` basis points of the grossed-up amount (floored), and the spread is
/// what the offer exceeds that amount by.
pub proof fn law_give_out_offer_at_offer_precision(
    ask_amount: u128,
    offer_pool: DecimalAsset,
    ask_pool: DecimalAsset,
    pools: Seq<DecimalAsset>,
    amp: Result<u64, MathError>,
    bps: u16,
    greatest_prec: u8,
    offer_prec: u8,
    ask_prec: u8,
)
    requires
        compute_offer_amount_spec(ask_amount, offer_pool, ask_pool, pools, amp, bps, greatest_prec, offer_prec, ask_prec) is Value,
    ensures
        ({
            let keep = (decimal_fractional() - (bps as nat) * 100_000_000_000_000) as nat;
            let gross = if keep == 0 {
                ask_amount as nat
            } else {
                (ask_amount as nat) * (decimal_fractional() * decimal_fractional() / keep) / decimal_fractional()
            };
            let taken = gross * pow10((18 - ask_prec) as nat);
            let left = (ask_pool.amount.value() - taken) as nat;
            let answer = compute_offer_amount_spec(ask_amount, offer_pool, ask_pool, pools, amp, bps, greatest_prec, offer_prec, ask_prec);
            let offer = answer->Value_0;
            let held = offer_pool.amount.value() / pow10((18 - greatest_prec) as nat);
            let y = calc_y_dec_spec(ask_pool.info@, offer_pool.info@, left, pools, amp->Ok_0, greatest_prec)->Value_0;
            &&& amp is Ok
            &&& bps <= 10000
            &&& ask_prec <= 18
            &&& greatest_prec <= 18
            &&& ask_amount <= gross
            &&& taken <= ask_pool.amount.value()
            &&& calc_y_dec_spec(ask_pool.info@, offer_pool.info@, left, pools, amp->Ok_0, greatest_prec) is Value
            &&& y >= held
            &&& (offer_prec <= greatest_prec ==> offer * pow10((greatest_prec - offer_prec) as nat) <= y - held
                    < (offer + 1) * pow10((greatest_prec - offer_prec) as nat))
            &&& (offer_prec > greatest_prec ==> offer == (y - held) * pow10((offer_prec - greatest_prec) as nat))
            &&& answer->Value_2 == gross * (bps as nat) / 10000
            &&& answer->Value_1 == if offer > gross { (offer - gross) as nat } else { 0 }
        }),
{
    let rate = commission_atomics(bps);
    assert(rate <= decimal_fractional());
    let b = bps as nat;
    assert(rate == b * 100_000_000_000_000) by (nonlinear_arith)
        requires rate == b * 1_000_000_000_000_000_000nat / 10000;
    assert(b <= 10000) by (nonlinear_arith)
        requires b * 100_000_000_000_000 <= 1_000_000_000_000_000_000nat;
    let keep = (decimal_fractional() - rate) as nat;
    let inv = if keep == 0 { decimal_fractional() } else { decimal_fractional() * decimal_fractional() / keep };
    assert(checked_mul_uint128_spec(inv, ask_amount) is Some);
    let gross = checked_mul_uint128_spec(inv, ask_amount)->Some_0;
    let am = ask_amount as nat;
    if keep == 0 {
        assert(am * decimal_fractional() / decimal_fractional() == am) by (nonlinear_arith)
            requires decimal_fractional() > 0;
    } else {
        assert(inv >= decimal_fractional()) by (nonlinear_arith)
            requires inv == decimal_fractional() * decimal_fractional() / keep, 0 < keep <= decimal_fractional();
    }
    assert(am <= am * inv / decimal_fractional()) by (nonlinear_arith)
        requires inv >= decimal_fractional(), decimal_fractional() > 0;
    assert(ask_prec <= 18);
    let p = pow10((18 - ask_prec) as nat);
    lemma_pow10_le((18 - ask_prec) as nat);
    let before = gross * p;
    assert(ask_pool.amount.value() >= before);
    assert(amp is Ok);
    let left = (ask_pool.amount.value() - before) as nat;
    let r = calc_y_dec_spec(ask_pool.info@, offer_pool.info@, left, pools, amp->Ok_0, greatest_prec);
    assert(r is Value);
    let y = r->Value_0;
    assert(greatest_prec <= 18);
    let held = offer_pool.amount.value() / pow10((18 - greatest_prec) as nat);
    assert(scaled_down(offer_pool.amount.value(), greatest_prec) == held);
    assert(to_u128_at(offer_pool.amount.value(), greatest_prec) == Some(held));
    assert(y >= held);
    lemma_calc_y_dec_fits(ask_pool.info@, offer_pool.info@, left, pools, amp->Ok_0, greatest_prec);
    let d = (y - held) as nat;
    assert(d < u128_modulus());
    assert(((y - held) as u128) as nat == d);
    let offer = compute_offer_amount_spec(ask_amount, offer_pool, ask_pool, pools, amp, bps, greatest_prec, offer_prec, ask_prec)->Value_0;
    assert(adjust_precision_spec((y - held) as u128, greatest_prec, offer_prec) == Some(offer));
    if offer_prec < greatest_prec {
        let q = pow10((greatest_prec - offer_prec) as nat);
        lemma_pow10_le((greatest_prec - offer_prec) as nat);
        assert(offer == d / q);
        assert(offer * q <= d && d < (offer + 1) * q) by (nonlinear_arith)
            requires offer == d / q, q > 0;
    } else if offer_prec == greatest_prec {
        assert(pow10(0) == 1);
        assert(offer == d);
        assert(offer * pow10(0) <= d && d < (offer + 1) * pow10(0)) by (nonlinear_arith)
            requires offer == d, pow10(0) == 1;
    } else {
        assert(offer == d * pow10((offer_prec - greatest_prec) as nat));
    }
    assert(before / p == gross) by (nonlinear_arith)
        requires before == gross * p, p > 0;
    assert(scaled_down(before, ask_prec) == gross);
    assert(to_u128_at(before, ask_prec) == Some(gross));
    lemma_swap_fee_is_bps(gross, bps);
    assert(checked_mul_uint128_spec(rate, gross as u128) == Some(swap_fee(gross, bps)));
}

/// A balance that the invariant's Newton iteration gives fits in 128 bits.
proof fn lemma_y_loop_fits(c: nat, b: nat, d: nat, y: nat, k: nat)
    ensures
        y_loop(c, b, d, y, k) is Value ==> y_loop(c, b, d, y, k)->Value_0 < u128_modulus(),
    decreases k,
{
    if k > 0 {
        let yy = y * y;
        let num = yy + c;
        let t = y + y + b;
        if !(yy >= u256_modulus() || num >= u256_modulus() || y + y >= u256_modulus() || t >= u256_modulus() || t < d
            || t - d == 0) {
            let y2 = num / ((t - d) as nat);
            lemma_y_loop_fits(c, b, d, y2, (k - 1) as nat);
        }
    }
}

/// The balance that `calc_y_dec_spec` gives fits in 128 bits.
proof fn lemma_calc_y_dec_fits(from: AssetKey, to: AssetKey, new_amount: nat, pools: Seq<DecimalAsset>, amp: u64, prec: u8)
    ensures
        calc_y_dec_spec(from, to, new_amount, pools, amp, prec) is Value
            ==> calc_y_dec_spec(from, to, new_amount, pools, amp, prec)->Value_0 < u128_modulus(),
{
    let n = coin_count(pools.len());
    if from != to && amp * n <= u64::MAX {
        let ann = (amp * n) as nat / (AMP_PRECISION as nat);
        if let Outcome::Value(dd) = compute_d_dec_spec(amp, dec_amounts_of(pools), prec) {
            if prec <= 18 {
                let d = scaled_down(dd, prec);
                if let CydState::Val(sum, c) = cyd_prefix(from, to, new_amount, pools, d, n, prec, pools.len()) {
                    let cd = c * d;
                    let an = ann * n;
                    let si = scaled_down(sum, prec);
                    lemma_y_loop_fits(cd / an, si + d / ann, d, d, ITERATIONS as nat);
                }
            }
        }
    }
}

} // verus!
