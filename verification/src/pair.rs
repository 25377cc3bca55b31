//! The two-token stableswap pool's price accumulators: one for the price of
//! the first token in the second and one for the reverse, each summed over
//! time at `TWAP_PRECISION` decimals.
use vstd::prelude::*;
use crate::types::{Asset, AssetInfo};
use crate::wide::{u128_modulus, u128_multiply_ratio};
use crate::pool::wrapped_sum;
use crate::pool_join::PoolError;

verus! {

/// The decimals at which prices are accumulated.
pub const TWAP_PRECISION: u32 = 6;

/// The price accumulators of a two-token pool and when they were last brought forward.
#[derive(Clone, Copy, Debug)]
pub struct Twap {
    pub price0_cumulative_last: u128,
    pub price1_cumulative_last: u128,
    pub block_time_last: u64,
}

/// `10^TWAP_PRECISION`.
pub open spec fn price_unit() -> nat {
    1_000_000
}

/// What `elapsed` seconds add to an accumulator at the price `num / den`.
pub open spec fn price_step(elapsed: nat, num: u128, den: u128) -> nat {
    elapsed * price_unit() * (num as nat) / (den as nat)
}

/// The time passed since the accumulators were last brought forward.
pub open spec fn elapsed_since(twap: Twap, block_time: u64) -> nat {
    (block_time - twap.block_time_last) as nat
}

/// Whether the accumulators move at `block_time` with balances `x` and `y`:
/// time passed and neither balance is zero.
pub open spec fn prices_move(twap: Twap, block_time: u64, x: u128, y: u128) -> bool {
    block_time > twap.block_time_last && x != 0 && y != 0
}

/// The steps fit in 128 bits, as the pool's ratio arithmetic requires.
pub open spec fn steps_fit(twap: Twap, block_time: u64, x: u128, y: u128) -> bool {
    prices_move(twap, block_time, x, y) ==> price_step(elapsed_since(twap, block_time), y, x) < u128_modulus()
        && price_step(elapsed_since(twap, block_time), x, y) < u128_modulus()
}

/// The two accumulators brought forward to `block_time` with balances `x`
/// (first token) and `y` (second token); unchanged when they do not move.
pub open spec fn pair_prices(twap: Twap, block_time: u64, x: u128, y: u128) -> (u128, u128) {
    if prices_move(twap, block_time, x, y) {
        let e = elapsed_since(twap, block_time);
        (wrapped_sum(twap.price0_cumulative_last as nat + price_step(e, y, x)),
         wrapped_sum(twap.price1_cumulative_last as nat + price_step(e, x, y)))
    } else {
        (twap.price0_cumulative_last, twap.price1_cumulative_last)
    }
}

/// Brings the accumulators forward to `block_time`, by the time passed since
/// they last were, with balances `x` and `y`: `None` when no time passed;
/// otherwise the new accumulators and `block_time`. A zero balance leaves
/// the accumulators as they are.
pub fn accumulate_prices(twap: &Twap, block_time: u64, x: u128, y: u128) -> (r: Option<(u128, u128, u64)>)
    requires
        steps_fit(*twap, block_time, x, y),
    ensures
        block_time <= twap.block_time_last ==> r is None,
        block_time > twap.block_time_last ==> r == Some((pair_prices(*twap, block_time, x, y).0, pair_prices(*twap, block_time, x, y).1, block_time)),
{
    if block_time <= twap.block_time_last {
        return None;
    }
    let elapsed: u128 = (block_time - twap.block_time_last) as u128;
    let mut p0 = twap.price0_cumulative_last;
    let mut p1 = twap.price1_cumulative_last;
    if x != 0 && y != 0 {
        let unit = elapsed * 1_000_000;
        assert(unit == elapsed_since(*twap, block_time) * price_unit());
        let s0 = u128_multiply_ratio(unit, y, x);
        let s1 = u128_multiply_ratio(unit, x, y);
        p0 = p0.wrapping_add(s0);
        p1 = p1.wrapping_add(s1);
    }
    Some((p0, p1, block_time))
}

/// The accumulated price of `offer` in `ask` at `block_time` in a pool with
/// balances `assets`: the first accumulator for the first token in the
/// second, the second for the reverse; any other pair is refused.
pub open spec fn cumulative_price_spec(assets: Seq<Asset>, twap: Twap, block_time: u64, offer: AssetInfo, ask: AssetInfo) -> Result<u128, PoolError> {
    let (p0, p1) = pair_prices(twap, block_time, assets[0].amount, assets[1].amount);
    if offer@ == assets[0].info@ && ask@ == assets[1].info@ {
        Ok(p0)
    } else if offer@ == assets[1].info@ && ask@ == assets[0].info@ {
        Ok(p1)
    } else {
        Err(PoolError::AssetMismatch)
    }
}

/// Both accumulated prices at `block_time`, each entry labelled with the
/// pool's first token as offered and its second as asked: the first entry
/// holds the price of the first token in the second, the second entry the
/// price of the second token in the first.
pub open spec fn cumulative_prices_spec(assets: Seq<Asset>, twap: Twap, block_time: u64) -> Seq<(AssetInfo, AssetInfo, u128)> {
    let (p0, p1) = pair_prices(twap, block_time, assets[0].amount, assets[1].amount);
    seq![(assets[0].info, assets[1].info, p0), (assets[0].info, assets[1].info, p1)]
}

/// The accumulated price of `offer` in `ask` at `block_time`, as
/// `cumulative_price_spec` says. `assets` are the pool's balances.
pub fn query_cumulative_price(assets: &Vec<Asset>, twap: &Twap, block_time: u64, offer: &AssetInfo, ask: &AssetInfo) -> (r: Result<u128, PoolError>)
    requires
        assets@.len() >= 2,
        steps_fit(*twap, block_time, assets@[0].amount, assets@[1].amount),
    ensures
        r == cumulative_price_spec(assets@, *twap, block_time, *offer, *ask),
{
    let (p0, p1) = match accumulate_prices(twap, block_time, assets[0].amount, assets[1].amount) {
        Some((a, b, _)) => (a, b),
        None => (twap.price0_cumulative_last, twap.price1_cumulative_last),
    };
    if offer.same(&assets[0].info) && ask.same(&assets[1].info) {
        Ok(p0)
    } else if offer.same(&assets[1].info) && ask.same(&assets[0].info) {
        Ok(p1)
    } else {
        Err(PoolError::AssetMismatch)
    }
}

/// Both accumulated prices at `block_time`, as `cumulative_prices_spec` says:
/// the two entries carry the same labels (the pool's first token offered,
/// its second asked) and hold the price of each direction in turn.
pub fn query_cumulative_prices(assets: &Vec<Asset>, twap: &Twap, block_time: u64) -> (r: Vec<(AssetInfo, AssetInfo, u128)>)
    requires
        assets@.len() >= 2,
        steps_fit(*twap, block_time, assets@[0].amount, assets@[1].amount),
    ensures
        r@ == cumulative_prices_spec(assets@, *twap, block_time),
{
    let (p0, p1) = match accumulate_prices(twap, block_time, assets[0].amount, assets[1].amount) {
        Some((a, b, _)) => (a, b),
        None => (twap.price0_cumulative_last, twap.price1_cumulative_last),
    };
    let mut r: Vec<(AssetInfo, AssetInfo, u128)> = Vec::new();
    r.push((assets[0].info.copy(), assets[1].info.copy(), p0));
    r.push((assets[0].info.copy(), assets[1].info.copy(), p1));
    r
}

/// In a pool of two distinct tokens, the rates of the two-direction query
/// are those of the single query: the first entry's for the first token in
/// the second, the second entry's for the second token in the first.
pub proof fn law_cumulative_prices_match_single(assets: Seq<Asset>, twap: Twap, block_time: u64)
    requires
        assets.len() >= 2,
        assets[0].info@ != assets[1].info@,
    ensures
        cumulative_price_spec(assets, twap, block_time, assets[0].info, assets[1].info)
            == Ok::<u128, PoolError>(cumulative_prices_spec(assets, twap, block_time)[0].2),
        cumulative_price_spec(assets, twap, block_time, assets[1].info, assets[0].info)
            == Ok::<u128, PoolError>(cumulative_prices_spec(assets, twap, block_time)[1].2),
{
}

/// The state of a two-token pool after the vault booked new balances.
#[derive(Clone, Debug)]
pub struct PairLiquidity {
    pub assets: Vec<Asset>,
    /// The pool's last update: the block time of the booking.
    pub block_time_last: u64,
    pub twap: Twap,
}

/// Takes the balances `assets` that the vault booked at block time `now`;
/// only the vault may. The pool's last update becomes `now`, and the
/// accumulators are brought forward with the new balances of the first two
/// tokens.
pub fn execute_update_pool_liquidity(vault: &String, sender: &String, assets: Vec<Asset>, now: u64, twap: Twap) -> (r: Result<PairLiquidity, PoolError>)
    requires
        sender@ == vault@ ==> assets@.len() >= 2 && steps_fit(twap, now, assets@[0].amount, assets@[1].amount),
    ensures
        sender@ != vault@ ==> r matches Err(PoolError::Unauthorized),
        sender@ == vault@ ==> (r matches Ok(l) && l.assets == assets && l.block_time_last == now && l.twap == (if now > twap.block_time_last {
            Twap {
                price0_cumulative_last: pair_prices(twap, now, assets@[0].amount, assets@[1].amount).0,
                price1_cumulative_last: pair_prices(twap, now, assets@[0].amount, assets@[1].amount).1,
                block_time_last: now,
            }
        } else {
            twap
        })),
{
    if !sender.eq(vault) {
        return Err(PoolError::Unauthorized);
    }
    let moved = accumulate_prices(&twap, now, assets[0].amount, assets[1].amount);
    match moved {
        Some((p0, p1, t)) => Ok(PairLiquidity { assets, block_time_last: now, twap: Twap { price0_cumulative_last: p0, price1_cumulative_last: p1, block_time_last: t } }),
        None => Ok(PairLiquidity { assets, block_time_last: now, twap }),
    }
}

} // verus!
