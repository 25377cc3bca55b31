//! The stableswap pool's housekeeping: the checks on its tokens, the balances
//! the vault books into it, and the owner's changes of its amplification.
use vstd::prelude::*;
use crate::types::{Asset, AssetInfo};
use crate::stableswap_dec::DecimalAsset;
use crate::amp::{MathConfig, AmpError, start_changing_amp, start_changing_amp_spec, stop_changing_amp, stop_changing_amp_spec};
use crate::stableswap::{MathError, MIN_AMP_CHANGING_TIME, MAX_AMP, AMP_PRECISION};
use crate::pool_join::{PoolError, lowercase, to_lowercase};
use crate::vault::create::{instantiated_address, parse_instantiated_address};
use crate::pool::{Twap, SwapMath, accumulate_prefix, decimal_pools_of, precisions_supported, to_decimal_assets, accumulate_prices};
use crate::amp::current_amp_spec;

verus! {

/// No token is named twice.
pub open spec fn distinct_infos(infos: Seq<AssetInfo>) -> bool {
    forall|i: int, j: int| 0 <= i < j < infos.len() ==> (#[trigger] infos[i])@ != (#[trigger] infos[j])@
}

/// Refuses a list of tokens that names a token twice.
pub fn check_asset_infos(infos: &Vec<AssetInfo>) -> (r: Result<(), PoolError>)
    ensures
        r is Ok <==> distinct_infos(infos@),
        r is Err ==> r matches Err(PoolError::DoublingAssets),
{
    let mut i: usize = 0;
    while i < infos.len()
        invariant
            i <= infos.len(),
            forall|a: int, b: int| 0 <= a < b < infos.len() && a < i ==> (#[trigger] infos@[a])@ != (#[trigger] infos@[b])@,
        decreases infos.len() - i,
    {
        let mut j: usize = i + 1;
        while j < infos.len()
            invariant
                i < j <= infos.len(),
                forall|a: int, b: int| 0 <= a < b < infos.len() && a < i ==> (#[trigger] infos@[a])@ != (#[trigger] infos@[b])@,
                forall|b: int| i < b < j ==> infos@[i as int]@ != (#[trigger] infos@[b])@,
            decreases infos.len() - j,
        {
            if infos[i].same(&infos[j]) {
                return Err(PoolError::DoublingAssets);
            }
            j = j + 1;
        }
        i = i + 1;
    }
    Ok(())
}

/// The price accumulators from `from` to the first `j` tokens of `infos`
/// other than `from`, all at zero.
pub open spec fn price_row(infos: Seq<AssetInfo>, from: AssetInfo, j: nat) -> Seq<(AssetInfo, AssetInfo, u128)>
    decreases j,
{
    if j == 0 {
        seq![]
    } else {
        let prev = price_row(infos, from, (j - 1) as nat);
        let to = infos[j - 1];
        if to@ == from@ { prev } else { prev.push((from, to, 0u128)) }
    }
}

/// The price accumulators of every ordered pair of distinct tokens, from
/// the first `i` tokens of `infos`, row by row, all at zero.
pub open spec fn price_pairs(infos: Seq<AssetInfo>, i: nat) -> Seq<(AssetInfo, AssetInfo, u128)>
    decreases i,
{
    if i == 0 {
        seq![]
    } else {
        price_pairs(infos, (i - 1) as nat) + price_row(infos, infos[i - 1], infos.len())
    }
}

/// The state a new pool starts with.
#[derive(Clone, Debug)]
pub struct PoolInit {
    /// The pool's tokens, each with a zero balance.
    pub assets: Vec<Asset>,
    pub twap: Twap,
    pub math_config: MathConfig,
    /// The time of the pool's last update: its creation.
    pub block_time_last: u64,
}

/// The state of a new stableswap pool of the tokens `asset_infos` (two to
/// five) with amplification `amp` (one to `MAX_AMP`, without precision),
/// created at block time `now`: zero balances, zero price accumulators for
/// every ordered pair of distinct tokens, and the amplification held.
pub fn instantiate(asset_infos: &Vec<AssetInfo>, amp: u64, now: u64) -> (r: Result<PoolInit, PoolError>)
    ensures
        (asset_infos@.len() > 5 || asset_infos@.len() < 2) ==> r matches Err(PoolError::InvalidNumberOfAssets),
        2 <= asset_infos@.len() <= 5 && (amp == 0 || amp > MAX_AMP) ==> r matches Err(PoolError::IncorrectAmp),
        2 <= asset_infos@.len() <= 5 && 0 < amp <= MAX_AMP ==> (r matches Ok(init) && {
            &&& init.assets@.len() == asset_infos@.len()
            &&& forall|i: int| 0 <= i < asset_infos@.len() ==> (#[trigger] init.assets@[i]).info == asset_infos@[i] && init.assets@[i].amount == 0
            &&& init.twap.cumulative_prices@ == price_pairs(asset_infos@, asset_infos@.len())
            &&& init.twap.block_time_last == 0
            &&& init.math_config == (MathConfig { init_amp: (amp * AMP_PRECISION) as u64, init_amp_time: now, next_amp: (amp * AMP_PRECISION) as u64, next_amp_time: now })
            &&& init.block_time_last == now
        }),
{
    if asset_infos.len() > 5 || asset_infos.len() < 2 {
        return Err(PoolError::InvalidNumberOfAssets);
    }
    if amp == 0 || amp > MAX_AMP {
        return Err(PoolError::IncorrectAmp);
    }
    let n = asset_infos.len();
    let mut pairs: Vec<(AssetInfo, AssetInfo, u128)> = Vec::new();
    let mut i: usize = 0;
    while i < n
        invariant
            i <= n,
            n == asset_infos@.len(),
            pairs@ == price_pairs(asset_infos@, i as nat),
        decreases n - i,
    {
        let from = &asset_infos[i];
        let ghost before = pairs@;
        let mut j: usize = 0;
        while j < n
            invariant
                j <= n,
                i < n,
                n == asset_infos@.len(),
                *from == asset_infos@[i as int],
                pairs@ == before + price_row(asset_infos@, *from, j as nat),
            decreases n - j,
        {
            let to = &asset_infos[j];
            if !from.same(to) {
                pairs.push((from.copy(), to.copy(), 0u128));
                assert(pairs@ =~= before + price_row(asset_infos@, *from, (j + 1) as nat));
            }
            j = j + 1;
        }
        i = i + 1;
    }
    let mut assets: Vec<Asset> = Vec::new();
    let mut k: usize = 0;
    while k < n
        invariant
            k <= n,
            n == asset_infos@.len(),
            assets@.len() == k,
            forall|t: int| 0 <= t < k ==> (#[trigger] assets@[t]).info == asset_infos@[t] && assets@[t].amount == 0,
        decreases n - k,
    {
        assets.push(Asset { info: asset_infos[k].copy(), amount: 0 });
        k = k + 1;
    }
    let amp_p = amp * AMP_PRECISION;
    Ok(PoolInit {
        assets,
        twap: Twap { cumulative_prices: pairs, block_time_last: 0 },
        math_config: MathConfig { init_amp: amp_p, init_amp_time: now, next_amp: amp_p, next_amp_time: now },
        block_time_last: now,
    })
}

/// Over distinct tokens, the row of token `i` leaves out only the token itself.
pub proof fn lemma_price_row_len(infos: Seq<AssetInfo>, i: int, j: nat)
    requires
        distinct_infos(infos),
        0 <= i < infos.len(),
        j <= infos.len(),
    ensures
        price_row(infos, infos[i], j).len() == if i < j { j - 1 } else { j as int },
    decreases j,
{
    if j > 0 {
        lemma_price_row_len(infos, i, (j - 1) as nat);
        if (j - 1) as int != i {
            if i < j - 1 {
                assert(infos[i]@ != infos[j - 1]@);
            } else {
                assert(infos[j - 1]@ != infos[i]@);
            }
        }
    }
}

/// A new pool over distinct tokens keeps a price for each of the
/// `n * (n - 1)` ordered pairs of its `n` tokens, and never one from a
/// token to itself.
pub proof fn law_price_pairs_cover_ordered_pairs(infos: Seq<AssetInfo>, i: nat)
    requires
        distinct_infos(infos),
        i <= infos.len(),
    ensures
        price_pairs(infos, i).len() == i * (infos.len() - 1),
        forall|k: int| 0 <= k < price_pairs(infos, i).len() ==> (#[trigger] price_pairs(infos, i)[k]).0@ != price_pairs(infos, i)[k].1@,
    decreases i,
{
    if i > 0 {
        law_price_pairs_cover_ordered_pairs(infos, (i - 1) as nat);
        let from = infos[i - 1];
        lemma_price_row_len(infos, i - 1, infos.len());
        lemma_price_row_distinct_ends(infos, from, infos.len());
        let prev = price_pairs(infos, (i - 1) as nat);
        let row = price_row(infos, from, infos.len());
        assert(price_pairs(infos, i) == prev + row);
        assert((i - 1) * (infos.len() - 1) + (infos.len() - 1) == i * (infos.len() - 1)) by (nonlinear_arith);
        assert forall|k: int| 0 <= k < price_pairs(infos, i).len() implies (#[trigger] price_pairs(infos, i)[k]).0@ != price_pairs(infos, i)[k].1@ by {
            if k < prev.len() {
                assert(price_pairs(infos, i)[k] == prev[k]);
            } else {
                assert(price_pairs(infos, i)[k] == row[k - prev.len()]);
            }
        }
    }
}

/// Every entry of a row runs from the row's token to another one.
pub proof fn lemma_price_row_distinct_ends(infos: Seq<AssetInfo>, from: AssetInfo, j: nat)
    requires
        j <= infos.len(),
    ensures
        forall|k: int| 0 <= k < price_row(infos, from, j).len() ==> (#[trigger] price_row(infos, from, j)[k]).0 == from
            && price_row(infos, from, j)[k].1@ != from@,
    decreases j,
{
    if j > 0 {
        lemma_price_row_distinct_ends(infos, from, (j - 1) as nat);
    }
}

/// The address of a pool's LP token, learnt from the reply of its
/// instantiation (`data`), in lowercase. A pool that knows its LP token
/// already refuses it.
pub fn reply(lp_token_addr: &Option<String>, data: &Vec<u8>) -> (r: Result<String, PoolError>)
    ensures
        lp_token_addr is Some ==> r matches Err(PoolError::Unauthorized),
        lp_token_addr is None && instantiated_address(data@) is None ==> r matches Err(PoolError::ReplyParseFailed),
        lp_token_addr is None && instantiated_address(data@) is Some ==> (r matches Ok(a) && a@ == lowercase(instantiated_address(data@)->Some_0)),
{
    if lp_token_addr.is_some() {
        return Err(PoolError::Unauthorized);
    }
    match parse_instantiated_address(data) {
        Some(a) => Ok(to_lowercase(&a)),
        None => Err(PoolError::ReplyParseFailed),
    }
}

/// Whether `info` is the CW20 token at `addr`.
pub open spec fn is_token_at(info: AssetInfo, addr: Seq<char>) -> bool {
    match info {
        AssetInfo::Token { contract_addr } => contract_addr@ == addr,
        AssetInfo::NativeToken { .. } => false,
    }
}

/// Whether `sender` is a CW20 token of the pool.
pub open spec fn cw20_in_pool(assets: Seq<Asset>, sender: Seq<char>) -> bool {
    exists|i: int| 0 <= i < assets.len() && is_token_at((#[trigger] assets[i]).info, sender)
}

/// Accepts CW20 tokens only from a token of the pool.
pub fn check_cw20_in_pool(assets: &Vec<Asset>, sender: &String) -> (r: Result<(), PoolError>)
    ensures
        r is Ok <==> cw20_in_pool(assets@, sender@),
        r is Err ==> r matches Err(PoolError::Unauthorized),
{
    let mut i: usize = 0;
    while i < assets.len()
        invariant
            i <= assets.len(),
            forall|k: int| 0 <= k < i ==> !is_token_at((#[trigger] assets@[k]).info, sender@),
        decreases assets.len() - i,
    {
        if let AssetInfo::Token { contract_addr } = &assets[i].info {
            if contract_addr.eq(sender) {
                assert(is_token_at(assets@[i as int].info, sender@));
                return Ok(());
            }
        }
        i = i + 1;
    }
    Err(PoolError::Unauthorized)
}

/// The balances the vault books into a pool, when, and the price
/// accumulators brought forward to that time.
#[derive(Clone, Debug)]
pub struct PoolLiquidity {
    pub assets: Vec<Asset>,
    pub block_time_last: u64,
    pub twap: Twap,
}

/// `after` is `before` brought forward to `block_time` with the new values `values`.
pub open spec fn twap_moved(before: Twap, after: Twap, values: Seq<u128>, block_time: u64) -> bool {
    &&& after.block_time_last == block_time
    &&& after.cumulative_prices@.len() == before.cumulative_prices@.len()
    &&& values.len() == before.cumulative_prices@.len()
    &&& forall|i: int| 0 <= i < values.len() ==> (#[trigger] after.cumulative_prices@[i]).0 == before.cumulative_prices@[i].0
        && after.cumulative_prices@[i].1 == before.cumulative_prices@[i].1 && after.cumulative_prices@[i].2 == values[i]
}

/// Takes the balances `assets` that the vault booked at block time `now`;
/// only the vault may. The price accumulators are then brought forward, by
/// the time passed since they last were, at the prices of the new balances
/// (`precisions`: the decimals of the pool's tokens).
pub fn execute_update_pool_liquidity(
    vault: &String,
    sender: &String,
    assets: Vec<Asset>,
    now: u64,
    twap: Twap,
    precisions: &Vec<u8>,
    math_config: &MathConfig,
) -> (r: Result<PoolLiquidity, PoolError>)
    requires
        precisions@.len() == assets@.len(),
        precisions_supported(precisions@),
        now > twap.block_time_last ==> forall|dec: Seq<DecimalAsset>| decimal_pools_of(dec, assets@, precisions@)
            ==> !(accumulate_prefix(twap.cumulative_prices@, (now - twap.block_time_last) as u64, dec, precisions@,
                current_amp_spec(*math_config, now), twap.cumulative_prices@.len()) matches Err(SwapMath::Panic)),
    ensures
        sender@ != vault@ ==> r matches Err(PoolError::Unauthorized),
        sender@ == vault@ && now <= twap.block_time_last ==> (r matches Ok(l) && l.assets == assets && l.block_time_last == now && l.twap == twap),
        sender@ == vault@ && now > twap.block_time_last ==> exists|dec: Seq<DecimalAsset>| decimal_pools_of(dec, assets@, precisions@)
            && match accumulate_prefix(twap.cumulative_prices@, (now - twap.block_time_last) as u64, dec, precisions@,
                current_amp_spec(*math_config, now), twap.cumulative_prices@.len()) {
                Ok(values) => (r matches Ok(l) && l.assets == assets && l.block_time_last == now && twap_moved(twap, l.twap, values, now)),
                Err(_) => r matches Err(PoolError::PricesUpdateFailed),
            },
{
    if !sender.eq(vault) {
        return Err(PoolError::Unauthorized);
    }
    let dec = to_decimal_assets(&assets, precisions);
    assert(decimal_pools_of(dec@, assets@, precisions@));
    let moved = accumulate_prices(&twap, now, &dec, precisions, math_config);
    match moved {
        Ok(None) => {
            assert(now <= twap.block_time_last);
            Ok(PoolLiquidity { assets, block_time_last: now, twap })
        },
        Ok(Some(t)) => Ok(PoolLiquidity { assets, block_time_last: now, twap: t }),
        Err(_) => Err(PoolError::PricesUpdateFailed),
    }
}

/// A change of a pool's amplification.
#[derive(Clone, Copy, Debug)]
pub enum StablePoolUpdateParams {
    /// Ramp to `next_amp` (without precision), reached at `next_amp_time`.
    StartChangingAmp { next_amp: u64, next_amp_time: u64 },
    /// Hold the current amplification.
    StopChangingAmp,
}

/// Why the owner's change was refused.
#[derive(Clone, Copy, Debug)]
pub enum PoolUpdateError {
    Unauthorized,
    Amp(AmpError),
}

/// The pool's math configuration after the change `params` made by `sender`
/// at block time `t`; only the vault's owner `owner` may make one.
pub fn update_config(math_config: &MathConfig, sender: &String, owner: &String, params: StablePoolUpdateParams, t: u64) -> (r: Result<MathConfig, PoolUpdateError>)
    requires
        math_config.init_amp_time + MIN_AMP_CHANGING_TIME <= u64::MAX,
        t >= math_config.init_amp_time + MIN_AMP_CHANGING_TIME ==> t + MIN_AMP_CHANGING_TIME <= u64::MAX,
    ensures
        sender@ != owner@ ==> r matches Err(PoolUpdateError::Unauthorized),
        sender@ == owner@ ==> match params {
            StablePoolUpdateParams::StartChangingAmp { next_amp, next_amp_time } => match start_changing_amp_spec(*math_config, t, next_amp, next_amp_time) {
                Ok(c) => (r matches Ok(c2) && c2 == c),
                Err(e) => (r matches Err(PoolUpdateError::Amp(e2)) && e2 == e),
            },
            StablePoolUpdateParams::StopChangingAmp => match stop_changing_amp_spec(*math_config, t) {
                Ok(c) => (r matches Ok(c2) && c2 == c),
                Err(e) => (r matches Err(PoolUpdateError::Amp(AmpError::Math(e2))) && e2 == e),
            },
        },
{
    if !sender.eq(owner) {
        return Err(PoolUpdateError::Unauthorized);
    }
    match params {
        StablePoolUpdateParams::StartChangingAmp { next_amp, next_amp_time } => match start_changing_amp(math_config, t, next_amp, next_amp_time) {
            Ok(c) => Ok(c),
            Err(e) => Err(PoolUpdateError::Amp(e)),
        },
        StablePoolUpdateParams::StopChangingAmp => match stop_changing_amp(math_config, t) {
            Ok(c) => Ok(c),
            Err(e) => Err(PoolUpdateError::Amp(AmpError::Math(e))),
        },
    }
}

} // verus!
