use dexter_core::amp::MathConfig;
use dexter_core::pool::{accumulate_prices, compute_offer_amount, compute_swap, find_cumulative_price, query_on_swap, select_pools, Twap};
use dexter_core::pool_admin::{instantiate, reply, check_asset_infos, check_cw20_in_pool, execute_update_pool_liquidity, update_config, PoolUpdateError, StablePoolUpdateParams};
use dexter_core::pool_join::{imbalanced_withdraw, query_on_exit_pool, query_on_join_pool, sort_by_lowercase, PoolError};
use dexter_core::stableswap_dec::DecimalAsset;
use dexter_core::types::{Asset, AssetInfo};
use dexter_core::vault::join::PoolResponse;
use dexter_core::vault::swap::SwapType;
use dexter_core::wide::U256;

fn wide(x: u128) -> U256 {
    let mut bytes = [0u8; 32];
    bytes[16..].copy_from_slice(&x.to_be_bytes());
    U256 { bytes }
}

fn native(denom: &str) -> AssetInfo {
    AssetInfo::NativeToken { denom: denom.to_string() }
}

fn steady_amp() -> MathConfig {
    MathConfig { init_amp: 10_000, init_amp_time: 0, next_amp: 10_000, next_amp_time: 0 }
}

fn decimal_pools(amount: u128) -> Vec<DecimalAsset> {
    ["a", "b", "c"].iter().map(|d| DecimalAsset { info: native(d), amount: wide(amount * 1_000_000_000_000) }).collect()
}

fn pools(amount: u128) -> Vec<Asset> {
    ["a", "b", "c"].iter().map(|d| Asset { info: native(d), amount }).collect()
}

#[test]
fn swap_prices_by_the_invariant() {
    let p = decimal_pools(100_000_000000);
    let offer = DecimalAsset { info: native("a"), amount: wide(100_000000 * 1_000_000_000_000) };
    let (ret, spread) = compute_swap(&offer, &p[0], &p[1], &p, &steady_amp(), 5, 6).unwrap();
    assert_eq!(ret, 99999010);
    assert_eq!(spread, 990);
}

#[test]
fn offer_amount_inverts_the_swap() {
    let p = decimal_pools(100_000_000000);
    let (offer, spread, commission) = compute_offer_amount(99999010, &p[0], &p[1], &p, &steady_amp(), 5, 0, 6, 6, 6).unwrap();
    assert_eq!(offer, 100000000);
    assert_eq!(spread, 990);
    assert_eq!(commission, 0);
    let (offer, spread, commission) = compute_offer_amount(99999010, &p[0], &p[1], &p, &steady_amp(), 5, 30, 6, 6, 6).unwrap();
    assert_eq!(offer, 100300905);
    assert_eq!(spread, 996);
    assert_eq!(commission, 300899);
}

#[test]
fn prices_accumulate_over_time() {
    let p = decimal_pools(100_000_000000);
    let twap = Twap { cumulative_prices: vec![(native("a"), native("b"), 7)], block_time_last: 100 };
    let precisions = vec![6u8, 6, 6];
    let moved = accumulate_prices(&twap, 110, &p, &precisions, &steady_amp()).unwrap().unwrap();
    assert_eq!(moved.block_time_last, 110);
    assert_eq!(moved.cumulative_prices[0].2, 7 + 10 * 1_000_000);
    assert_eq!(find_cumulative_price(&moved, &native("a"), &native("b")), Some(7 + 10 * 1_000_000));
    assert_eq!(find_cumulative_price(&moved, &native("b"), &native("a")), None);
    assert!(accumulate_prices(&twap, 100, &p, &precisions, &steady_amp()).unwrap().is_none());
}

#[test]
fn pools_are_selected_by_token() {
    let p = decimal_pools(5);
    assert_eq!(select_pools(&native("c"), &native("a"), &p), Some((2, 0)));
    assert_eq!(select_pools(&native("x"), &native("a"), &p), None);
}

#[test]
fn join_mints_in_proportion() {
    let precisions = vec![6u8, 6, 6];
    let deposit = vec![
        Asset { info: native("c"), amount: 100_000000 },
        Asset { info: native("A"), amount: 0 },
        Asset { info: native("b"), amount: 100_000000 },
    ];
    let answer = query_on_join_pool(Some(deposit), &pools(1000_000000), &precisions, &steady_amp(), 5, 3000_000000, 30, 6).unwrap();
    assert!(matches!(answer.response, PoolResponse::Failure(_)));

    let deposit = vec![
        Asset { info: native("c"), amount: 100_000000 },
        Asset { info: native("a"), amount: 100_000000 },
        Asset { info: native("b"), amount: 100_000000 },
    ];
    let answer = query_on_join_pool(Some(deposit), &pools(1000_000000), &precisions, &steady_amp(), 5, 3000_000000, 30, 6).unwrap();
    assert!(matches!(answer.response, PoolResponse::Success));
    assert_eq!(answer.new_shares, 300_000000);
    let order: Vec<String> = answer.provided_assets.iter().map(|a| a.info.as_str().clone()).collect();
    assert_eq!(order, vec!["a".to_string(), "b".to_string(), "c".to_string()]);
}

#[test]
fn imbalanced_join_pays_a_fee() {
    let precisions = vec![6u8, 6, 6];
    let deposit = vec![Asset { info: native("a"), amount: 100_000000 }];
    let answer = query_on_join_pool(Some(deposit), &pools(1000_000000), &precisions, &steady_amp(), 5, 3000_000000, 30, 6).unwrap();
    assert_eq!(answer.new_shares, 99839493);
    let empty = query_on_join_pool(None, &pools(1000_000000), &precisions, &steady_amp(), 5, 3000_000000, 30, 6).unwrap();
    assert!(matches!(empty.response, PoolResponse::Failure(_)));
    let nothing = vec![Asset { info: native("a"), amount: 0 }];
    let refused = query_on_join_pool(Some(nothing), &pools(1000_000000), &precisions, &steady_amp(), 5, 3000_000000, 30, 6).unwrap();
    assert!(matches!(refused.response, PoolResponse::Failure(_)));
}

#[test]
fn first_join_mints_the_invariant() {
    let precisions = vec![6u8, 6, 6];
    let deposit = vec![
        Asset { info: native("a"), amount: 100_000000 },
        Asset { info: native("b"), amount: 100_000000 },
        Asset { info: native("c"), amount: 100_000000 },
    ];
    let answer = query_on_join_pool(Some(deposit), &pools(0), &precisions, &steady_amp(), 5, 0, 30, 6).unwrap();
    assert_eq!(answer.new_shares, 300_000000);
}

#[test]
fn exact_withdrawal_costs_lp_tokens() {
    let precisions = vec![6u8, 6, 6];
    let out = vec![Asset { info: native("a"), amount: 100_000000 }];
    let burn = imbalanced_withdraw(&out, &pools(1000_000000), &precisions, &steady_amp(), 5, 3000_000000, 30, 6, 200_000000).unwrap();
    assert_eq!(burn, 100161776);
    let r = imbalanced_withdraw(&out, &pools(1000_000000), &precisions, &steady_amp(), 5, 3000_000000, 30, 6, 100_000000);
    assert!(matches!(r, Err(PoolError::NotEnoughLpTokens { needed: 100161776 })));
    let twice = vec![Asset { info: native("a"), amount: 1 }, Asset { info: native("a"), amount: 2 }];
    let r = imbalanced_withdraw(&twice, &pools(1000_000000), &precisions, &steady_amp(), 5, 3000_000000, 30, 6, 1);
    assert!(matches!(r, Err(PoolError::DoublingAssets)));
    let unknown = vec![Asset { info: native("z"), amount: 1 }];
    let r = imbalanced_withdraw(&unknown, &pools(1000_000000), &precisions, &steady_amp(), 5, 3000_000000, 30, 6, 1);
    assert!(matches!(r, Err(PoolError::InvalidAsset(_))));
}

#[test]
fn exit_answers() {
    let precisions = vec![6u8, 6, 6];
    let share = query_on_exit_pool(None, Some(300_000000), &pools(1000_000000), &precisions, &steady_amp(), 5, 3000_000000, 30, 6);
    assert_eq!(share.burn_shares, 300_000000);
    assert!(share.assets_out.iter().all(|a| a.amount == 100_000000));
    let out = vec![Asset { info: native("a"), amount: 100_000000 }];
    let exact = query_on_exit_pool(Some(out.clone()), Some(200_000000), &pools(1000_000000), &precisions, &steady_amp(), 5, 3000_000000, 30, 6);
    assert_eq!(exact.burn_shares, 100161776);
    let short = query_on_exit_pool(Some(out), Some(1), &pools(1000_000000), &precisions, &steady_amp(), 5, 3000_000000, 30, 6);
    assert_eq!(short.burn_shares, 0);
}

#[test]
fn swap_answers() {
    let precisions = vec![6u8, 6, 6];
    let p = pools(100_000_000000);
    let give_in = query_on_swap(&SwapType::GiveIn, &native("a"), &native("b"), 100_000000, &p, &precisions, &steady_amp(), 5, 0, 6).unwrap();
    assert_eq!(give_in.trade_params.amount_in, 100_000000);
    assert_eq!(give_in.trade_params.amount_out, 99999010);
    assert_eq!(give_in.trade_params.spread, 990);
    let give_out = query_on_swap(&SwapType::GiveOut, &native("a"), &native("b"), 99999010, &p, &precisions, &steady_amp(), 5, 30, 6).unwrap();
    assert_eq!(give_out.trade_params.amount_in, 100300905);
    assert_eq!(give_out.fee.unwrap().amount, 300899);
    let custom = query_on_swap(&SwapType::Custom("x".to_string()), &native("a"), &native("b"), 1, &p, &precisions, &steady_amp(), 5, 0, 6).unwrap();
    assert!(matches!(custom.response, PoolResponse::Failure(_)));
    let unknown = query_on_swap(&SwapType::GiveIn, &native("x"), &native("b"), 1, &p, &precisions, &steady_amp(), 5, 0, 6).unwrap();
    assert!(matches!(unknown.response, PoolResponse::Failure(_)));
}

#[test]
fn sorting_ignores_case() {
    let v = vec![
        Asset { info: native("b"), amount: 1 },
        Asset { info: native("A"), amount: 2 },
        Asset { info: native("c"), amount: 3 },
    ];
    let sorted = sort_by_lowercase(&v);
    let order: Vec<u128> = sorted.iter().map(|a| a.amount).collect();
    assert_eq!(order, vec![2, 1, 3]);
}

#[test]
fn pool_housekeeping() {
    assert!(check_asset_infos(&vec![native("a"), native("b")]).is_ok());
    assert!(matches!(check_asset_infos(&vec![native("a"), native("a")]), Err(PoolError::DoublingAssets)));
    let p = vec![Asset { info: AssetInfo::Token { contract_addr: "cw".to_string() }, amount: 1 }];
    assert!(check_cw20_in_pool(&p, &"cw".to_string()).is_ok());
    assert!(matches!(check_cw20_in_pool(&p, &"other".to_string()), Err(PoolError::Unauthorized)));
    let quiet = Twap { cumulative_prices: vec![], block_time_last: 5 };
    assert!(matches!(execute_update_pool_liquidity(&"vault".to_string(), &"x".to_string(), p.clone(), 5, quiet.clone(), &vec![6], &steady_amp()), Err(PoolError::Unauthorized)));
    let l = execute_update_pool_liquidity(&"vault".to_string(), &"vault".to_string(), p, 5, quiet, &vec![6], &steady_amp()).unwrap();
    assert_eq!(l.block_time_last, 5);
    assert_eq!(l.twap.block_time_last, 5);
    let c = MathConfig { init_amp: 10_000, init_amp_time: 0, next_amp: 10_000, next_amp_time: 0 };
    let params = StablePoolUpdateParams::StartChangingAmp { next_amp: 200, next_amp_time: 200_000 };
    assert!(matches!(update_config(&c, &"x".to_string(), &"owner".to_string(), params, 100_000), Err(PoolUpdateError::Unauthorized)));
    let started = update_config(&c, &"owner".to_string(), &"owner".to_string(), params, 100_000).unwrap();
    assert_eq!(started.next_amp, 20_000);
    let stopped = update_config(&started, &"owner".to_string(), &"owner".to_string(), StablePoolUpdateParams::StopChangingAmp, 150_000).unwrap();
    assert_eq!(stopped.init_amp, stopped.next_amp);
}

#[test]
fn new_pool_starts_empty_with_all_price_pairs() {
    let infos = vec![native("a"), native("b"), native("c")];
    let init = instantiate(&infos, 100, 77).unwrap();
    assert_eq!(init.assets.len(), 3);
    assert!(init.assets.iter().all(|a| a.amount == 0));
    assert_eq!(init.twap.cumulative_prices.len(), 6);
    let (from, to, price) = &init.twap.cumulative_prices[0];
    assert_eq!((from.as_str().as_str(), to.as_str().as_str(), *price), ("a", "b", 0));
    let (from, to, _) = &init.twap.cumulative_prices[5];
    assert_eq!((from.as_str().as_str(), to.as_str().as_str()), ("c", "b"));
    assert_eq!(init.twap.block_time_last, 0);
    assert_eq!(init.math_config.init_amp, 10_000);
    assert_eq!(init.math_config.next_amp, 10_000);
    assert_eq!(init.math_config.init_amp_time, 77);
    assert_eq!(init.block_time_last, 77);
    assert!(matches!(instantiate(&vec![native("a")], 100, 0), Err(PoolError::InvalidNumberOfAssets)));
    assert!(matches!(instantiate(&infos, 0, 0), Err(PoolError::IncorrectAmp)));
    assert!(matches!(instantiate(&infos, 1_000_001, 0), Err(PoolError::IncorrectAmp)));
}

#[test]
fn pool_learns_its_lp_token_once() {
    let mut data = vec![0x0a, 6];
    data.extend_from_slice(b"LpTok1");
    assert_eq!(reply(&None, &data).unwrap(), "lptok1".to_string());
    assert!(matches!(reply(&Some("lp".to_string()), &data), Err(PoolError::Unauthorized)));
    assert!(matches!(reply(&None, &vec![0xff, 0xff]), Err(PoolError::ReplyParseFailed)));
}

#[test]
fn proper_initialization() {
    let infos = vec![native("uusd"), AssetInfo::Token { contract_addr: "asset0000".to_string() }];
    let init = instantiate(&infos, 100, 1_571_797_419).unwrap();
    let mut data = vec![0x0a, 13];
    data.extend_from_slice(b"liquidity0000");
    let lp = reply(&None, &data).unwrap();
    assert_eq!(lp, "liquidity0000".to_string());
    assert_eq!(init.assets.len(), 2);
    assert!(matches!(&init.assets[0].info, AssetInfo::NativeToken { denom } if denom == "uusd"));
    assert!(matches!(&init.assets[1].info, AssetInfo::Token { contract_addr } if contract_addr == "asset0000"));
}

#[test]
fn liquidity_update_moves_prices_since_their_last_update() {
    let twap = Twap { cumulative_prices: vec![(native("a"), native("b"), 7)], block_time_last: 100 };
    let l = execute_update_pool_liquidity(&"vault".to_string(), &"vault".to_string(), pools(100_000_000000), 110, twap, &vec![6, 6, 6], &steady_amp()).unwrap();
    assert_eq!(l.block_time_last, 110);
    assert_eq!(l.twap.block_time_last, 110);
    assert_eq!(l.twap.cumulative_prices[0].2, 7 + 10 * 1_000_000);
}
