use dexter_core::pair::{accumulate_prices, execute_update_pool_liquidity, query_cumulative_price, query_cumulative_prices, Twap};
use dexter_core::pool_join::PoolError;
use dexter_core::types::{Asset, AssetInfo};

fn native(denom: &str) -> AssetInfo {
    AssetInfo::NativeToken { denom: denom.to_string() }
}

fn twap() -> Twap {
    Twap { price0_cumulative_last: 5, price1_cumulative_last: 7, block_time_last: 100 }
}

#[test]
fn pair_prices_accumulate_since_last_update() {
    assert_eq!(accumulate_prices(&twap(), 110, 200, 100), Some((5 + 5_000_000, 7 + 20_000_000, 110)));
    assert_eq!(accumulate_prices(&twap(), 100, 200, 100), None);
    assert_eq!(accumulate_prices(&twap(), 110, 0, 100), Some((5, 7, 110)));
}

#[test]
fn pair_cumulative_price_by_direction() {
    let assets = vec![Asset { info: native("a"), amount: 200 }, Asset { info: native("b"), amount: 100 }];
    assert_eq!(query_cumulative_price(&assets, &twap(), 110, &native("a"), &native("b")).unwrap(), 5_000_005);
    assert_eq!(query_cumulative_price(&assets, &twap(), 110, &native("b"), &native("a")).unwrap(), 20_000_007);
    assert!(matches!(query_cumulative_price(&assets, &twap(), 110, &native("a"), &native("c")), Err(PoolError::AssetMismatch)));
    let all = query_cumulative_prices(&assets, &twap(), 110);
    assert_eq!(all.len(), 2);
    assert_eq!(all[0].2, 5_000_005);
    assert_eq!(all[1].0.as_str().as_str(), "a");
    assert_eq!(all[1].1.as_str().as_str(), "b");
    assert_eq!(all[1].2, 20_000_007);
}

#[test]
fn pair_liquidity_update_moves_prices() {
    let assets = vec![Asset { info: native("a"), amount: 200 }, Asset { info: native("b"), amount: 100 }];
    let vault = "vault".to_string();
    assert!(matches!(execute_update_pool_liquidity(&vault, &"x".to_string(), assets.clone(), 110, twap()), Err(PoolError::Unauthorized)));
    let l = execute_update_pool_liquidity(&vault, &vault, assets.clone(), 110, twap()).unwrap();
    assert_eq!(l.assets.len(), 2);
    assert_eq!(l.block_time_last, 110);
    let t = l.twap;
    assert_eq!((t.price0_cumulative_last, t.price1_cumulative_last, t.block_time_last), (5_000_005, 20_000_007, 110));
    let quiet = execute_update_pool_liquidity(&vault, &vault, assets, 90, twap()).unwrap();
    assert_eq!(quiet.block_time_last, 90);
    assert_eq!(quiet.twap.block_time_last, 100);
}
