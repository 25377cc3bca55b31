use dexter_core::superfluid::{
    add_allowed_lockable_token, instantiate, join_pool_and_bond_using_locked_lst, lock_lst_asset,
    remove_allowed_lockable_token, update_config, LockedBalance, PaymentFailure, ContractError, SuperfluidMsg,
};
use dexter_core::types::{Asset, AssetInfo, Coin};

fn s(x: &str) -> String {
    x.to_string()
}

fn native(denom: &str) -> AssetInfo {
    AssetInfo::NativeToken { denom: s(denom) }
}

fn coin(denom: &str, amount: u128) -> Coin {
    Coin { denom: s(denom), amount }
}

#[test]
fn instantiate_checks_tokens() {
    let c = instantiate(s("vault"), s("owner"), vec![native("stk/uxprt"), native("uxprt")]).unwrap();
    assert_eq!(c.allowed_lockable_tokens.len(), 2);
    let r = instantiate(s("vault"), s("owner"), vec![native("uxprt"), native("uxprt")]);
    assert!(matches!(r, Err(ContractError::DuplicateDenom)));
    let r = instantiate(s("vault"), s("owner"), vec![native("uxprt"), AssetInfo::Token { contract_addr: s("cw20") }]);
    assert!(matches!(r, Err(ContractError::UnsupportedAssetType)));
}

#[test]
fn test_superfluid_lp_locking() {
    let c = instantiate(s("vault"), s("owner"), vec![native("stk/uxprt")]).unwrap();
    let asset = Asset { info: native("stk/uxprt"), amount: 10_000_000 };
    let locked = lock_lst_asset(&c, &asset, &vec![coin("stk/uxprt", 10_000_000)], 0).unwrap();
    assert_eq!(locked, 10_000_000);
    let locked = lock_lst_asset(&c, &asset, &vec![coin("stk/uxprt", 10_000_000)], locked).unwrap();
    assert_eq!(locked, 20_000_000);
    let other = Asset { info: native("uxprt"), amount: 10_000_000 };
    let r = lock_lst_asset(&c, &other, &vec![coin("uxprt", 10_000_000)], 0);
    assert!(matches!(r, Err(ContractError::AssetNotAllowedToBeLocked)));
    let r = lock_lst_asset(&c, &asset, &vec![coin("stk/uxprt", 12_000_000)], 0);
    assert!(matches!(r, Err(ContractError::InvalidAmount)));
    let r = lock_lst_asset(&c, &asset, &vec![], 0);
    assert!(matches!(r, Err(ContractError::PaymentError(PaymentFailure::NoFunds))));
    let r = lock_lst_asset(&c, &asset, &vec![coin("uxprt", 5)], 0);
    assert!(matches!(r, Err(ContractError::PaymentError(PaymentFailure::MissingDenom(_)))));
    let r = lock_lst_asset(&c, &asset, &vec![coin("uxprt", 5), coin("stk/uxprt", 5)], 0);
    assert!(matches!(r, Err(ContractError::PaymentError(PaymentFailure::MultipleDenoms))));
}

#[test]
fn owner_manages_lockable_tokens() {
    let c = instantiate(s("vault"), s("owner"), vec![native("uxprt")]).unwrap();
    assert!(matches!(add_allowed_lockable_token(&c, &s("user"), native("uatom")), Err(ContractError::Unauthorized)));
    assert!(matches!(add_allowed_lockable_token(&c, &s("owner"), native("uxprt")), Err(ContractError::AssetAlreadyAllowedToBeLocked)));
    assert!(matches!(
        add_allowed_lockable_token(&c, &s("owner"), AssetInfo::Token { contract_addr: s("cw") }),
        Err(ContractError::UnsupportedAssetType)
    ));
    let list = add_allowed_lockable_token(&c, &s("owner"), native("uatom")).unwrap();
    assert_eq!(list.len(), 2);
    let c2 = dexter_core::superfluid::SuperfluidConfig { allowed_lockable_tokens: list, ..c.clone() };
    let back = remove_allowed_lockable_token(&c2, &s("owner"), &native("uatom")).unwrap();
    assert_eq!(back.len(), 1);
    assert!(matches!(remove_allowed_lockable_token(&c, &s("owner"), &native("uatom")), Err(ContractError::AssetNotInAllowedList)));
    assert!(matches!(update_config(&c, &s("user"), Some(s("v2"))), Err(ContractError::Unauthorized)));
    assert_eq!(update_config(&c, &s("owner"), Some(s("v2"))).unwrap().vault_addr, s("v2"));
}

#[test]
fn join_uses_locked_tokens_when_funds_fall_short() {
    let assets = vec![
        Asset { info: native("stk/uxprt"), amount: 30 },
        Asset { info: native("uxprt"), amount: 10 },
        Asset { info: AssetInfo::Token { contract_addr: s("cw20") }, amount: 7 },
    ];
    let funds = vec![coin("stk/uxprt", 12), coin("uxprt", 15), coin("uatom", 3)];
    let locks = vec![LockedBalance { denom: s("stk/uxprt"), amount: 20 }];
    let (saves, msgs) = join_pool_and_bond_using_locked_lst(&s("user"), &s("locker"), &s("vault"), 1, assets.clone(), None, &funds, &locks).unwrap();
    assert_eq!(saves.len(), 1);
    assert_eq!(saves[0].amount, 2);
    assert!(matches!(&msgs[0], SuperfluidMsg::TransferFromUser { amount: 7, .. }));
    assert!(matches!(&msgs[1], SuperfluidMsg::IncreaseAllowance { amount: 7, .. }));
    assert!(matches!(&msgs[2], SuperfluidMsg::Refund { amount: 5, .. }));
    assert!(matches!(&msgs[3], SuperfluidMsg::Refund { amount: 3, .. }));
    match &msgs[4] {
        SuperfluidMsg::JoinPool { funds, auto_stake, .. } => {
            assert!(*auto_stake);
            assert_eq!(funds.len(), 2);
            assert_eq!(funds[0].amount, 30);
            assert_eq!(funds[1].amount, 10);
        },
        _ => panic!("expected the join"),
    }
    let short = vec![LockedBalance { denom: s("stk/uxprt"), amount: 10 }];
    let r = join_pool_and_bond_using_locked_lst(&s("user"), &s("locker"), &s("vault"), 1, assets, None, &funds, &short);
    assert!(matches!(r, Err(ContractError::InsufficientBalance { available_balance: 22, required_balance: 30, .. })));
}

#[test]
fn join_never_raises_locks() {
    let assets = vec![Asset { info: native("stk/uxprt"), amount: 15 }, Asset { info: native("stk/uxprt"), amount: 10 }];
    let funds = vec![coin("stk/uxprt", 5)];
    let locks = vec![LockedBalance { denom: s("stk/uxprt"), amount: 30 }];
    let (saves, _) = join_pool_and_bond_using_locked_lst(&s("user"), &s("locker"), &s("vault"), 1, assets, None, &funds, &locks).unwrap();
    assert_eq!(saves.len(), 2);
    assert_eq!(saves[0].amount, 20);
    assert_eq!(saves[1].amount, 15);
    assert!(saves.iter().all(|l| l.amount <= 30));
}
