use dexter_core::precision::FeeInfo;
use dexter_core::types::{Asset, AssetInfo, Coin};
use dexter_core::vault::create::{execute_create_pool_instance, reply_with_address, ReplyOutcome, INSTANTIATE_LP_REPLY_ID, INSTANTIATE_POOL_REPLY_ID};
use dexter_core::vault::defunct::{
    build_defunct_pool_info, calculate_proportional_refund, execute_defunct_pool, refund_batch_fits, reward_assets_to_check, execute_process_refund_batch, calculate_user_total_lp_tokens, check_not_refunded,
    finish_refund_batch, locked_lp_total, refund_user, start_refund_batch, validate_no_active_reward_schedules,
    RewardSchedule,
};
use dexter_core::vault::exit::{execute_exit_pool, exit_precheck, AfterExitResponse, ExitType};
use dexter_core::vault::join::{execute_join_pool, join_precheck, AfterJoinResponse, PoolResponse};
use dexter_core::vault::query::pool_id_range;
use dexter_core::amp::MathConfig;
use dexter_core::pool_join::query_on_exit_pool;
use dexter_core::vault::state::{
    AllowPoolInstantiation, AutoStakeImpl, NativeAssetPrecisionInfo, PauseInfo, PoolCreationFee, PoolInfo,
    PoolTypeConfig, VaultConfig, ContractError, VaultMsg,
};
use dexter_core::vault::swap::{execute_swap, swap_precheck, SingleSwapRequest, SwapResponse, SwapType, Trade};

fn s(x: &str) -> String {
    x.to_string()
}

fn native(denom: &str) -> AssetInfo {
    AssetInfo::NativeToken { denom: s(denom) }
}

fn token(addr: &str) -> AssetInfo {
    AssetInfo::Token { contract_addr: s(addr) }
}

fn asset(info: AssetInfo, amount: u128) -> Asset {
    Asset { info, amount }
}

fn config() -> VaultConfig {
    VaultConfig {
        owner: s("owner"),
        whitelisted_addresses: vec![s("friend")],
        lp_token_code_id: Some(7),
        fee_collector: Some(s("collector")),
        auto_stake_impl: AutoStakeImpl::Multistaking { contract_addr: s("staking") },
        pool_creation_fee: PoolCreationFee::Disabled,
        next_pool_id: 1,
        paused: PauseInfo::none(),
    }
}

fn pool_type() -> PoolTypeConfig {
    PoolTypeConfig {
        code_id: 3,
        pool_type: s("stable"),
        default_fee_info: FeeInfo { total_fee_bps: 30, protocol_fee_percent: 50 },
        allow_instantiation: AllowPoolInstantiation::Everyone,
        paused: PauseInfo::none(),
    }
}

fn pool() -> PoolInfo {
    PoolInfo {
        pool_id: 1,
        pool_addr: s("pool"),
        lp_token_addr: s("lp"),
        fee_info: FeeInfo { total_fee_bps: 30, protocol_fee_percent: 50 },
        assets: vec![asset(token("cw20a"), 1000), asset(native("uusd"), 2000)],
        pool_type: s("stable"),
        paused: PauseInfo::none(),
    }
}

fn transfer(m: &VaultMsg) -> (String, String, u128) {
    match m {
        VaultMsg::Transfer { info, recipient, amount } => (info.as_str().clone(), recipient.clone(), *amount),
        _ => panic!("not a transfer"),
    }
}

#[test]
fn join_books_deposits_and_mints() {
    let answer = AfterJoinResponse {
        provided_assets: vec![asset(token("cw20a"), 100), asset(native("uusd"), 200)],
        new_shares: 50,
        response: PoolResponse::Success,
        fee: Some(vec![asset(native("uusd"), 10)]),
    };
    let funds = vec![Coin { denom: s("uusd"), amount: 250 }];
    let (assets, msgs) = execute_join_pool(&config(), &pool(), &answer, None, None, &s("user"), &s("user"), &s("vault"), &funds).unwrap();
    assert_eq!(assets[0].amount, 1100);
    // 2000 + 200 - protocol fee (half of 10)
    assert_eq!(assets[1].amount, 2195);
    assert!(matches!(&msgs[0], VaultMsg::TransferFromUser { amount: 100, .. }));
    assert_eq!(transfer(&msgs[1]), (s("uusd"), s("user"), 50));
    assert_eq!(transfer(&msgs[2]), (s("uusd"), s("collector"), 5));
    assert!(matches!(&msgs[3], VaultMsg::UpdateLiquidity { .. }));
    assert!(matches!(&msgs[4], VaultMsg::Mint { amount: 50, .. }));
}

#[test]
fn join_refusals() {
    let mut answer = AfterJoinResponse {
        provided_assets: vec![asset(token("cw20a"), 100), asset(native("uusd"), 200)],
        new_shares: 50,
        response: PoolResponse::Success,
        fee: None,
    };
    let funds = vec![Coin { denom: s("uusd"), amount: 150 }];
    let r = execute_join_pool(&config(), &pool(), &answer, None, None, &s("user"), &s("user"), &s("vault"), &funds);
    assert!(matches!(r, Err(ContractError::InsufficientNativeTokensSent { sent: 150, needed: 200, .. })));
    let r = execute_join_pool(&config(), &pool(), &answer, Some(60), None, &s("user"), &s("user"), &s("vault"), &funds);
    assert!(matches!(r, Err(ContractError::MinReceiveError { min_receive: 60, ask_amount: 50 })));
    answer.new_shares = 0;
    let r = execute_join_pool(&config(), &pool(), &answer, None, None, &s("user"), &s("user"), &s("vault"), &funds);
    assert!(matches!(r, Err(ContractError::PoolQueryFailed { .. })));
    answer.response = PoolResponse::Failure(s("no"));
    let r = execute_join_pool(&config(), &pool(), &answer, None, None, &s("user"), &s("user"), &s("vault"), &funds);
    assert!(matches!(r, Err(ContractError::PoolQueryFailed { .. })));
}

#[test]
fn join_precheck_respects_pauses() {
    let mut p = pool();
    assert!(join_precheck(&config(), &p, &Some(pool_type()), None).is_ok());
    p.paused.deposit = true;
    assert!(matches!(join_precheck(&config(), &p, &Some(pool_type()), None), Err(ContractError::PausedDeposit)));
    let mut c = config();
    c.auto_stake_impl = AutoStakeImpl::Disabled;
    assert!(matches!(join_precheck(&c, &pool(), &Some(pool_type()), Some(true)), Err(ContractError::AutoStakeDisabled)));
    assert!(matches!(join_precheck(&c, &pool(), &None, None), Err(ContractError::NotFound)));
}

#[test]
fn exit_pays_out_and_burns() {
    let answer = AfterExitResponse {
        assets_out: vec![asset(token("cw20a"), 100), asset(native("uusd"), 200)],
        burn_shares: 40,
        response: PoolResponse::Success,
        fee: None,
    };
    let exit_type = ExitType::ExactLpBurn { lp_to_burn: 40, min_assets_out: None };
    assert!(exit_precheck(&config(), &pool(), &Some(pool_type()), &s("lp"), &exit_type, 40).is_ok());
    let (assets, msgs) = execute_exit_pool(&config(), &pool(), &answer, &exit_type, 40, &s("user"), &s("user")).unwrap();
    assert_eq!(assets[0].amount, 900);
    assert_eq!(assets[1].amount, 1800);
    assert_eq!(transfer(&msgs[0]), (s("cw20a"), s("user"), 100));
    assert_eq!(transfer(&msgs[1]), (s("uusd"), s("user"), 200));
    assert!(matches!(&msgs[2], VaultMsg::Burn { amount: 40, .. }));
    assert!(matches!(&msgs[3], VaultMsg::UpdateLiquidity { .. }));
}

#[test]
fn exit_refusals() {
    let exit_type = ExitType::ExactLpBurn { lp_to_burn: 40, min_assets_out: Some(vec![asset(token("cw20a"), 150), asset(native("uusd"), 1)]) };
    assert!(matches!(exit_precheck(&config(), &pool(), &Some(pool_type()), &s("other"), &exit_type, 40), Err(ContractError::Unauthorized)));
    assert!(matches!(
        exit_precheck(&config(), &pool(), &Some(pool_type()), &s("lp"), &exit_type, 41),
        Err(ContractError::ReceivedUnexpectedLpTokens { expected: 40, received: 41 })
    ));
    let answer = AfterExitResponse {
        assets_out: vec![asset(token("cw20a"), 100), asset(native("uusd"), 200)],
        burn_shares: 40,
        response: PoolResponse::Success,
        fee: None,
    };
    let r = execute_exit_pool(&config(), &pool(), &answer, &exit_type, 40, &s("user"), &s("user"));
    assert!(matches!(r, Err(ContractError::MinAssetOutError { return_amount: 100, min_receive: 150, .. })));
    let imbalanced = ExitType::ExactAssetsOut { assets_out: vec![asset(token("cw20a"), 100)], max_lp_to_burn: Some(30) };
    let r = execute_exit_pool(&config(), &pool(), &answer, &imbalanced, 40, &s("user"), &s("user"));
    assert!(matches!(r, Err(ContractError::PoolExitTransitionAssetsOutMismatch { .. })));
}

#[test]
fn exit_returns_unused_lp_tokens() {
    let answer = AfterExitResponse {
        assets_out: vec![asset(token("cw20a"), 100), asset(native("uusd"), 0)],
        burn_shares: 30,
        response: PoolResponse::Success,
        fee: None,
    };
    let exit_type = ExitType::ExactAssetsOut { assets_out: vec![asset(token("cw20a"), 100)], max_lp_to_burn: Some(35) };
    let (assets, msgs) = execute_exit_pool(&config(), &pool(), &answer, &exit_type, 35, &s("user"), &s("user")).unwrap();
    assert_eq!(assets[0].amount, 900);
    assert_eq!(assets[1].amount, 2000);
    assert_eq!(transfer(&msgs[0]), (s("cw20a"), s("user"), 100));
    assert!(matches!(&msgs[1], VaultMsg::Burn { amount: 30, .. }));
    assert_eq!(transfer(&msgs[2]), (s("lp"), s("user"), 5));
}

fn swap_request(amount: u128) -> SingleSwapRequest {
    SingleSwapRequest { pool_id: 1, asset_in: native("uusd"), asset_out: token("cw20a"), swap_type: SwapType::GiveIn, amount }
}

#[test]
fn swap_moves_balances() {
    let answer = SwapResponse {
        trade_params: Trade { amount_in: 100, amount_out: 90, spread: 1 },
        response: PoolResponse::Success,
        fee: Some(asset(token("cw20a"), 10)),
    };
    let funds = vec![Coin { denom: s("uusd"), amount: 120 }];
    let (assets, msgs) = execute_swap(&config(), &pool(), &swap_request(100), &answer, None, None, &s("user"), &s("bob"), &s("vault"), &funds).unwrap();
    assert_eq!(assets[1].amount, 2100);
    // 1000 - 90 out - 5 protocol fee
    assert_eq!(assets[0].amount, 905);
    assert_eq!(transfer(&msgs[0]), (s("cw20a"), s("bob"), 90));
    assert_eq!(transfer(&msgs[1]), (s("uusd"), s("user"), 20));
    assert!(matches!(&msgs[2], VaultMsg::UpdateLiquidity { .. }));
    assert_eq!(transfer(&msgs[3]), (s("cw20a"), s("collector"), 5));
}

#[test]
fn swap_refusals() {
    let answer = SwapResponse {
        trade_params: Trade { amount_in: 100, amount_out: 90, spread: 1 },
        response: PoolResponse::Success,
        fee: Some(asset(token("cw20a"), 0)),
    };
    let funds = vec![Coin { denom: s("uusd"), amount: 50 }];
    let r = execute_swap(&config(), &pool(), &swap_request(100), &answer, None, None, &s("user"), &s("bob"), &s("vault"), &funds);
    assert!(matches!(r, Err(ContractError::InsufficientTokensSent)));
    let r = execute_swap(&config(), &pool(), &swap_request(100), &answer, Some(91), None, &s("user"), &s("bob"), &s("vault"), &funds);
    assert!(matches!(r, Err(ContractError::MinReceiveError { min_receive: 91, ask_amount: 90 })));
    let r = execute_swap(&config(), &pool(), &swap_request(100), &answer, None, Some(99), &s("user"), &s("bob"), &s("vault"), &funds);
    assert!(matches!(r, Err(ContractError::MaxSpendError { max_spend: 99, offer_amount: 100 })));
    let zero = SwapResponse { trade_params: Trade { amount_in: 0, amount_out: 90, spread: 0 }, ..answer };
    let r = execute_swap(&config(), &pool(), &swap_request(100), &zero, None, None, &s("user"), &s("bob"), &s("vault"), &funds);
    assert!(matches!(r, Err(ContractError::SwapAmountZero)));
}

#[test]
fn swap_precheck_refusals() {
    let p = Some(pool());
    assert!(swap_precheck(&config(), &swap_request(10), false, &p, &Some(pool_type())).is_ok());
    assert!(matches!(swap_precheck(&config(), &swap_request(0), false, &p, &Some(pool_type())), Err(ContractError::AmountCannotBeZero)));
    let mut same = swap_request(10);
    same.asset_out = native("uusd");
    assert!(matches!(swap_precheck(&config(), &same, false, &p, &Some(pool_type())), Err(ContractError::SameTokenError)));
    assert!(matches!(swap_precheck(&config(), &swap_request(10), true, &p, &Some(pool_type())), Err(ContractError::PoolAlreadyDefunct)));
    assert!(matches!(swap_precheck(&config(), &swap_request(10), false, &None, &Some(pool_type())), Err(ContractError::InvalidPoolId)));
    let mut c = config();
    c.paused.swap = true;
    assert!(matches!(swap_precheck(&c, &swap_request(10), false, &p, &Some(pool_type())), Err(ContractError::PausedSwap)));
}

#[test]
fn create_pool_sorts_assets() {
    let infos = vec![native("uusd"), token("zz"), native("uatom"), token("aa")];
    let precisions = vec![
        NativeAssetPrecisionInfo { denom: s("uatom"), precision: 6 },
        NativeAssetPrecisionInfo { denom: s("uusd"), precision: 6 },
    ];
    let (tmp, msgs) = execute_create_pool_instance(&config(), &Some(pool_type()), &s("user"), &s("vault"), &infos, &precisions, None, None, &vec![]).unwrap();
    let order: Vec<String> = tmp.assets.iter().map(|a| a.info.as_str().clone()).collect();
    assert_eq!(order, vec![s("aa"), s("zz"), s("uatom"), s("uusd")]);
    assert!(tmp.assets.iter().all(|a| a.amount == 0));
    assert_eq!(tmp.pool_id, 1);
    assert_eq!(tmp.fee_info.total_fee_bps, 30);
    assert!(matches!(&msgs[0], VaultMsg::InstantiateLpToken { code_id: 7, pool_id: 1, .. }));
    assert_eq!(msgs.len(), 1);
}

#[test]
fn create_pool_refusals() {
    let precisions = vec![NativeAssetPrecisionInfo { denom: s("uusd"), precision: 6 }];
    let infos = vec![native("uusd"), token("aa")];
    let r = execute_create_pool_instance(&config(), &None, &s("user"), &s("vault"), &infos, &precisions, None, None, &vec![]);
    assert!(matches!(r, Err(ContractError::PoolTypeConfigNotFound)));
    let mut t = pool_type();
    t.allow_instantiation = AllowPoolInstantiation::OnlyWhitelistedAddresses;
    let r = execute_create_pool_instance(&config(), &Some(t.clone()), &s("user"), &s("vault"), &infos, &precisions, None, None, &vec![]);
    assert!(matches!(r, Err(ContractError::Unauthorized)));
    assert!(execute_create_pool_instance(&config(), &Some(t), &s("friend"), &s("vault"), &infos, &precisions, None, None, &vec![]).is_ok());
    let r = execute_create_pool_instance(&config(), &Some(pool_type()), &s("user"), &s("vault"), &infos, &vec![], None, None, &vec![]);
    assert!(matches!(r, Err(ContractError::InvalidNativeAssetPrecisionList)));
    let high = vec![NativeAssetPrecisionInfo { denom: s("uusd"), precision: 19 }];
    let r = execute_create_pool_instance(&config(), &Some(pool_type()), &s("user"), &s("vault"), &infos, &high, None, None, &vec![]);
    assert!(matches!(r, Err(ContractError::UnsupportedPrecision)));
    let zero = vec![NativeAssetPrecisionInfo { denom: s("uusd"), precision: 0 }];
    let r = execute_create_pool_instance(&config(), &Some(pool_type()), &s("user"), &s("vault"), &infos, &zero, None, None, &vec![]);
    assert!(matches!(r, Err(ContractError::UnsupportedPrecision)));
    let twice = vec![token("aa"), token("aa")];
    let r = execute_create_pool_instance(&config(), &Some(pool_type()), &s("user"), &s("vault"), &twice, &vec![], None, None, &vec![]);
    assert!(matches!(r, Err(ContractError::RepeatedAssets)));
    let r = execute_create_pool_instance(&config(), &Some(pool_type()), &s("user"), &s("vault"), &infos, &precisions, Some(FeeInfo { total_fee_bps: 5000, protocol_fee_percent: 0 }), None, &vec![]);
    assert!(matches!(r, Err(ContractError::InvalidFeeInfo)));
    let mut c = config();
    c.lp_token_code_id = None;
    let r = execute_create_pool_instance(&c, &Some(pool_type()), &s("user"), &s("vault"), &infos, &precisions, None, None, &vec![]);
    assert!(matches!(r, Err(ContractError::LpTokenCodeIdNotSet)));
}

#[test]
fn create_pool_collects_fee() {
    let mut c = config();
    c.pool_creation_fee = PoolCreationFee::Enabled { fee: asset(native("uxprt"), 100) };
    let infos = vec![token("aa"), token("bb")];
    let funds = vec![Coin { denom: s("uxprt"), amount: 130 }];
    let (_, msgs) = execute_create_pool_instance(&c, &Some(pool_type()), &s("user"), &s("vault"), &infos, &vec![], None, None, &funds).unwrap();
    assert_eq!(transfer(&msgs[1]), (s("uxprt"), s("user"), 30));
    assert_eq!(transfer(&msgs[2]), (s("uxprt"), s("collector"), 100));
    let few = vec![Coin { denom: s("uxprt"), amount: 99 }];
    let r = execute_create_pool_instance(&c, &Some(pool_type()), &s("user"), &s("vault"), &infos, &vec![], None, None, &few);
    assert!(matches!(r, Err(ContractError::InsufficientNativeTokensSent { sent: 99, needed: 100, .. })));
}

#[test]
fn replies_complete_pool_creation() {
    let infos = vec![token("aa"), token("bb")];
    let (tmp, _) = execute_create_pool_instance(&config(), &Some(pool_type()), &s("user"), &s("vault"), &infos, &vec![], None, None, &vec![]).unwrap();
    let tmp = match reply_with_address(&config(), tmp, INSTANTIATE_LP_REPLY_ID, Some(s("lp1")), &s("vault")).unwrap() {
        ReplyOutcome::LpTokenReady { tmp, msg } => {
            assert!(matches!(msg, VaultMsg::InstantiatePool { code_id: 3, pool_id: 1, .. }));
            tmp
        },
        _ => panic!("expected the LP token step"),
    };
    assert_eq!(tmp.lp_token_addr, Some(s("lp1")));
    match reply_with_address(&config(), tmp.clone(), INSTANTIATE_POOL_REPLY_ID, Some(s("pool1")), &s("vault")).unwrap() {
        ReplyOutcome::PoolReady { pool, next_pool_id } => {
            assert_eq!(next_pool_id, 2);
            assert_eq!(pool.pool_addr, s("pool1"));
            assert_eq!(pool.lp_token_addr, s("lp1"));
        },
        _ => panic!("expected the pool step"),
    }
    assert!(matches!(reply_with_address(&config(), tmp.clone(), 9, Some(s("x")), &s("vault")), Err(ContractError::InvalidSubMsgId)));
    assert!(matches!(reply_with_address(&config(), tmp, 1, None, &s("vault")), Err(ContractError::ReplyParseFailed)));
}

#[test]
fn pages_of_pools() {
    assert_eq!(pool_id_range(None, None, 100), (1, 11));
    assert_eq!(pool_id_range(Some(5), Some(100), 100), (6, 36));
    assert_eq!(pool_id_range(Some(5), Some(3), 7), (6, 7));
}

#[test]
fn refunds_are_proportional() {
    let assets = vec![asset(native("uusd"), 1000), asset(token("cw20a"), 3)];
    let refund = calculate_proportional_refund(100, 25, &assets).unwrap();
    assert_eq!(refund.len(), 1);
    assert_eq!(refund[0].amount, 250);
    assert!(calculate_proportional_refund(0, 25, &assets).unwrap().is_empty());
    assert!(matches!(calculate_proportional_refund(100, u128::MAX, &assets), Err(ContractError::Overflow)));
    assert_eq!(locked_lp_total(&vec![1, 2, 3], 4), 10);
    assert_eq!(calculate_user_total_lp_tokens(1, 2, 3), 6);
}

#[test]
fn refund_batch_marks_users() {
    let defunct = build_defunct_pool_info(&pool(), vec![asset(native("uusd"), 1000)], 100, 55);
    assert_eq!(defunct.total_refunded_lp_tokens, 0);
    assert!(matches!(start_refund_batch(&config(), &s("user"), Some(defunct.clone())), Err(ContractError::Unauthorized)));
    assert!(matches!(start_refund_batch(&config(), &s("owner"), None), Err(ContractError::PoolNotDefunct)));
    let mut batch = start_refund_batch(&config(), &s("owner"), Some(defunct)).unwrap();
    assert!(check_not_refunded(&batch, &s("alice"), false).is_ok());
    refund_user(&mut batch, &s("alice"), 10).unwrap();
    assert!(matches!(check_not_refunded(&batch, &s("alice"), false), Err(ContractError::UserAlreadyRefunded)));
    assert!(matches!(check_not_refunded(&batch, &s("bob"), true), Err(ContractError::UserAlreadyRefunded)));
    refund_user(&mut batch, &s("carol"), 0).unwrap();
    let (record, users, msgs) = finish_refund_batch(batch);
    assert_eq!(record.total_refunded_lp_tokens, 10);
    assert_eq!(users, vec![s("alice")]);
    assert_eq!(transfer(&msgs[0]), (s("uusd"), s("alice"), 100));
}

#[test]
fn active_reward_schedules_block_defunct() {
    let staking = AutoStakeImpl::Multistaking { contract_addr: s("staking") };
    let schedules = vec![RewardSchedule { start_block_time: 10, end_block_time: 20 }];
    assert!(matches!(validate_no_active_reward_schedules(&staking, &schedules, 15), Err(ContractError::PoolHasActiveRewardSchedules)));
    assert!(validate_no_active_reward_schedules(&staking, &schedules, 20).is_ok());
    assert!(validate_no_active_reward_schedules(&AutoStakeImpl::Disabled, &schedules, 15).is_ok());
}

#[test]
fn defunct_pool_records_state() {
    let staking_cfg = config();
    let quiet = vec![RewardSchedule { start_block_time: 10, end_block_time: 20 }];
    let assets = vec![asset(native("uusd"), 500)];
    let rec = execute_defunct_pool(&staking_cfg, &s("friend"), false, Some(pool()), &quiet, assets.clone(), 50, 30).unwrap();
    assert_eq!(rec.pool_id, 1);
    assert_eq!(rec.lp_token_addr, s("lp"));
    assert_eq!(rec.total_lp_supply_at_defunct, 50);
    assert_eq!(rec.defunct_timestamp, 30);
    assert_eq!(rec.total_refunded_lp_tokens, 0);
    assert_eq!(rec.total_assets_at_defunct[0].amount, 500);
    assert!(matches!(execute_defunct_pool(&staking_cfg, &s("user"), false, Some(pool()), &quiet, assets.clone(), 50, 30), Err(ContractError::Unauthorized)));
    assert!(matches!(execute_defunct_pool(&staking_cfg, &s("owner"), true, Some(pool()), &quiet, assets.clone(), 50, 30), Err(ContractError::PoolAlreadyDefunct)));
    assert!(matches!(execute_defunct_pool(&staking_cfg, &s("owner"), false, None, &quiet, assets.clone(), 50, 30), Err(ContractError::InvalidPoolId)));
    assert!(matches!(execute_defunct_pool(&staking_cfg, &s("owner"), false, Some(pool()), &quiet, assets.clone(), 50, 15), Err(ContractError::PoolHasActiveRewardSchedules)));
}

#[test]
fn refund_batch_pays_each_user_once() {
    let defunct = build_defunct_pool_info(&pool(), vec![asset(native("uusd"), 1000), asset(token("cw20a"), 10)], 100, 55);
    let users = vec![s("alice"), s("bob"), s("carol")];
    let (rec, refunded, msgs) = execute_process_refund_batch(&config(), &s("owner"), Some(defunct.clone()), &users, &vec![false, false, false], &vec![10, 0, 50]).unwrap();
    assert_eq!(rec.total_refunded_lp_tokens, 60);
    assert_eq!(refunded, vec![s("alice"), s("carol")]);
    assert_eq!(msgs.len(), 4);
    assert_eq!(transfer(&msgs[0]), (s("uusd"), s("alice"), 100));
    assert_eq!(transfer(&msgs[1]), (s("cw20a"), s("alice"), 1));
    assert_eq!(transfer(&msgs[2]), (s("uusd"), s("carol"), 500));
    assert_eq!(transfer(&msgs[3]), (s("cw20a"), s("carol"), 5));
    let twice = vec![s("alice"), s("alice")];
    assert!(matches!(execute_process_refund_batch(&config(), &s("owner"), Some(defunct.clone()), &twice, &vec![false, false], &vec![10, 10]), Err(ContractError::UserAlreadyRefunded)));
    assert!(matches!(execute_process_refund_batch(&config(), &s("owner"), Some(defunct.clone()), &users, &vec![false, true, false], &vec![10, 5, 5]), Err(ContractError::UserAlreadyRefunded)));
    assert!(matches!(execute_process_refund_batch(&config(), &s("user"), Some(defunct.clone()), &users, &vec![false, false, false], &vec![1, 1, 1]), Err(ContractError::Unauthorized)));
    assert!(matches!(execute_process_refund_batch(&config(), &s("owner"), None, &users, &vec![false, false, false], &vec![1, 1, 1]), Err(ContractError::PoolNotDefunct)));
}

#[test]
fn swap_without_fee_charges_none() {
    let answer = SwapResponse {
        trade_params: Trade { amount_in: 100, amount_out: 90, spread: 1 },
        response: PoolResponse::Success,
        fee: None,
    };
    let funds = vec![Coin { denom: s("uusd"), amount: 100 }];
    let (assets, msgs) = execute_swap(&config(), &pool(), &swap_request(100), &answer, None, None, &s("user"), &s("bob"), &s("vault"), &funds).unwrap();
    assert_eq!(assets[1].amount, 2100);
    assert_eq!(assets[0].amount, 910);
    assert_eq!(msgs.len(), 2);
    assert_eq!(transfer(&msgs[0]), (s("cw20a"), s("bob"), 90));
    assert!(matches!(&msgs[1], VaultMsg::UpdateLiquidity { .. }));
}

#[test]
fn join_returns_unused_coins() {
    let answer = AfterJoinResponse {
        provided_assets: vec![asset(token("cw20a"), 100), asset(native("uusd"), 0)],
        new_shares: 50,
        response: PoolResponse::Success,
        fee: None,
    };
    let funds = vec![Coin { denom: s("uusd"), amount: 30 }, Coin { denom: s("uatom"), amount: 7 }];
    let (assets, msgs) = execute_join_pool(&config(), &pool(), &answer, None, None, &s("user"), &s("user"), &s("vault"), &funds).unwrap();
    assert_eq!(assets[1].amount, 2000);
    assert!(matches!(&msgs[0], VaultMsg::TransferFromUser { amount: 100, .. }));
    assert_eq!(transfer(&msgs[1]), (s("uusd"), s("user"), 30));
    assert_eq!(transfer(&msgs[2]), (s("uatom"), s("user"), 7));
    assert!(matches!(&msgs[3], VaultMsg::UpdateLiquidity { .. }));
    assert!(matches!(&msgs[4], VaultMsg::Mint { amount: 50, .. }));
}

fn pair_pool(assets: Vec<Asset>) -> PoolInfo {
    PoolInfo {
        pool_id: 1,
        pool_addr: s("pool"),
        lp_token_addr: s("liquidity0000"),
        fee_info: FeeInfo { total_fee_bps: 30, protocol_fee_percent: 50 },
        assets,
        pool_type: s("stable"),
        paused: PauseInfo::none(),
    }
}

#[test]
fn provide_liquidity() {
    let e18: u128 = 1_000_000_000_000_000_000;
    let pool = pair_pool(vec![asset(token("asset0000"), 0), asset(native("uusd"), 0)]);
    let answer = AfterJoinResponse {
        provided_assets: vec![asset(token("asset0000"), 100 * e18), asset(native("uusd"), 100 * e18)],
        new_shares: 100 * e18,
        response: PoolResponse::Success,
        fee: None,
    };
    let funds = vec![Coin { denom: s("uusd"), amount: 100 * e18 }];
    let (assets, msgs) = execute_join_pool(&config(), &pool, &answer, None, None, &s("addr0000"), &s("addr0000"), &s("cosmos2contract"), &funds).unwrap();
    match &msgs[0] {
        VaultMsg::TransferFromUser { token, owner, recipient, amount } => {
            assert_eq!((token.as_str(), owner.as_str(), recipient.as_str(), *amount), ("asset0000", "addr0000", "cosmos2contract", 100 * e18));
        },
        _ => panic!("no message"),
    }
    match msgs.last() {
        Some(VaultMsg::Mint { lp_token, recipient, amount }) => {
            assert_eq!((lp_token.as_str(), recipient.as_str(), *amount), ("liquidity0000", "addr0000", 100 * e18));
        },
        _ => panic!("no message"),
    }
    // Provide more liquidity using a 1:2 ratio
    let pool = pair_pool(assets);
    let answer = AfterJoinResponse {
        provided_assets: vec![asset(token("asset0000"), 100 * e18), asset(native("uusd"), 200 * e18)],
        new_shares: 74_981956874579206461,
        response: PoolResponse::Success,
        fee: None,
    };
    let funds = vec![Coin { denom: s("uusd"), amount: 200 * e18 }];
    let (_, msgs) = execute_join_pool(&config(), &pool, &answer, None, None, &s("addr0000"), &s("addr0000"), &s("cosmos2contract"), &funds).unwrap();
    assert!(matches!(&msgs[0], VaultMsg::TransferFromUser { amount, .. } if *amount == 100 * e18));
    assert!(matches!(msgs.last(), Some(VaultMsg::Mint { amount: 74_981956874579206461, .. })));
}

#[test]
fn withdraw_liquidity() {
    let pools = vec![asset(native("uusd"), 100), asset(token("asset0000"), 100)];
    let math = MathConfig { init_amp: 10_000, init_amp_time: 0, next_amp: 10_000, next_amp_time: 0 };
    let answer = query_on_exit_pool(None, Some(100), &pools, &vec![6, 6], &math, 5, 100, 0, 6);
    let exit_type = ExitType::ExactLpBurn { lp_to_burn: 100, min_assets_out: None };
    let (assets, msgs) = execute_exit_pool(&config(), &pair_pool(pools), &answer, &exit_type, 100, &s("addr0000"), &s("addr0000")).unwrap();
    assert_eq!(assets[0].amount, 0);
    assert_eq!(assets[1].amount, 0);
    assert_eq!(transfer(&msgs[0]), (s("uusd"), s("addr0000"), 100));
    assert_eq!(transfer(&msgs[1]), (s("asset0000"), s("addr0000"), 100));
    assert!(matches!(&msgs[2], VaultMsg::Burn { amount: 100, .. }));
}

#[test]
fn refund_batch_overflow_is_detected() {
    let mut defunct = build_defunct_pool_info(&pool(), vec![asset(native("uusd"), 1000)], 100, 55);
    defunct.total_refunded_lp_tokens = u128::MAX - 5;
    let users = vec![s("alice")];
    assert!(refund_batch_fits(&defunct, &users, &vec![false], &vec![3]));
    assert!(!refund_batch_fits(&defunct, &users, &vec![false], &vec![10]));
    // An already refunded user stops the batch before any addition.
    assert!(refund_batch_fits(&defunct, &users, &vec![true], &vec![10]));
}

#[test]
fn later_batch_refuses_earlier_refunds() {
    let defunct = build_defunct_pool_info(&pool(), vec![asset(native("uusd"), 1000)], 100, 55);
    let (rec, refunded, _) = execute_process_refund_batch(&config(), &s("owner"), Some(defunct), &vec![s("alice")], &vec![false], &vec![10]).unwrap();
    assert_eq!(refunded, vec![s("alice")]);
    let again = execute_process_refund_batch(&config(), &s("owner"), Some(rec.clone()), &vec![s("bob"), s("alice")], &vec![false, true], &vec![5, 10]);
    assert!(matches!(again, Err(ContractError::UserAlreadyRefunded)));
    let (_, refunded2, _) = execute_process_refund_batch(&config(), &s("owner"), Some(rec), &vec![s("bob")], &vec![false], &vec![5]).unwrap();
    assert_eq!(refunded2, vec![s("bob")]);
}

#[test]
fn reward_tokens_checked_before_defunct() {
    let denoms: Vec<String> = reward_assets_to_check().iter().map(|a| a.as_str().clone()).collect();
    assert_eq!(denoms, vec![s("uxprt"), s("uatom"), s("uusdc"), s("uosmo")]);
    assert!(reward_assets_to_check().iter().all(|a| a.is_native_token()));
}
