//! Exiting a pool: LP tokens sent to the vault are burnt for the assets that
//! the pool's math decides, within the limits that the user set.
use vstd::prelude::*;
use crate::types::{Asset, AssetInfo, AssetKey};
use crate::precision::FeeInfo;
use crate::vault::state::{
    VaultConfig, PoolInfo, PoolTypeConfig, VaultMsg, MsgView, views, ContractError, Refusal, build_update_pool_state_msg,
};
use crate::vault::join::{PoolResponse, fee_lookup, find_fee};

verus! {

/// How a user exits: burning an exact number of LP tokens (optionally with a
/// minimum of each asset), or taking exact assets out (optionally with a
/// maximum of LP tokens burnt).
#[derive(Clone, Debug)]
pub enum ExitType {
    ExactLpBurn { lp_to_burn: u128, min_assets_out: Option<Vec<Asset>> },
    ExactAssetsOut { assets_out: Vec<Asset>, max_lp_to_burn: Option<u128> },
}

/// A pool's answer to an exit request.
#[derive(Clone, Debug)]
pub struct AfterExitResponse {
    /// The assets to pay out, in the pool's order.
    pub assets_out: Vec<Asset>,
    /// The LP tokens to burn.
    pub burn_shares: u128,
    pub response: PoolResponse,
    /// The fees charged, per token.
    pub fee: Option<Vec<Asset>>,
}

/// The amount given for the token labelled `label`: that of the last entry
/// with that label, if any. Entries are keyed by address or denom alone.
pub open spec fn label_lookup(list: Seq<Asset>, label: Seq<char>) -> Option<nat>
    decreases list.len(),
{
    if list.len() == 0 {
        None
    } else if list.last().info.label() == label {
        Some(list.last().amount as nat)
    } else {
        label_lookup(list.drop_last(), label)
    }
}

/// The amount given for the token labelled `label`, if any.
pub fn find_by_label(list: &Vec<Asset>, label: &String) -> (r: Option<u128>)
    ensures
        match r {
            Some(v) => label_lookup(list@, label@) == Some(v as nat),
            None => label_lookup(list@, label@) is None,
        },
{
    let mut found: Option<u128> = None;
    let mut i: usize = 0;
    while i < list.len()
        invariant
            i <= list.len(),
            match found {
                Some(v) => label_lookup(list@.take(i as int), label@) == Some(v as nat),
                None => label_lookup(list@.take(i as int), label@) is None,
            },
        decreases list.len() - i,
    {
        assert(list@.take(i as int + 1).drop_last() == list@.take(i as int));
        if list[i].info.as_str().eq(label) {
            found = Some(list[i].amount);
        }
        i = i + 1;
    }
    assert(list@.take(list.len() as int) == list@);
    found
}

/// The entries with a positive amount.
pub open spec fn positive(list: Seq<Asset>) -> Seq<Asset> {
    list.filter(|a: Asset| a.amount > 0)
}

/// The checks made before the pool is asked.
pub open spec fn exit_precheck_spec(config: VaultConfig, pool: PoolInfo, pool_type: Option<PoolTypeConfig>, lp_contract: Seq<char>, exit_type: ExitType, lp_received: u128) -> Option<ContractError> {
    match pool_type {
        None => Some(ContractError::NotFound),
        Some(t) => if pool.lp_token_addr@ != lp_contract {
            Some(ContractError::Unauthorized)
        } else {
            match exit_type {
                ExitType::ExactLpBurn { lp_to_burn, min_assets_out } => if lp_to_burn != lp_received {
                    Some(ContractError::ReceivedUnexpectedLpTokens { expected: lp_to_burn, received: lp_received })
                } else if min_assets_out is Some && exists|i: int| 0 <= i < pool.assets@.len()
                    && label_lookup(min_assets_out->Some_0@, (#[trigger] pool.assets@[i]).info.label()) is None {
                    Some(ContractError::MismatchedAssets)
                } else {
                    None
                },
                ExitType::ExactAssetsOut { assets_out, max_lp_to_burn } => if config.paused.imbalanced_withdraw
                    || t.paused.imbalanced_withdraw || pool.paused.imbalanced_withdraw {
                    Some(ContractError::ImbalancedExitPaused)
                } else if max_lp_to_burn is Some && max_lp_to_burn->Some_0 > lp_received {
                    Some(ContractError::ReceivedUnexpectedLpTokens { expected: max_lp_to_burn->Some_0, received: lp_received })
                } else {
                    None
                },
            }
        },
    }
}

/// Checks an exit request before the pool is asked; `lp_contract` is the
/// contract that sent the LP tokens.
#[verifier::loop_isolation(false)]
pub fn exit_precheck(config: &VaultConfig, pool: &PoolInfo, pool_type: &Option<PoolTypeConfig>, lp_contract: &String, exit_type: &ExitType, lp_received: u128) -> (r: Result<(), ContractError>)
    ensures
        match r {
            Ok(_) => exit_precheck_spec(*config, *pool, *pool_type, lp_contract@, *exit_type, lp_received) is None,
            Err(e) => exit_precheck_spec(*config, *pool, *pool_type, lp_contract@, *exit_type, lp_received) == Some(e),
        },
{
    let t = match pool_type {
        None => return Err(ContractError::NotFound),
        Some(t) => t,
    };
    if !pool.lp_token_addr.eq(lp_contract) {
        return Err(ContractError::Unauthorized);
    }
    match exit_type {
        ExitType::ExactLpBurn { lp_to_burn, min_assets_out } => {
            if *lp_to_burn != lp_received {
                return Err(ContractError::ReceivedUnexpectedLpTokens { expected: *lp_to_burn, received: lp_received });
            }
            if let Some(mins) = min_assets_out {
                let mut i: usize = 0;
                while i < pool.assets.len()
                    invariant
                        i <= pool.assets.len(),
                        forall|j: int| 0 <= j < i ==> !(label_lookup(mins@, (#[trigger] pool.assets@[j]).info.label()) is None),
                    decreases pool.assets.len() - i,
                {
                    if find_by_label(mins, pool.assets[i].info.as_str()).is_none() {
                        assert(label_lookup(mins@, pool.assets@[i as int].info.label()) is None);
                        return Err(ContractError::MismatchedAssets);
                    }
                    i = i + 1;
                }
            }
            Ok(())
        },
        ExitType::ExactAssetsOut { assets_out, max_lp_to_burn } => {
            if config.paused.imbalanced_withdraw || t.paused.imbalanced_withdraw || pool.paused.imbalanced_withdraw {
                return Err(ContractError::ImbalancedExitPaused);
            }
            if let Some(m) = max_lp_to_burn {
                if *m > lp_received {
                    return Err(ContractError::ReceivedUnexpectedLpTokens { expected: *m, received: lp_received });
                }
            }
            Ok(())
        },
    }
}

/// The first asset of the answer below the user's minimum for it, checked in order.
pub open spec fn first_below_min(answer: Seq<Asset>, mins: Seq<Asset>, i: nat) -> Option<Refusal>
    decreases answer.len() - i,
{
    if i >= answer.len() {
        None
    } else {
        let a = answer[i as int];
        match label_lookup(mins, a.info.label()) {
            None => Some(Refusal::Panic),
            Some(m) => if (a.amount as nat) < m {
                Some(Refusal::Error(ContractError::MinAssetOutError { return_amount: a.amount, min_receive: m as u128, asset_info: a.info }))
            } else {
                first_below_min(answer, mins, i + 1)
            },
        }
    }
}

/// The first asset of the answer whose amount differs from what the user asked for.
pub open spec fn first_mismatch(answer: Seq<Asset>, asked: Seq<Asset>, i: nat) -> bool
    decreases answer.len() - i,
{
    if i >= answer.len() {
        false
    } else {
        let want = match label_lookup(positive(asked), answer[i as int].info.label()) { Some(v) => v, None => 0 };
        if answer[i as int].amount as nat != want {
            true
        } else {
            first_mismatch(answer, asked, i + 1)
        }
    }
}

/// The checks of the pool's answer against the request.
pub open spec fn exit_answer_check(pool: PoolInfo, answer: AfterExitResponse, exit_type: ExitType) -> Option<Refusal> {
    match answer.response {
        PoolResponse::Failure(s) => Some(Refusal::Error(ContractError::PoolQueryFailed { error: s })),
        PoolResponse::Success => if answer.assets_out@.len() != pool.assets@.len() {
            Some(Refusal::Error(ContractError::InvalidNumberOfAssets))
        } else if answer.burn_shares == 0 {
            Some(Refusal::Error(ContractError::BurnAmountZero))
        } else {
            match exit_type {
                ExitType::ExactLpBurn { lp_to_burn, min_assets_out } => if answer.burn_shares != lp_to_burn {
                    Some(Refusal::Error(ContractError::PoolExitTransitionLpToBurnMismatch { expected_to_burn: lp_to_burn, actual_burn: answer.burn_shares }))
                } else {
                    match min_assets_out {
                        None => None,
                        Some(mins) => first_below_min(answer.assets_out@, mins@, 0),
                    }
                },
                ExitType::ExactAssetsOut { assets_out, max_lp_to_burn } => if first_mismatch(answer.assets_out@, assets_out@, 0) {
                    Some(Refusal::Error(ContractError::PoolExitTransitionAssetsOutMismatch { expected_assets_out: assets_out, actual_assets_out: answer.assets_out }))
                } else if max_lp_to_burn is Some && answer.burn_shares > max_lp_to_burn->Some_0 {
                    Some(Refusal::Error(ContractError::MaxLpToBurnError { burn_amount: answer.burn_shares, max_lp_to_burn: max_lp_to_burn->Some_0 }))
                } else {
                    None
                },
            }
        },
    }
}

/// An error returned agrees with the one expected: equal, with lists of
/// assets compared by their entries.
pub open spec fn error_agrees(expected: ContractError, e: ContractError) -> bool {
    match (expected, e) {
        (
            ContractError::PoolExitTransitionAssetsOutMismatch { expected_assets_out: a1, actual_assets_out: b1 },
            ContractError::PoolExitTransitionAssetsOutMismatch { expected_assets_out: a2, actual_assets_out: b2 },
        ) => a1@ == a2@ && b1@ == b2@,
        _ => expected == e,
    }
}

/// The protocol's part of a fee in an exit: nothing when there is no fee or no collector.
pub open spec fn exit_protocol_fee(total_fee: nat, fee_info: FeeInfo, collector: Option<String>) -> nat {
    if total_fee != 0 && collector is Some {
        fee_info.protocol_fee(total_fee as u128)
    } else {
        0
    }
}

/// For one token of the pool: its new balance and the messages. The balance
/// falls by what is paid out plus the protocol fee.
pub open spec fn exit_asset_spec(stored: Asset, out: Asset, total_fee: nat, fee_info: FeeInfo, collector: Option<String>, recipient: String) -> Result<(u128, Seq<MsgView>), Refusal> {
    if stored.info@ != out.info@ {
        Err(Refusal::Error(ContractError::InvalidSequenceOfAssets))
    } else {
        let t = out.amount;
        let pf = exit_protocol_fee(total_fee, fee_info, collector);
        if t == 0 && total_fee == 0 {
            Ok((stored.amount, seq![]))
        } else if t + pf > u128::MAX {
            Err(Refusal::Panic)
        } else if stored.amount < t + pf {
            Err(Refusal::Error(ContractError::Overflow))
        } else {
            let pay = if t != 0 { seq![MsgView::Transfer { info: stored.info, recipient, amount: t }] } else { seq![] };
            let fee = if pf != 0 { seq![MsgView::Transfer { info: stored.info, recipient: collector->Some_0, amount: pf as u128 }] } else { seq![] };
            Ok(((stored.amount - t - pf) as u128, pay + fee))
        }
    }
}

pub open spec fn exit_fold(pool_assets: Seq<Asset>, out: Seq<Asset>, fees: Seq<Asset>, fee_info: FeeInfo, collector: Option<String>, recipient: String, i: nat) -> Result<(Seq<Asset>, Seq<MsgView>), Refusal>
    decreases i,
{
    if i == 0 {
        Ok((seq![], seq![]))
    } else {
        match exit_fold(pool_assets, out, fees, fee_info, collector, recipient, (i - 1) as nat) {
            Err(e) => Err(e),
            Ok((assets, msgs)) => {
                let s = pool_assets[i - 1];
                match exit_asset_spec(s, out[i - 1], fee_lookup(fees, s.info@), fee_info, collector, recipient) {
                    Err(e) => Err(e),
                    Ok((amount, m)) => Ok((assets.push(Asset { info: s.info, amount }), msgs + m)),
                }
            },
        }
    }
}

pub proof fn lemma_exit_fold_err(pool_assets: Seq<Asset>, out: Seq<Asset>, fees: Seq<Asset>, fee_info: FeeInfo, collector: Option<String>, recipient: String, i: nat, j: nat)
    requires
        i <= j,
        exit_fold(pool_assets, out, fees, fee_info, collector, recipient, i) is Err,
    ensures
        exit_fold(pool_assets, out, fees, fee_info, collector, recipient, j) == exit_fold(pool_assets, out, fees, fee_info, collector, recipient, i),
    decreases j - i,
{
    if i < j {
        lemma_exit_fold_err(pool_assets, out, fees, fee_info, collector, recipient, i, (j - 1) as nat);
    }
}

/// The pool's new balances and the messages of an exit, or why it is refused:
/// the answer is checked, the assets are paid out, the burnt LP tokens are
/// burnt and any LP tokens beyond them go back to `user`.
pub open spec fn exit_spec(config: VaultConfig, pool: PoolInfo, answer: AfterExitResponse, exit_type: ExitType, lp_received: u128, recipient: String, user: String) -> Result<(Seq<Asset>, Seq<MsgView>), Refusal> {
    match exit_answer_check(pool, answer, exit_type) {
        Some(r) => Err(r),
        None => if lp_received < answer.burn_shares {
            Err(Refusal::Error(ContractError::InsufficientLpTokensToExit))
        } else {
            let fees = match answer.fee { Some(f) => f@, None => seq![] };
            match exit_fold(pool.assets@, answer.assets_out@, fees, pool.fee_info, config.fee_collector, recipient, pool.assets@.len()) {
                Err(e) => Err(e),
                Ok((assets, msgs)) => {
                    let back = (lp_received - answer.burn_shares) as u128;
                    let burn = seq![MsgView::Burn { lp_token: pool.lp_token_addr, amount: answer.burn_shares }];
                    let ret = if back != 0 {
                        seq![MsgView::Transfer { info: AssetInfo::Token { contract_addr: pool.lp_token_addr }, recipient: user, amount: back }]
                    } else {
                        seq![]
                    };
                    Ok((assets, msgs + burn + ret + seq![MsgView::UpdateLiquidity { pool_addr: pool.pool_addr, assets }]))
                },
            }
        },
    }
}

fn check_mins(answer: &Vec<Asset>, mins: &Vec<Asset>) -> (r: Result<(), ContractError>)
    requires
        !(first_below_min(answer@, mins@, 0) matches Some(Refusal::Panic)),
    ensures
        match r {
            Ok(_) => first_below_min(answer@, mins@, 0) is None,
            Err(e) => first_below_min(answer@, mins@, 0) == Some(Refusal::Error(e)),
        },
{
    let mut i: usize = 0;
    while i < answer.len()
        invariant
            i <= answer.len(),
            first_below_min(answer@, mins@, i as nat) == first_below_min(answer@, mins@, 0),
            !(first_below_min(answer@, mins@, 0) matches Some(Refusal::Panic)),
        decreases answer.len() - i,
    {
        let a = &answer[i];
        match find_by_label(mins, a.info.as_str()) {
            None => {
                assert(false);
                return Ok(());
            },
            Some(m) => {
                if a.amount < m {
                    return Err(ContractError::MinAssetOutError { return_amount: a.amount, min_receive: m, asset_info: a.info.copy() });
                }
            },
        }
        i = i + 1;
    }
    Ok(())
}

/// The entries with a positive amount.
fn keep_positive(list: &Vec<Asset>) -> (r: Vec<Asset>)
    ensures
        r@ == positive(list@),
{
    let mut r: Vec<Asset> = Vec::new();
    let mut i: usize = 0;
    while i < list.len()
        invariant
            i <= list.len(),
            r@ == positive(list@.take(i as int)),
        decreases list.len() - i,
    {
        assert(list@.take(i as int + 1).drop_last() == list@.take(i as int));
        reveal_with_fuel(Seq::filter, 1);
        if list[i].amount > 0 {
            r.push(list[i].copy());
        }
        i = i + 1;
    }
    assert(list@.take(list.len() as int) == list@);
    r
}

fn has_mismatch(answer: &Vec<Asset>, asked: &Vec<Asset>) -> (r: bool)
    ensures
        r == first_mismatch(answer@, asked@, 0),
{
    let pos = keep_positive(asked);
    let mut i: usize = 0;
    while i < answer.len()
        invariant
            i <= answer.len(),
            pos@ == positive(asked@),
            first_mismatch(answer@, asked@, i as nat) == first_mismatch(answer@, asked@, 0),
        decreases answer.len() - i,
    {
        let want: u128 = match find_by_label(&pos, answer[i].info.as_str()) {
            Some(v) => v,
            None => 0,
        };
        assert(want == (match label_lookup(positive(asked@), answer@[i as int].info.label()) { Some(v) => v, None => 0 }));
        if answer[i].amount != want {
            return true;
        }
        i = i + 1;
    }
    false
}

fn copy_asset_list(list: &Vec<Asset>) -> (r: Vec<Asset>)
    ensures
        r@ == list@,
{
    crate::vault::state::copy_assets(list)
}

fn check_answer(pool: &PoolInfo, answer: &AfterExitResponse, exit_type: &ExitType) -> (r: Result<(), ContractError>)
    requires
        !(exit_answer_check(*pool, *answer, *exit_type) matches Some(Refusal::Panic)),
    ensures
        match r {
            Ok(_) => exit_answer_check(*pool, *answer, *exit_type) is None,
            Err(e) => exit_answer_check(*pool, *answer, *exit_type) matches Some(Refusal::Error(x)) && error_agrees(x, e),
        },
{
    match &answer.response {
        PoolResponse::Failure(s) => return Err(ContractError::PoolQueryFailed { error: s.clone() }),
        PoolResponse::Success => {},
    }
    if answer.assets_out.len() != pool.assets.len() {
        return Err(ContractError::InvalidNumberOfAssets);
    }
    if answer.burn_shares == 0 {
        return Err(ContractError::BurnAmountZero);
    }
    match exit_type {
        ExitType::ExactLpBurn { lp_to_burn, min_assets_out } => {
            if answer.burn_shares != *lp_to_burn {
                return Err(ContractError::PoolExitTransitionLpToBurnMismatch { expected_to_burn: *lp_to_burn, actual_burn: answer.burn_shares });
            }
            match min_assets_out {
                None => Ok(()),
                Some(mins) => check_mins(&answer.assets_out, mins),
            }
        },
        ExitType::ExactAssetsOut { assets_out, max_lp_to_burn } => {
            if has_mismatch(&answer.assets_out, assets_out) {
                return Err(ContractError::PoolExitTransitionAssetsOutMismatch {
                    expected_assets_out: copy_asset_list(assets_out),
                    actual_assets_out: copy_asset_list(&answer.assets_out),
                });
            }
            if let Some(m) = max_lp_to_burn {
                if answer.burn_shares > *m {
                    return Err(ContractError::MaxLpToBurnError { burn_amount: answer.burn_shares, max_lp_to_burn: *m });
                }
            }
            Ok(())
        },
    }
}

fn exit_one(stored: &Asset, out: &Asset, total_fee: u128, fee_info: &FeeInfo, collector: &Option<String>, recipient: &String) -> (r: Result<(u128, Vec<VaultMsg>), ContractError>)
    requires
        fee_info.is_valid(),
        !(exit_asset_spec(*stored, *out, total_fee as nat, *fee_info, *collector, *recipient) matches Err(Refusal::Panic)),
    ensures
        match r {
            Ok((a, m)) => exit_asset_spec(*stored, *out, total_fee as nat, *fee_info, *collector, *recipient)
                == Ok::<(u128, Seq<MsgView>), Refusal>((a, views(m@))),
            Err(e) => exit_asset_spec(*stored, *out, total_fee as nat, *fee_info, *collector, *recipient)
                == Err::<(u128, Seq<MsgView>), Refusal>(Refusal::Error(e)),
        },
{
    if !stored.info.same(&out.info) {
        return Err(ContractError::InvalidSequenceOfAssets);
    }
    let to_transfer = out.amount;
    let mut protocol_fee: u128 = 0;
    if total_fee != 0 && collector.is_some() {
        protocol_fee = fee_info.calculate_total_fee_breakup(total_fee);
    }
    let mut msgs: Vec<VaultMsg> = Vec::new();
    if to_transfer == 0 && total_fee == 0 {
        assert(views(msgs@) =~= Seq::<MsgView>::empty());
        return Ok((stored.amount, msgs));
    }
    let withdrawn = to_transfer + protocol_fee;
    let amount = match stored.amount.checked_sub(withdrawn) {
        Some(x) => x,
        None => return Err(ContractError::Overflow),
    };
    if to_transfer != 0 {
        msgs.push(VaultMsg::Transfer { info: stored.info.copy(), recipient: recipient.clone(), amount: to_transfer });
    }
    let ghost pay = views(msgs@);
    assert(to_transfer != 0 ==> pay =~= seq![MsgView::Transfer { info: stored.info, recipient: *recipient, amount: to_transfer }]);
    assert(to_transfer == 0 ==> pay =~= Seq::<MsgView>::empty());
    if protocol_fee != 0 {
        let c = match collector {
            Some(c) => c.clone(),
            None => { proof { assert(false); } String::new() },
        };
        msgs.push(VaultMsg::Transfer { info: stored.info.copy(), recipient: c, amount: protocol_fee });
        assert(views(msgs@) =~= pay + seq![MsgView::Transfer { info: stored.info, recipient: collector->Some_0, amount: protocol_fee }]);
    } else {
        assert(views(msgs@) =~= pay + Seq::<MsgView>::empty());
    }
    Ok((amount, msgs))
}

/// Applies a pool's answer to an exit request: `lp_received` LP tokens were
/// sent by `user`; assets go to `recipient`. Returns the pool's new balances
/// and the messages to run.
pub fn execute_exit_pool(
    config: &VaultConfig,
    pool: &PoolInfo,
    answer: &AfterExitResponse,
    exit_type: &ExitType,
    lp_received: u128,
    recipient: &String,
    user: &String,
) -> (r: Result<(Vec<Asset>, Vec<VaultMsg>), ContractError>)
    requires
        pool.wf(),
        !(exit_spec(*config, *pool, *answer, *exit_type, lp_received, *recipient, *user) matches Err(Refusal::Panic)),
    ensures
        match r {
            Ok((a, m)) => exit_spec(*config, *pool, *answer, *exit_type, lp_received, *recipient, *user)
                == Ok::<(Seq<Asset>, Seq<MsgView>), Refusal>((a@, views(m@))),
            Err(e) => exit_spec(*config, *pool, *answer, *exit_type, lp_received, *recipient, *user)
                matches Err(Refusal::Error(x)) && error_agrees(x, e),
        },
{
    check_answer(pool, answer, exit_type)?;
    if lp_received < answer.burn_shares {
        return Err(ContractError::InsufficientLpTokensToExit);
    }
    let lp_to_return = lp_received - answer.burn_shares;
    let empty: Vec<Asset> = Vec::new();
    let fees: &Vec<Asset> = match &answer.fee {
        Some(f) => f,
        None => &empty,
    };
    let ghost gfees = fees@;
    assert(gfees == (match answer.fee { Some(f) => f@, None => Seq::<Asset>::empty() }));
    let ghost final_fold = exit_fold(pool.assets@, answer.assets_out@, gfees, pool.fee_info, config.fee_collector, *recipient, pool.assets@.len());
    let mut assets: Vec<Asset> = Vec::new();
    let mut msgs: Vec<VaultMsg> = Vec::new();
    assert(views(msgs@) =~= Seq::<MsgView>::empty());
    assert(assets@ =~= Seq::<Asset>::empty());
    let mut i: usize = 0;
    while i < pool.assets.len()
        invariant
            i <= pool.assets.len(),
            answer.assets_out@.len() == pool.assets@.len(),
            pool.wf(),
            fees@ == gfees,
            exit_answer_check(*pool, *answer, *exit_type) is None,
            lp_received >= answer.burn_shares,
            gfees == (match answer.fee { Some(f) => f@, None => Seq::<Asset>::empty() }),
            final_fold == exit_fold(pool.assets@, answer.assets_out@, gfees, pool.fee_info, config.fee_collector, *recipient, pool.assets@.len()),
            !(final_fold matches Err(Refusal::Panic)),
            exit_fold(pool.assets@, answer.assets_out@, gfees, pool.fee_info, config.fee_collector, *recipient, i as nat)
                == Ok::<(Seq<Asset>, Seq<MsgView>), Refusal>((assets@, views(msgs@))),
        decreases pool.assets.len() - i,
    {
        let stored = &pool.assets[i];
        let out = &answer.assets_out[i];
        let total_fee = find_fee(fees, &stored.info);
        let ghost prev_msgs = views(msgs@);
        proof {
            if exit_asset_spec(*stored, *out, total_fee as nat, pool.fee_info, config.fee_collector, *recipient) is Err {
                lemma_exit_fold_err(pool.assets@, answer.assets_out@, gfees, pool.fee_info, config.fee_collector, *recipient, i as nat + 1, pool.assets@.len());
            }
        }
        match exit_one(stored, out, total_fee, &pool.fee_info, &config.fee_collector, recipient) {
            Err(e) => {
                return Err(e);
            },
            Ok((amount, mut m)) => {
                let ghost mv = views(m@);
                msgs.append(&mut m);
                assert(views(msgs@) =~= prev_msgs + mv);
                assets.push(Asset { info: stored.info.copy(), amount });
            },
        }
        i = i + 1;
    }
    let ghost folded = views(msgs@);
    msgs.push(VaultMsg::Burn { lp_token: pool.lp_token_addr.clone(), amount: answer.burn_shares });
    let ghost with_burn = views(msgs@);
    assert(with_burn =~= folded + seq![MsgView::Burn { lp_token: pool.lp_token_addr, amount: answer.burn_shares }]);
    if lp_to_return != 0 {
        msgs.push(VaultMsg::Transfer {
            info: AssetInfo::Token { contract_addr: pool.lp_token_addr.clone() },
            recipient: user.clone(),
            amount: lp_to_return,
        });
        assert(views(msgs@) =~= with_burn + seq![MsgView::Transfer { info: AssetInfo::Token { contract_addr: pool.lp_token_addr }, recipient: *user, amount: lp_to_return }]);
    } else {
        assert(views(msgs@) =~= with_burn + Seq::<MsgView>::empty());
    }
    let ghost with_ret = views(msgs@);
    let update = build_update_pool_state_msg(&pool.pool_addr, &assets);
    msgs.push(update);
    assert(views(msgs@) =~= with_ret + seq![MsgView::UpdateLiquidity { pool_addr: pool.pool_addr, assets: assets@ }]);
    Ok((assets, msgs))
}


/// The balance a pool books for a token after an exit: what it held, less
/// what is paid out and the protocol's part of the fee charged in it.
pub open spec fn exited_balance(stored: Asset, out: Asset, fees: Seq<Asset>, fee_info: FeeInfo, collector: Option<String>) -> int {
    stored.amount - out.amount - exit_protocol_fee(fee_lookup(fees, stored.info@), fee_info, collector)
}

proof fn lemma_exit_fold_balances(pool_assets: Seq<Asset>, out: Seq<Asset>, fees: Seq<Asset>, fee_info: FeeInfo, collector: Option<String>, recipient: String, i: nat)
    requires
        i <= pool_assets.len(),
        exit_fold(pool_assets, out, fees, fee_info, collector, recipient, i) is Ok,
    ensures
        ({
            let assets = exit_fold(pool_assets, out, fees, fee_info, collector, recipient, i)->Ok_0.0;
            &&& assets.len() == i
            &&& forall|k: int| 0 <= k < i ==> (#[trigger] assets[k]).info == pool_assets[k].info
                && assets[k].amount == exited_balance(pool_assets[k], out[k], fees, fee_info, collector)
        }),
    decreases i,
{
    if i > 0 {
        if exit_fold(pool_assets, out, fees, fee_info, collector, recipient, (i - 1) as nat) is Err {
            assert(false);
        }
        lemma_exit_fold_balances(pool_assets, out, fees, fee_info, collector, recipient, (i - 1) as nat);
    }
}

/// An exit books, for every token of the pool, what it held less what is
/// paid out and the protocol's part of the fee charged in that token; exactly
/// the LP tokens the pool asked for are burnt, and the rest sent back.
pub proof fn law_exit_books_withdrawals(
    config: VaultConfig,
    pool: PoolInfo,
    answer: AfterExitResponse,
    exit_type: ExitType,
    lp_received: u128,
    recipient: String,
    user: String,
)
    requires
        exit_spec(config, pool, answer, exit_type, lp_received, recipient, user) is Ok,
    ensures
        ({
            let assets = exit_spec(config, pool, answer, exit_type, lp_received, recipient, user)->Ok_0.0;
            let fees = match answer.fee { Some(f) => f@, None => seq![] };
            &&& assets.len() == pool.assets@.len()
            &&& forall|k: int| 0 <= k < assets.len() ==> (#[trigger] assets[k]).info == pool.assets@[k].info
                && assets[k].amount == exited_balance(pool.assets@[k], answer.assets_out@[k], fees, pool.fee_info, config.fee_collector)
            &&& answer.burn_shares <= lp_received
        }),
{
    let fees = match answer.fee { Some(f) => f@, None => seq![] };
    lemma_exit_fold_balances(pool.assets@, answer.assets_out@, fees, pool.fee_info, config.fee_collector, recipient, pool.assets@.len());
}
} // verus!
