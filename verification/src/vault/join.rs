//! Joining a pool: the vault checks the pool's answer to a join request and
//! decides the balance updates, the token transfers, and the LP tokens minted.
use vstd::prelude::*;
use crate::types::{Asset, AssetInfo, AssetKey, Coin, sent_amount, find_sent_native_token_balance};
use crate::precision::FeeInfo;
use crate::vault::state::{
    VaultConfig, PoolInfo, PoolTypeConfig, PauseInfo, AutoStakeImpl, VaultMsg, MsgView, views, ContractError,
    build_update_pool_state_msg, build_mint_lp_token_msg, mint_msgs_spec,
};

verus! {

/// Whether a pool accepted a request.
#[derive(Clone, Debug)]
pub enum PoolResponse {
    Success,
    Failure(String),
}

/// A pool's answer to a join request.
#[derive(Clone, Debug)]
pub struct AfterJoinResponse {
    /// The assets the user provides, in the pool's order.
    pub provided_assets: Vec<Asset>,
    /// The LP tokens to mint.
    pub new_shares: u128,
    pub response: PoolResponse,
    /// The fees charged, per token.
    pub fee: Option<Vec<Asset>>,
}

/// The fee charged in token `key`: the amount of the last entry for it, or zero.
pub open spec fn fee_lookup(fees: Seq<Asset>, key: AssetKey) -> nat
    decreases fees.len(),
{
    if fees.len() == 0 {
        0
    } else if fees.last().info@ == key {
        fees.last().amount as nat
    } else {
        fee_lookup(fees.drop_last(), key)
    }
}

/// The fee charged in token `info`.
pub fn find_fee(fees: &Vec<Asset>, info: &AssetInfo) -> (r: u128)
    ensures
        r == fee_lookup(fees@, info@),
{
    let mut found: u128 = 0;
    let mut i: usize = 0;
    while i < fees.len()
        invariant
            i <= fees.len(),
            found == fee_lookup(fees@.take(i as int), info@),
        decreases fees.len() - i,
    {
        assert(fees@.take(i as int + 1).drop_last() == fees@.take(i as int));
        if fees[i].info.same(info) {
            found = fees[i].amount;
        }
        i = i + 1;
    }
    assert(fees@.take(fees.len() as int) == fees@);
    found
}

/// The checks made before the pool is asked: deposits must not be paused at
/// any level, and auto-staking must be available when requested.
pub open spec fn join_precheck_spec(config: VaultConfig, pool: PoolInfo, pool_type: Option<PoolTypeConfig>, auto_stake: Option<bool>) -> Option<ContractError> {
    match pool_type {
        None => Some(ContractError::NotFound),
        Some(t) => if config.paused.deposit || t.paused.deposit || pool.paused.deposit {
            Some(ContractError::PausedDeposit)
        } else if auto_stake == Some(true) && config.auto_stake_impl is Disabled {
            Some(ContractError::AutoStakeDisabled)
        } else {
            None
        },
    }
}

/// Checks that a pool may be joined now.
pub fn join_precheck(config: &VaultConfig, pool: &PoolInfo, pool_type: &Option<PoolTypeConfig>, auto_stake: Option<bool>) -> (r: Result<(), ContractError>)
    ensures
        match r {
            Ok(_) => join_precheck_spec(*config, *pool, *pool_type, auto_stake) is None,
            Err(e) => join_precheck_spec(*config, *pool, *pool_type, auto_stake) == Some(e),
        },
{
    match pool_type {
        None => Err(ContractError::NotFound),
        Some(t) => {
            if config.paused.deposit || t.paused.deposit || pool.paused.deposit {
                return Err(ContractError::PausedDeposit);
            }
            if auto_stake == Some(true) {
                if let AutoStakeImpl::Disabled = config.auto_stake_impl {
                    return Err(ContractError::AutoStakeDisabled);
                }
            }
            Ok(())
        },
    }
}

/// The protocol's part of the fee `total_fee` charged in a token: nothing when
/// there is no fee or no collector.
pub open spec fn join_protocol_fee(total_fee: nat, fee_info: FeeInfo, collector: Option<String>) -> nat {
    if total_fee == 0 || collector is None {
        0
    } else {
        fee_info.protocol_fee(total_fee as u128)
    }
}

/// For one token of the pool: its new balance and the messages, or why the join is refused.
/// The balance grows by what the user provides less the protocol fee; a CW20
/// is pulled from the user, a native token must have been sent (any excess is
/// returned, all of it when nothing is provided); the protocol fee goes to the
/// collector.
pub open spec fn join_asset_spec(stored: Asset, provided: Asset, total_fee: nat, fee_info: FeeInfo, collector: Option<String>, sender: String, vault: String, funds: Seq<Coin>) -> Result<(u128, Seq<MsgView>), ContractError> {
    if stored.info@ != provided.info@ {
        Err(ContractError::InvalidSequenceOfAssets)
    } else {
        let t = provided.amount;
        let pf = join_protocol_fee(total_fee, fee_info, collector);
        let fee_msgs = if pf != 0 {
            seq![MsgView::Transfer { info: stored.info, recipient: collector->Some_0, amount: pf as u128 }]
        } else {
            seq![]
        };
        if t == 0 && total_fee == 0 {
            let received = sent_amount(funds, stored.info.label());
            if stored.info.is_native() && received > 0 {
                Ok((stored.amount, seq![MsgView::Transfer { info: stored.info, recipient: sender, amount: received as u128 }]))
            } else {
                Ok((stored.amount, fee_msgs))
            }
        } else if stored.amount + t > u128::MAX || stored.amount + t < pf {
            Err(ContractError::Overflow)
        } else {
            let amount = (stored.amount + t - pf) as u128;
            if !stored.info.is_native() {
                let pull = if t != 0 {
                    seq![MsgView::TransferFromUser { token: stored.info.label_string(), owner: sender, recipient: vault, amount: t }]
                } else {
                    seq![]
                };
                Ok((amount, pull + fee_msgs))
            } else {
                let received = sent_amount(funds, stored.info.label());
                if received > t {
                    Ok((amount, seq![MsgView::Transfer { info: stored.info, recipient: sender, amount: (received - t) as u128 }] + fee_msgs))
                } else if received < t {
                    Err(ContractError::InsufficientNativeTokensSent { denom: stored.info.label_string(), sent: received as u128, needed: t })
                } else {
                    Ok((amount, fee_msgs))
                }
            }
        }
    }
}

/// The first `i` tokens of the pool processed: their new balances and the messages.
pub open spec fn join_fold(pool_assets: Seq<Asset>, provided: Seq<Asset>, fees: Seq<Asset>, fee_info: FeeInfo, collector: Option<String>, sender: String, vault: String, funds: Seq<Coin>, i: nat) -> Result<(Seq<Asset>, Seq<MsgView>), ContractError>
    decreases i,
{
    if i == 0 {
        Ok((seq![], seq![]))
    } else {
        match join_fold(pool_assets, provided, fees, fee_info, collector, sender, vault, funds, (i - 1) as nat) {
            Err(e) => Err(e),
            Ok((assets, msgs)) => {
                let s = pool_assets[i - 1];
                match join_asset_spec(s, provided[i - 1], fee_lookup(fees, s.info@), fee_info, collector, sender, vault, funds) {
                    Err(e) => Err(e),
                    Ok((amount, m)) => Ok((assets.push(Asset { info: s.info, amount }), msgs + m)),
                }
            },
        }
    }
}

pub proof fn lemma_join_fold_err(pool_assets: Seq<Asset>, provided: Seq<Asset>, fees: Seq<Asset>, fee_info: FeeInfo, collector: Option<String>, sender: String, vault: String, funds: Seq<Coin>, i: nat, j: nat)
    requires
        i <= j,
        join_fold(pool_assets, provided, fees, fee_info, collector, sender, vault, funds, i) is Err,
    ensures
        join_fold(pool_assets, provided, fees, fee_info, collector, sender, vault, funds, j)
            == join_fold(pool_assets, provided, fees, fee_info, collector, sender, vault, funds, i),
    decreases j - i,
{
    if i < j {
        lemma_join_fold_err(pool_assets, provided, fees, fee_info, collector, sender, vault, funds, i, (j - 1) as nat);
    }
}

/// Why a join is refused after the pool answered.
pub enum JoinRefusal {
    Error(ContractError),
    /// The pool would mint no LP tokens.
    NothingToMint,
}

/// Whether `denom` is a native token of the pool.
pub open spec fn is_pool_denom(pool_assets: Seq<Asset>, denom: Seq<char>) -> bool {
    exists|i: int| 0 <= i < pool_assets.len() && (#[trigger] pool_assets[i]).info.is_native() && pool_assets[i].info.label() == denom
}

/// The returns of the first `k` coins sent whose denom is not one of the
/// pool's: each such coin with a positive amount goes back to `sender`.
pub open spec fn foreign_refunds(pool_assets: Seq<Asset>, funds: Seq<Coin>, sender: String, k: nat) -> Seq<MsgView>
    decreases k,
{
    if k == 0 {
        seq![]
    } else {
        let prev = foreign_refunds(pool_assets, funds, sender, (k - 1) as nat);
        let c = funds[k - 1];
        if c.amount == 0 || is_pool_denom(pool_assets, c.denom@) {
            prev
        } else {
            prev.push(MsgView::Transfer { info: AssetInfo::NativeToken { denom: c.denom }, recipient: sender, amount: c.amount })
        }
    }
}

/// The pool's new balances and the messages of a join, or why it is refused.
pub open spec fn join_spec(
    config: VaultConfig,
    pool: PoolInfo,
    answer: AfterJoinResponse,
    min_lp_to_receive: Option<u128>,
    auto_stake: Option<bool>,
    sender: String,
    recipient: String,
    vault: String,
    funds: Seq<Coin>,
) -> Result<(Seq<Asset>, Seq<MsgView>), JoinRefusal> {
    match answer.response {
        PoolResponse::Failure(s) => Err(JoinRefusal::Error(ContractError::PoolQueryFailed { error: s })),
        PoolResponse::Success => if answer.new_shares == 0 {
            Err(JoinRefusal::NothingToMint)
        } else if min_lp_to_receive is Some && answer.new_shares < min_lp_to_receive->Some_0 {
            Err(JoinRefusal::Error(ContractError::MinReceiveError { min_receive: min_lp_to_receive->Some_0, ask_amount: answer.new_shares }))
        } else if answer.provided_assets@.len() != pool.assets@.len() {
            Err(JoinRefusal::Error(ContractError::InvalidNumberOfAssets))
        } else {
            let fees = match answer.fee { Some(f) => f@, None => seq![] };
            match join_fold(pool.assets@, answer.provided_assets@, fees, pool.fee_info, config.fee_collector, sender, vault, funds, pool.assets@.len()) {
                Err(e) => Err(JoinRefusal::Error(e)),
                Ok((assets, msgs)) => match mint_msgs_spec(pool.lp_token_addr, recipient, answer.new_shares, auto_stake == Some(true), config.auto_stake_impl, vault) {
                    Err(e) => Err(JoinRefusal::Error(e)),
                    Ok(mint) => Ok((assets, (msgs + foreign_refunds(pool.assets@, funds, sender, funds.len()))
                        .push(MsgView::UpdateLiquidity { pool_addr: pool.pool_addr, assets }) + mint)),
                },
            }
        },
    }
}

/// A refusal agrees with the error returned.
pub open spec fn join_refusal_is(refusal: JoinRefusal, e: ContractError) -> bool {
    match refusal {
        JoinRefusal::Error(x) => x == e,
        JoinRefusal::NothingToMint => e matches ContractError::PoolQueryFailed { error } && error@ == "LP tokens to mint cannot be 0"@,
    }
}

/// What follows the fold over the pool's tokens: the state update and the mint.
pub open spec fn join_finish(config: VaultConfig, pool: PoolInfo, new_shares: u128, auto_stake: Option<bool>, recipient: String, vault: String, refunds: Seq<MsgView>, folded: Result<(Seq<Asset>, Seq<MsgView>), ContractError>) -> Result<(Seq<Asset>, Seq<MsgView>), JoinRefusal> {
    match folded {
        Err(e) => Err(JoinRefusal::Error(e)),
        Ok((assets, msgs)) => match mint_msgs_spec(pool.lp_token_addr, recipient, new_shares, auto_stake == Some(true), config.auto_stake_impl, vault) {
            Err(e) => Err(JoinRefusal::Error(e)),
            Ok(mint) => Ok((assets, (msgs + refunds).push(MsgView::UpdateLiquidity { pool_addr: pool.pool_addr, assets }) + mint)),
        },
    }
}

/// Processes one token of the pool in a join.
fn join_one(stored: &Asset, provided: &Asset, total_fee: u128, fee_info: &FeeInfo, collector: &Option<String>, sender: &String, vault: &String, funds: &Vec<Coin>) -> (r: Result<(u128, Vec<VaultMsg>), ContractError>)
    requires
        fee_info.is_valid(),
    ensures
        match r {
            Ok((a, m)) => join_asset_spec(*stored, *provided, total_fee as nat, *fee_info, *collector, *sender, *vault, funds@)
                == Ok::<(u128, Seq<MsgView>), ContractError>((a, views(m@))),
            Err(e) => join_asset_spec(*stored, *provided, total_fee as nat, *fee_info, *collector, *sender, *vault, funds@)
                == Err::<(u128, Seq<MsgView>), ContractError>(e),
        },
{
    if !stored.info.same(&provided.info) {
        return Err(ContractError::InvalidSequenceOfAssets);
    }
    let transfer_in = provided.amount;
    let mut protocol_fee: u128 = 0;
    if total_fee != 0 {
        protocol_fee = fee_info.calculate_total_fee_breakup(total_fee);
    }
    if collector.is_none() {
        protocol_fee = 0;
    }
    assert(protocol_fee == join_protocol_fee(total_fee as nat, *fee_info, *collector));
    let mut fee_msgs: Vec<VaultMsg> = Vec::new();
    if protocol_fee != 0 {
        let c = match collector {
            Some(c) => c.clone(),
            None => { proof { assert(false); } String::new() },
        };
        fee_msgs.push(VaultMsg::Transfer { info: stored.info.copy(), recipient: c, amount: protocol_fee });
    }
    let ghost fee_views = views(fee_msgs@);
    assert(protocol_fee != 0 ==> fee_views =~= seq![MsgView::Transfer { info: stored.info, recipient: collector->Some_0, amount: protocol_fee }]);
    assert(protocol_fee == 0 ==> fee_views =~= Seq::<MsgView>::empty());
    if transfer_in == 0 && total_fee == 0 {
        if stored.info.is_native_token() {
            let received = find_sent_native_token_balance(funds, stored.info.as_str());
            if received > 0 {
                let mut back: Vec<VaultMsg> = Vec::new();
                back.push(VaultMsg::Transfer { info: stored.info.copy(), recipient: sender.clone(), amount: received });
                assert(views(back@) =~= seq![MsgView::Transfer { info: stored.info, recipient: *sender, amount: received }]);
                return Ok((stored.amount, back));
            }
        }
        return Ok((stored.amount, fee_msgs));
    }
    let added = match stored.amount.checked_add(transfer_in) {
        Some(x) => x,
        None => return Err(ContractError::Overflow),
    };
    let amount = match added.checked_sub(protocol_fee) {
        Some(x) => x,
        None => return Err(ContractError::Overflow),
    };
    let mut msgs: Vec<VaultMsg> = Vec::new();
    if !stored.info.is_native_token() {
        if transfer_in != 0 {
            msgs.push(VaultMsg::TransferFromUser {
                token: stored.info.as_str().clone(),
                owner: sender.clone(),
                recipient: vault.clone(),
                amount: transfer_in,
            });
            assert(views(msgs@) =~= seq![MsgView::TransferFromUser { token: stored.info.label_string(), owner: *sender, recipient: *vault, amount: transfer_in }]);
        } else {
            assert(views(msgs@) =~= Seq::<MsgView>::empty());
        }
    } else {
        let received = find_sent_native_token_balance(funds, stored.info.as_str());
        if received > transfer_in {
            msgs.push(VaultMsg::Transfer { info: stored.info.copy(), recipient: sender.clone(), amount: received - transfer_in });
            assert(views(msgs@) =~= seq![MsgView::Transfer { info: stored.info, recipient: *sender, amount: (received - transfer_in) as u128 }]);
        } else if received < transfer_in {
            return Err(ContractError::InsufficientNativeTokensSent {
                denom: stored.info.as_str().clone(),
                sent: received,
                needed: transfer_in,
            });
        } else {
            assert(views(msgs@) =~= Seq::<MsgView>::empty());
        }
    }
    let ghost first = views(msgs@);
    msgs.append(&mut fee_msgs);
    assert(views(msgs@) =~= first + fee_views);
    Ok((amount, msgs))
}

/// Whether `denom` is a native token of the pool.
fn has_pool_denom(pool_assets: &Vec<Asset>, denom: &String) -> (r: bool)
    ensures
        r == is_pool_denom(pool_assets@, denom@),
{
    let mut i: usize = 0;
    while i < pool_assets.len()
        invariant
            i <= pool_assets.len(),
            forall|j: int| 0 <= j < i ==> !((#[trigger] pool_assets@[j]).info.is_native() && pool_assets@[j].info.label() == denom@),
        decreases pool_assets.len() - i,
    {
        if pool_assets[i].info.is_native_token() && pool_assets[i].info.as_str().eq(denom) {
            assert(pool_assets@[i as int].info.is_native() && pool_assets@[i as int].info.label() == denom@);
            return true;
        }
        i = i + 1;
    }
    false
}

/// The returns of the coins sent whose denom is not one of the pool's.
fn foreign_refund_msgs(pool_assets: &Vec<Asset>, funds: &Vec<Coin>, sender: &String) -> (r: Vec<VaultMsg>)
    ensures
        views(r@) == foreign_refunds(pool_assets@, funds@, *sender, funds@.len()),
{
    let mut r: Vec<VaultMsg> = Vec::new();
    let mut k: usize = 0;
    while k < funds.len()
        invariant
            k <= funds.len(),
            views(r@) == foreign_refunds(pool_assets@, funds@, *sender, k as nat),
        decreases funds.len() - k,
    {
        let c = &funds[k];
        if c.amount != 0 && !has_pool_denom(pool_assets, &c.denom) {
            let ghost prev = views(r@);
            r.push(VaultMsg::Transfer { info: AssetInfo::NativeToken { denom: c.denom.clone() }, recipient: sender.clone(), amount: c.amount });
            assert(views(r@) =~= prev.push(MsgView::Transfer { info: AssetInfo::NativeToken { denom: c.denom }, recipient: *sender, amount: c.amount }));
        }
        k = k + 1;
    }
    r
}

/// Applies a pool's answer to a join request by `sender`, who sent `funds`,
/// minting to `recipient`: the pool's new balances and the messages to run.
pub fn execute_join_pool(
    config: &VaultConfig,
    pool: &PoolInfo,
    answer: &AfterJoinResponse,
    min_lp_to_receive: Option<u128>,
    auto_stake: Option<bool>,
    sender: &String,
    recipient: &String,
    vault: &String,
    funds: &Vec<Coin>,
) -> (r: Result<(Vec<Asset>, Vec<VaultMsg>), ContractError>)
    requires
        pool.wf(),
    ensures
        match (r, join_spec(*config, *pool, *answer, min_lp_to_receive, auto_stake, *sender, *recipient, *vault, funds@)) {
            (Ok((a, m)), Ok((sa, sm))) => a@ == sa && views(m@) == sm,
            (Err(e), Err(refusal)) => join_refusal_is(refusal, e),
            _ => false,
        },
{
    match &answer.response {
        PoolResponse::Failure(s) => return Err(ContractError::PoolQueryFailed { error: s.clone() }),
        PoolResponse::Success => {},
    }
    if answer.new_shares == 0 {
        proof { reveal_strlit("LP tokens to mint cannot be 0"); }
        return Err(ContractError::PoolQueryFailed { error: String::from_str("LP tokens to mint cannot be 0") });
    }
    if let Some(min) = min_lp_to_receive {
        if answer.new_shares < min {
            return Err(ContractError::MinReceiveError { min_receive: min, ask_amount: answer.new_shares });
        }
    }
    if answer.provided_assets.len() != pool.assets.len() {
        return Err(ContractError::InvalidNumberOfAssets);
    }
    let empty: Vec<Asset> = Vec::new();
    let fees: &Vec<Asset> = match &answer.fee {
        Some(f) => f,
        None => &empty,
    };
    let ghost gfees = fees@;
    assert(gfees == (match answer.fee { Some(f) => f@, None => Seq::<Asset>::empty() }));
    let mut assets: Vec<Asset> = Vec::new();
    let mut msgs: Vec<VaultMsg> = Vec::new();
    assert(views(msgs@) =~= Seq::<MsgView>::empty());
    assert(assets@ =~= Seq::<Asset>::empty());
    let ghost final_fold = join_fold(pool.assets@, answer.provided_assets@, gfees, pool.fee_info, config.fee_collector, *sender, *vault, funds@, pool.assets@.len());
    assert(join_spec(*config, *pool, *answer, min_lp_to_receive, auto_stake, *sender, *recipient, *vault, funds@)
        == join_finish(*config, *pool, answer.new_shares, auto_stake, *recipient, *vault, foreign_refunds(pool.assets@, funds@, *sender, funds@.len()), final_fold));
    let mut i: usize = 0;
    while i < pool.assets.len()
        invariant
            i <= pool.assets.len(),
            answer.provided_assets@.len() == pool.assets@.len(),
            pool.wf(),
            fees@ == gfees,
            final_fold == join_fold(pool.assets@, answer.provided_assets@, gfees, pool.fee_info, config.fee_collector, *sender, *vault, funds@, pool.assets@.len()),
            join_spec(*config, *pool, *answer, min_lp_to_receive, auto_stake, *sender, *recipient, *vault, funds@)
                == join_finish(*config, *pool, answer.new_shares, auto_stake, *recipient, *vault, foreign_refunds(pool.assets@, funds@, *sender, funds@.len()), final_fold),
            join_fold(pool.assets@, answer.provided_assets@, gfees, pool.fee_info, config.fee_collector, *sender, *vault, funds@, i as nat)
                == Ok::<(Seq<Asset>, Seq<MsgView>), ContractError>((assets@, views(msgs@))),
        decreases pool.assets.len() - i,
    {
        let stored = &pool.assets[i];
        let provided = &answer.provided_assets[i];
        let total_fee = find_fee(fees, &stored.info);
        let ghost prev_msgs = views(msgs@);
        match join_one(stored, provided, total_fee, &pool.fee_info, &config.fee_collector, sender, vault, funds) {
            Err(e) => {
                proof { lemma_join_fold_err(pool.assets@, answer.provided_assets@, gfees, pool.fee_info, config.fee_collector, *sender, *vault, funds@, i as nat + 1, pool.assets@.len()); }
                return Err(e);
            },
            Ok((amount, mut m)) => {
                let ghost mv = views(m@);
                msgs.append(&mut m);
                assert(views(msgs@) =~= prev_msgs + mv);
                assets.push(Asset { info: stored.info.copy(), amount });
            },
        }
        i = i + 1;
    }
    let ghost folded = views(msgs@);
    let mut back = foreign_refund_msgs(&pool.assets, funds, sender);
    let ghost back_views = views(back@);
    msgs.append(&mut back);
    assert(views(msgs@) =~= folded + back_views);
    let update = build_update_pool_state_msg(&pool.pool_addr, &assets);
    msgs.push(update);
    let mut mint = build_mint_lp_token_msg(&pool.lp_token_addr, recipient, answer.new_shares, auto_stake == Some(true), &config.auto_stake_impl, vault)?;
    let ghost before_mint = msgs@;
    let ghost mint_msgs = mint@;
    msgs.append(&mut mint);
    assert(views(msgs@) =~= views(before_mint) + views(mint_msgs));
    Ok((assets, msgs))
}


/// The balance a pool books for a token after a join: what it held, plus what
/// the user provides, less the protocol's part of the fee charged in it.
pub open spec fn joined_balance(stored: Asset, provided: Asset, fees: Seq<Asset>, fee_info: FeeInfo, collector: Option<String>) -> int {
    stored.amount + provided.amount - join_protocol_fee(fee_lookup(fees, stored.info@), fee_info, collector)
}

proof fn lemma_join_fold_balances(pool_assets: Seq<Asset>, provided: Seq<Asset>, fees: Seq<Asset>, fee_info: FeeInfo, collector: Option<String>, sender: String, vault: String, funds: Seq<Coin>, i: nat)
    requires
        i <= pool_assets.len(),
        join_fold(pool_assets, provided, fees, fee_info, collector, sender, vault, funds, i) is Ok,
    ensures
        ({
            let assets = join_fold(pool_assets, provided, fees, fee_info, collector, sender, vault, funds, i)->Ok_0.0;
            &&& assets.len() == i
            &&& forall|k: int| 0 <= k < i ==> (#[trigger] assets[k]).info == pool_assets[k].info
                && assets[k].amount == joined_balance(pool_assets[k], provided[k], fees, fee_info, collector)
        }),
    decreases i,
{
    if i > 0 {
        if join_fold(pool_assets, provided, fees, fee_info, collector, sender, vault, funds, (i - 1) as nat) is Err {
            assert(false);
        }
        lemma_join_fold_balances(pool_assets, provided, fees, fee_info, collector, sender, vault, funds, (i - 1) as nat);
    }
}

/// A join books, for every token of the pool, what it held plus what the
/// user provides less the protocol's part of the fee charged in that token;
/// the tokens keep their order.
pub proof fn law_join_books_deposits(
    config: VaultConfig,
    pool: PoolInfo,
    answer: AfterJoinResponse,
    min_lp_to_receive: Option<u128>,
    auto_stake: Option<bool>,
    sender: String,
    recipient: String,
    vault: String,
    funds: Seq<Coin>,
)
    requires
        join_spec(config, pool, answer, min_lp_to_receive, auto_stake, sender, recipient, vault, funds) is Ok,
    ensures
        ({
            let assets = join_spec(config, pool, answer, min_lp_to_receive, auto_stake, sender, recipient, vault, funds)->Ok_0.0;
            let fees = match answer.fee { Some(f) => f@, None => seq![] };
            &&& assets.len() == pool.assets@.len()
            &&& forall|k: int| 0 <= k < assets.len() ==> (#[trigger] assets[k]).info == pool.assets@[k].info
                && assets[k].amount == joined_balance(pool.assets@[k], answer.provided_assets@[k], fees, pool.fee_info, config.fee_collector)
        }),
{
    let fees = match answer.fee { Some(f) => f@, None => seq![] };
    lemma_join_fold_balances(pool.assets@, answer.provided_assets@, fees, pool.fee_info, config.fee_collector, sender, vault, funds, pool.assets@.len());
}
/// The refunds of the first `n` coins hold the refund of every qualifying coin among them.
proof fn lemma_foreign_refunds_hold(pool_assets: Seq<Asset>, funds: Seq<Coin>, sender: String, n: nat, k: int)
    requires
        0 <= k < n <= funds.len(),
        funds[k].amount != 0,
        !is_pool_denom(pool_assets, funds[k].denom@),
    ensures
        foreign_refunds(pool_assets, funds, sender, n).contains(
            MsgView::Transfer { info: AssetInfo::NativeToken { denom: funds[k].denom }, recipient: sender, amount: funds[k].amount }),
    decreases n,
{
    let m = MsgView::Transfer { info: AssetInfo::NativeToken { denom: funds[k].denom }, recipient: sender, amount: funds[k].amount };
    let prev = foreign_refunds(pool_assets, funds, sender, (n - 1) as nat);
    if k == n - 1 {
        assert(foreign_refunds(pool_assets, funds, sender, n) == prev.push(m));
        assert(foreign_refunds(pool_assets, funds, sender, n)[prev.len() as int] == m);
    } else {
        lemma_foreign_refunds_hold(pool_assets, funds, sender, (n - 1) as nat, k);
        let i = choose|i: int| 0 <= i < prev.len() && prev[i] == m;
        assert(foreign_refunds(pool_assets, funds, sender, n)[i] == m);
    }
}

/// A join returns every coin sent, of a positive amount, whose denom is not
/// one of the pool's native tokens.
pub proof fn law_join_returns_foreign_coins(
    config: VaultConfig,
    pool: PoolInfo,
    answer: AfterJoinResponse,
    min_lp_to_receive: Option<u128>,
    auto_stake: Option<bool>,
    sender: String,
    recipient: String,
    vault: String,
    funds: Seq<Coin>,
    k: int,
)
    requires
        join_spec(config, pool, answer, min_lp_to_receive, auto_stake, sender, recipient, vault, funds) is Ok,
        0 <= k < funds.len(),
        funds[k].amount != 0,
        !is_pool_denom(pool.assets@, funds[k].denom@),
    ensures
        join_spec(config, pool, answer, min_lp_to_receive, auto_stake, sender, recipient, vault, funds)->Ok_0.1.contains(
            MsgView::Transfer { info: AssetInfo::NativeToken { denom: funds[k].denom }, recipient: sender, amount: funds[k].amount }),
{
    let m = MsgView::Transfer { info: AssetInfo::NativeToken { denom: funds[k].denom }, recipient: sender, amount: funds[k].amount };
    let fr = foreign_refunds(pool.assets@, funds, sender, funds.len());
    lemma_foreign_refunds_hold(pool.assets@, funds, sender, funds.len(), k);
    let j = choose|j: int| 0 <= j < fr.len() && fr[j] == m;
    let fees = match answer.fee { Some(f) => f@, None => seq![] };
    let folded = join_fold(pool.assets@, answer.provided_assets@, fees, pool.fee_info, config.fee_collector, sender, vault, funds, pool.assets@.len());
    let msgs = folded->Ok_0.1;
    let all = join_spec(config, pool, answer, min_lp_to_receive, auto_stake, sender, recipient, vault, funds)->Ok_0.1;
    let mint = mint_msgs_spec(pool.lp_token_addr, recipient, answer.new_shares, auto_stake == Some(true), config.auto_stake_impl, vault)->Ok_0;
    assert(all == (msgs + fr).push(MsgView::UpdateLiquidity { pool_addr: pool.pool_addr, assets: folded->Ok_0.0 }) + mint);
    assert(all[msgs.len() + j] == m);
}

} // verus!
