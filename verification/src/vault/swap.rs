//! Swapping through a pool: the pool prices the trade; the vault checks the
//! price against the user's limits, moves the tokens and books the balances.
use vstd::prelude::*;
use crate::types::{Asset, AssetInfo, Coin, sent_amount, find_sent_native_token_balance};
use crate::precision::FeeInfo;
use crate::vault::state::{
    VaultConfig, PoolInfo, PoolTypeConfig, VaultMsg, MsgView, views, ContractError, Refusal, build_update_pool_state_msg, pool_usable_spec,
};
use crate::vault::join::PoolResponse;

verus! {

/// Which side of a swap the user fixes.
#[derive(Clone, Debug)]
pub enum SwapType {
    /// The amount offered is given.
    GiveIn,
    /// The amount asked for is given.
    GiveOut,
    /// A pool-specific kind of swap.
    Custom(String),
}

/// A swap through one pool.
#[derive(Clone, Debug)]
pub struct SingleSwapRequest {
    pub pool_id: u128,
    pub asset_in: AssetInfo,
    pub asset_out: AssetInfo,
    pub swap_type: SwapType,
    pub amount: u128,
}

/// The amounts a pool prices a swap at.
#[derive(Clone, Copy, Debug)]
pub struct Trade {
    pub amount_in: u128,
    pub amount_out: u128,
    pub spread: u128,
}

/// A pool's answer to a swap request.
#[derive(Clone, Debug)]
pub struct SwapResponse {
    pub trade_params: Trade,
    pub response: PoolResponse,
    /// The fee charged, if any.
    pub fee: Option<Asset>,
}

/// The checks made before the pool is asked.
pub open spec fn swap_precheck_spec(config: VaultConfig, request: SingleSwapRequest, is_defunct: bool, pool: Option<PoolInfo>, pool_type: Option<PoolTypeConfig>) -> Option<ContractError> {
    if request.amount == 0 {
        Some(ContractError::AmountCannotBeZero)
    } else if request.asset_in@ == request.asset_out@ {
        Some(ContractError::SameTokenError)
    } else {
        match pool_usable_spec(is_defunct, pool) {
            Err(e) => Some(e),
            Ok(p) => match pool_type {
                None => Some(ContractError::NotFound),
                Some(t) => if config.paused.swap || t.paused.swap || p.paused.swap {
                    Some(ContractError::PausedSwap)
                } else {
                    None
                },
            },
        }
    }
}

/// Checks a swap request before the pool is asked; `pool` is the stored pool,
/// if any, `is_defunct` whether it was made defunct, and `pool_type` the
/// configuration of its type.
pub fn swap_precheck(config: &VaultConfig, request: &SingleSwapRequest, is_defunct: bool, pool: &Option<PoolInfo>, pool_type: &Option<PoolTypeConfig>) -> (r: Result<(), ContractError>)
    ensures
        match r {
            Ok(_) => swap_precheck_spec(*config, *request, is_defunct, *pool, *pool_type) is None,
            Err(e) => swap_precheck_spec(*config, *request, is_defunct, *pool, *pool_type) == Some(e),
        },
{
    if request.amount == 0 {
        return Err(ContractError::AmountCannotBeZero);
    }
    if request.asset_in.same(&request.asset_out) {
        return Err(ContractError::SameTokenError);
    }
    if is_defunct {
        return Err(ContractError::PoolAlreadyDefunct);
    }
    let p = match pool {
        None => return Err(ContractError::InvalidPoolId),
        Some(p) => p,
    };
    match pool_type {
        None => Err(ContractError::NotFound),
        Some(t) => {
            if config.paused.swap || t.paused.swap || p.paused.swap {
                return Err(ContractError::PausedSwap);
            }
            Ok(())
        },
    }
}

/// The protocol's part of the fee of a swap: nothing when no fee is charged
/// or there is no collector.
pub open spec fn swap_protocol_fee(fee: Option<Asset>, fee_info: FeeInfo, collector: Option<String>) -> nat {
    match fee {
        Some(f) => if f.amount != 0 && collector is Some { fee_info.protocol_fee(f.amount) } else { 0 },
        None => 0,
    }
}

/// What the offered token does to a stored balance, if the stored token is
/// the one offered (compared by address or denom alone): the pool receives
/// the amount offered, less the protocol fee where the fee is charged in the
/// offered token; a CW20 is pulled from the user, a native token must have
/// been sent and any excess is returned.
pub open spec fn offer_step(stored: Asset, offer: Asset, fee: Option<Asset>, pf: nat, sender: String, vault: String, funds: Seq<Coin>) -> Result<(u128, Seq<MsgView>), Refusal> {
    if stored.info.label() != offer.info.label() {
        Ok((stored.amount, seq![]))
    } else if stored.amount + offer.amount > u128::MAX {
        Err(Refusal::Error(ContractError::Overflow))
    } else {
        let added = stored.amount + offer.amount;
        let charged = fee matches Some(f) && f.info@ == offer.info@;
        if charged && added < pf {
            Err(Refusal::Error(ContractError::Overflow))
        } else {
            let amount = (if charged { added - pf } else { added }) as u128;
            if !offer.info.is_native() {
                Ok((amount, seq![MsgView::TransferFromUser { token: offer.info.label_string(), owner: sender, recipient: vault, amount: offer.amount }]))
            } else {
                let got = sent_amount(funds, offer.info.label());
                if got < offer.amount {
                    Err(Refusal::Error(ContractError::InsufficientTokensSent))
                } else if got > offer.amount {
                    Ok((amount, seq![MsgView::Transfer { info: stored.info, recipient: sender, amount: (got - offer.amount) as u128 }]))
                } else {
                    Ok((amount, seq![]))
                }
            }
        }
    }
}

/// What the asked token does to a balance, if the stored token is the one
/// asked for: the pool pays out the amount asked, and the protocol fee where
/// the fee is charged in that token.
pub open spec fn ask_step(stored_info: AssetInfo, balance: u128, ask: Asset, fee: Option<Asset>, pf: nat, recipient: String) -> Result<(u128, Seq<MsgView>), Refusal> {
    if stored_info@ != ask.info@ {
        Ok((balance, seq![]))
    } else if balance < ask.amount {
        Err(Refusal::Error(ContractError::Overflow))
    } else {
        let left = balance - ask.amount;
        let charged = fee matches Some(f) && f.info@ == ask.info@;
        if charged && left < pf {
            Err(Refusal::Error(ContractError::Overflow))
        } else {
            let amount = (if charged { left - pf } else { left }) as u128;
            Ok((amount, seq![MsgView::Transfer { info: ask.info, recipient, amount: ask.amount }]))
        }
    }
}

/// One stored token in a swap: its new balance, the messages, and whether it
/// was the offered and the asked token.
pub open spec fn swap_step(stored: Asset, offer: Asset, ask: Asset, fee: Option<Asset>, pf: nat, sender: String, vault: String, recipient: String, funds: Seq<Coin>) -> Result<(u128, Seq<MsgView>, bool, bool), Refusal> {
    match offer_step(stored, offer, fee, pf, sender, vault, funds) {
        Err(e) => Err(e),
        Ok((b, m1)) => match ask_step(stored.info, b, ask, fee, pf, recipient) {
            Err(e) => Err(e),
            Ok((b2, m2)) => Ok((b2, m1 + m2, stored.info.label() == offer.info.label(), stored.info@ == ask.info@)),
        },
    }
}

/// The stored tokens after the first `i`, their messages, and whether the
/// offered and the asked token were met; once both were met the rest stay as they are.
pub open spec fn swap_fold(pool_assets: Seq<Asset>, offer: Asset, ask: Asset, fee: Option<Asset>, pf: nat, sender: String, vault: String, recipient: String, funds: Seq<Coin>, i: nat) -> Result<(Seq<Asset>, Seq<MsgView>, bool, bool), Refusal>
    decreases i,
{
    if i == 0 {
        Ok((seq![], seq![], false, false))
    } else {
        match swap_fold(pool_assets, offer, ask, fee, pf, sender, vault, recipient, funds, (i - 1) as nat) {
            Err(e) => Err(e),
            Ok((assets, msgs, o, a)) => {
                let s = pool_assets[i - 1];
                if o && a {
                    Ok((assets.push(s), msgs, o, a))
                } else {
                    match swap_step(s, offer, ask, fee, pf, sender, vault, recipient, funds) {
                        Err(e) => Err(e),
                        Ok((amount, m, oh, ah)) => Ok((assets.push(Asset { info: s.info, amount }), msgs + m, o || oh, a || ah)),
                    }
                }
            },
        }
    }
}

pub proof fn lemma_swap_fold_err(pool_assets: Seq<Asset>, offer: Asset, ask: Asset, fee: Option<Asset>, pf: nat, sender: String, vault: String, recipient: String, funds: Seq<Coin>, i: nat, j: nat)
    requires
        i <= j,
        swap_fold(pool_assets, offer, ask, fee, pf, sender, vault, recipient, funds, i) is Err,
    ensures
        swap_fold(pool_assets, offer, ask, fee, pf, sender, vault, recipient, funds, j) == swap_fold(pool_assets, offer, ask, fee, pf, sender, vault, recipient, funds, i),
    decreases j - i,
{
    if i < j {
        lemma_swap_fold_err(pool_assets, offer, ask, fee, pf, sender, vault, recipient, funds, i, (j - 1) as nat);
    }
}

/// The pool's new balances and the messages of a swap, or why it is refused.
/// `sender` sent `funds` and asked for the proceeds to go to `recipient`.
pub open spec fn swap_spec(
    config: VaultConfig,
    pool: PoolInfo,
    request: SingleSwapRequest,
    answer: SwapResponse,
    min_receive: Option<u128>,
    max_spend: Option<u128>,
    sender: String,
    recipient: String,
    vault: String,
    funds: Seq<Coin>,
) -> Result<(Seq<Asset>, Seq<MsgView>), Refusal> {
    let amount_in = answer.trade_params.amount_in;
    let amount_out = answer.trade_params.amount_out;
    match answer.response {
        PoolResponse::Failure(s) => Err(Refusal::Error(ContractError::PoolQueryFailed { error: s })),
        PoolResponse::Success => if amount_in == 0 || amount_out == 0 {
            Err(Refusal::Error(ContractError::SwapAmountZero))
        } else if max_spend is Some && max_spend->Some_0 < amount_in {
            Err(Refusal::Error(ContractError::MaxSpendError { max_spend: max_spend->Some_0, offer_amount: amount_in }))
        } else if min_receive is Some && min_receive->Some_0 > amount_out {
            Err(Refusal::Error(ContractError::MinReceiveError { min_receive: min_receive->Some_0, ask_amount: amount_out }))
        } else {
            let pf = swap_protocol_fee(answer.fee, pool.fee_info, config.fee_collector);
            let offer = Asset { info: request.asset_in, amount: amount_in };
            let ask = Asset { info: request.asset_out, amount: amount_out };
            match swap_fold(pool.assets@, offer, ask, answer.fee, pf, sender, vault, recipient, funds, pool.assets@.len()) {
                Err(e) => Err(e),
                Ok((assets, msgs, o, a)) => if !o || !a {
                    Err(Refusal::Error(ContractError::MismatchedAssets))
                } else {
                    let fee_msg = if pf != 0 {
                        seq![MsgView::Transfer { info: answer.fee->Some_0.info, recipient: config.fee_collector->Some_0, amount: pf as u128 }]
                    } else {
                        seq![]
                    };
                    Ok((assets, msgs.push(MsgView::UpdateLiquidity { pool_addr: pool.pool_addr, assets }) + fee_msg))
                },
            }
        },
    }
}

/// Processes one stored token in a swap.
fn swap_one(stored: &Asset, offer: &Asset, ask: &Asset, fee: &Option<Asset>, pf: u128, sender: &String, vault: &String, recipient: &String, funds: &Vec<Coin>) -> (r: Result<(u128, Vec<VaultMsg>, bool, bool), ContractError>)
    ensures
        match r {
            Ok((a, m, o, k)) => swap_step(*stored, *offer, *ask, *fee, pf as nat, *sender, *vault, *recipient, funds@)
                == Ok::<(u128, Seq<MsgView>, bool, bool), Refusal>((a, views(m@), o, k)),
            Err(e) => swap_step(*stored, *offer, *ask, *fee, pf as nat, *sender, *vault, *recipient, funds@)
                == Err::<(u128, Seq<MsgView>, bool, bool), Refusal>(Refusal::Error(e)),
        },
{
    let mut balance = stored.amount;
    let mut msgs: Vec<VaultMsg> = Vec::new();
    let offer_hit = stored.info.as_str().eq(offer.info.as_str());
    if offer_hit {
        balance = match balance.checked_add(offer.amount) {
            Some(x) => x,
            None => return Err(ContractError::Overflow),
        };
        let charged = match fee {
            Some(f) => f.info.same(&offer.info),
            None => false,
        };
        if charged {
            balance = match balance.checked_sub(pf) {
                Some(x) => x,
                None => return Err(ContractError::Overflow),
            };
        }
        if !offer.info.is_native_token() {
            msgs.push(VaultMsg::TransferFromUser {
                token: offer.info.as_str().clone(),
                owner: sender.clone(),
                recipient: vault.clone(),
                amount: offer.amount,
            });
            assert(views(msgs@) =~= seq![MsgView::TransferFromUser { token: offer.info.label_string(), owner: *sender, recipient: *vault, amount: offer.amount }]);
        } else {
            let got = find_sent_native_token_balance(funds, offer.info.as_str());
            if got < offer.amount {
                return Err(ContractError::InsufficientTokensSent);
            }
            if got > offer.amount {
                msgs.push(VaultMsg::Transfer { info: stored.info.copy(), recipient: sender.clone(), amount: got - offer.amount });
                assert(views(msgs@) =~= seq![MsgView::Transfer { info: stored.info, recipient: *sender, amount: (got - offer.amount) as u128 }]);
            } else {
                assert(views(msgs@) =~= Seq::<MsgView>::empty());
            }
        }
    } else {
        assert(views(msgs@) =~= Seq::<MsgView>::empty());
    }
    let ghost m1 = views(msgs@);
    assert(offer_step(*stored, *offer, *fee, pf as nat, *sender, *vault, funds@) == Ok::<(u128, Seq<MsgView>), Refusal>((balance, m1)));
    let ask_hit = stored.info.same(&ask.info);
    if ask_hit {
        balance = match balance.checked_sub(ask.amount) {
            Some(x) => x,
            None => return Err(ContractError::Overflow),
        };
        let charged = match fee {
            Some(f) => f.info.same(&ask.info),
            None => false,
        };
        if charged {
            balance = match balance.checked_sub(pf) {
                Some(x) => x,
                None => return Err(ContractError::Overflow),
            };
        }
        msgs.push(VaultMsg::Transfer { info: ask.info.copy(), recipient: recipient.clone(), amount: ask.amount });
        assert(views(msgs@) =~= m1 + seq![MsgView::Transfer { info: ask.info, recipient: *recipient, amount: ask.amount }]);
    } else {
        assert(views(msgs@) =~= m1 + Seq::<MsgView>::empty());
    }
    Ok((balance, msgs, offer_hit, ask_hit))
}

/// Applies a pool's answer to a swap request by `sender`, who sent `funds`;
/// the proceeds go to `recipient`. Returns the pool's new balances and the
/// messages to run.
pub fn execute_swap(
    config: &VaultConfig,
    pool: &PoolInfo,
    request: &SingleSwapRequest,
    answer: &SwapResponse,
    min_receive: Option<u128>,
    max_spend: Option<u128>,
    sender: &String,
    recipient: &String,
    vault: &String,
    funds: &Vec<Coin>,
) -> (r: Result<(Vec<Asset>, Vec<VaultMsg>), ContractError>)
    requires
        pool.wf(),
    ensures
        match r {
            Ok((a, m)) => swap_spec(*config, *pool, *request, *answer, min_receive, max_spend, *sender, *recipient, *vault, funds@)
                == Ok::<(Seq<Asset>, Seq<MsgView>), Refusal>((a@, views(m@))),
            Err(e) => swap_spec(*config, *pool, *request, *answer, min_receive, max_spend, *sender, *recipient, *vault, funds@)
                == Err::<(Seq<Asset>, Seq<MsgView>), Refusal>(Refusal::Error(e)),
        },
{
    let amount_in = answer.trade_params.amount_in;
    let amount_out = answer.trade_params.amount_out;
    match &answer.response {
        PoolResponse::Failure(s) => return Err(ContractError::PoolQueryFailed { error: s.clone() }),
        PoolResponse::Success => {},
    }
    if amount_in == 0 || amount_out == 0 {
        return Err(ContractError::SwapAmountZero);
    }
    let mut pf: u128 = 0;
    if let Some(f) = &answer.fee {
        if f.amount != 0 && config.fee_collector.is_some() {
            pf = pool.fee_info.calculate_total_fee_breakup(f.amount);
        }
    }
    if let Some(m) = max_spend {
        if m < amount_in {
            return Err(ContractError::MaxSpendError { max_spend: m, offer_amount: amount_in });
        }
    }
    if let Some(m) = min_receive {
        if m > amount_out {
            return Err(ContractError::MinReceiveError { min_receive: m, ask_amount: amount_out });
        }
    }
    let offer = Asset { info: request.asset_in.copy(), amount: amount_in };
    let ask = Asset { info: request.asset_out.copy(), amount: amount_out };
    let ghost final_fold = swap_fold(pool.assets@, offer, ask, answer.fee, pf as nat, *sender, *vault, *recipient, funds@, pool.assets@.len());
    let mut assets: Vec<Asset> = Vec::new();
    let mut msgs: Vec<VaultMsg> = Vec::new();
    let mut offer_done = false;
    let mut ask_done = false;
    assert(views(msgs@) =~= Seq::<MsgView>::empty());
    assert(assets@ =~= Seq::<Asset>::empty());
    let mut i: usize = 0;
    while i < pool.assets.len()
        invariant
            i <= pool.assets.len(),
            pf == swap_protocol_fee(answer.fee, pool.fee_info, config.fee_collector),
            final_fold == swap_fold(pool.assets@, offer, ask, answer.fee, pf as nat, *sender, *vault, *recipient, funds@, pool.assets@.len()),
            swap_fold(pool.assets@, offer, ask, answer.fee, pf as nat, *sender, *vault, *recipient, funds@, i as nat)
                == Ok::<(Seq<Asset>, Seq<MsgView>, bool, bool), Refusal>((assets@, views(msgs@), offer_done, ask_done)),
            swap_spec(*config, *pool, *request, *answer, min_receive, max_spend, *sender, *recipient, *vault, funds@) == (match final_fold {
                Err(e) => Err(e),
                Ok((fa, fm, o, a)) => if !o || !a {
                    Err(Refusal::Error(ContractError::MismatchedAssets))
                } else {
                    let fee_msg = if pf != 0 {
                        seq![MsgView::Transfer { info: answer.fee->Some_0.info, recipient: config.fee_collector->Some_0, amount: pf }]
                    } else {
                        seq![]
                    };
                    Ok((fa, fm.push(MsgView::UpdateLiquidity { pool_addr: pool.pool_addr, assets: fa }) + fee_msg))
                },
            }),
        decreases pool.assets.len() - i,
    {
        let stored = &pool.assets[i];
        if offer_done && ask_done {
            assets.push(stored.copy());
        } else {
            let ghost prev_msgs = views(msgs@);
            proof {
                if swap_step(*stored, offer, ask, answer.fee, pf as nat, *sender, *vault, *recipient, funds@) is Err {
                    lemma_swap_fold_err(pool.assets@, offer, ask, answer.fee, pf as nat, *sender, *vault, *recipient, funds@, i as nat + 1, pool.assets@.len());
                }
            }
            match swap_one(stored, &offer, &ask, &answer.fee, pf, sender, vault, recipient, funds) {
                Err(e) => {
                    return Err(e);
                },
                Ok((amount, mut m, o, a)) => {
                    let ghost mv = views(m@);
                    msgs.append(&mut m);
                    assert(views(msgs@) =~= prev_msgs + mv);
                    assets.push(Asset { info: stored.info.copy(), amount });
                    offer_done = offer_done || o;
                    ask_done = ask_done || a;
                },
            }
        }
        i = i + 1;
    }
    if !offer_done || !ask_done {
        return Err(ContractError::MismatchedAssets);
    }
    let ghost folded = views(msgs@);
    let update = build_update_pool_state_msg(&pool.pool_addr, &assets);
    msgs.push(update);
    let ghost with_update = views(msgs@);
    assert(with_update =~= folded.push(MsgView::UpdateLiquidity { pool_addr: pool.pool_addr, assets: assets@ }));
    if pf != 0 {
        let (fee_info, collector) = match (&answer.fee, &config.fee_collector) {
            (Some(f), Some(c)) => (f.info.copy(), c.clone()),
            _ => {
                proof { assert(false); }
                return Err(ContractError::FeeCollectorNotSet);
            },
        };
        msgs.push(VaultMsg::Transfer { info: fee_info, recipient: collector, amount: pf });
        assert(views(msgs@) =~= with_update + seq![MsgView::Transfer { info: answer.fee->Some_0.info, recipient: config.fee_collector->Some_0, amount: pf }]);
    } else {
        assert(views(msgs@) =~= with_update + Seq::<MsgView>::empty());
    }
    Ok((assets, msgs))
}


/// No two tokens of the pool share an address or denom.
pub open spec fn labels_distinct(assets: Seq<Asset>) -> bool {
    forall|i: int, j: int| 0 <= i < j < assets.len() ==> (#[trigger] assets[i]).info.label() != (#[trigger] assets[j]).info.label()
}

/// The balance a pool books for a token after a swap: the offered token gains
/// what is offered, the asked token loses what is paid out, and the token the
/// fee is charged in also loses the protocol's part `pf` of the fee.
pub open spec fn swapped_balance(stored: Asset, offer: Asset, ask: Asset, fee: Option<Asset>, pf: nat) -> int {
    let gain = if stored.info.label() == offer.info.label() {
        offer.amount - (if fee matches Some(f) && f.info@ == offer.info@ { pf as int } else { 0 })
    } else {
        0
    };
    let loss = if stored.info@ == ask.info@ {
        ask.amount + (if fee matches Some(f) && f.info@ == ask.info@ { pf as int } else { 0 })
    } else {
        0
    };
    stored.amount + gain - loss
}

proof fn lemma_swap_fold_balances(pool_assets: Seq<Asset>, offer: Asset, ask: Asset, fee: Option<Asset>, pf: nat, sender: String, vault: String, recipient: String, funds: Seq<Coin>, i: nat)
    requires
        i <= pool_assets.len(),
        labels_distinct(pool_assets),
        offer.info.label() != ask.info.label(),
        swap_fold(pool_assets, offer, ask, fee, pf, sender, vault, recipient, funds, i) is Ok,
    ensures
        ({
            let (assets, msgs, o, a) = swap_fold(pool_assets, offer, ask, fee, pf, sender, vault, recipient, funds, i)->Ok_0;
            &&& assets.len() == i
            &&& o == exists|k: int| 0 <= k < i && (#[trigger] pool_assets[k]).info.label() == offer.info.label()
            &&& a == exists|k: int| 0 <= k < i && (#[trigger] pool_assets[k]).info@ == ask.info@
            &&& forall|k: int| 0 <= k < i ==> (#[trigger] assets[k]).info == pool_assets[k].info
                && assets[k].amount == swapped_balance(pool_assets[k], offer, ask, fee, pf)
        }),
    decreases i,
{
    if i > 0 {
        let j = (i - 1) as nat;
        if swap_fold(pool_assets, offer, ask, fee, pf, sender, vault, recipient, funds, j) is Err {
            assert(false);
        }
        lemma_swap_fold_balances(pool_assets, offer, ask, fee, pf, sender, vault, recipient, funds, j);
        let (assets, msgs, o, a) = swap_fold(pool_assets, offer, ask, fee, pf, sender, vault, recipient, funds, j)->Ok_0;
        let s = pool_assets[j as int];
        if o && a {
            let ko = choose|k: int| 0 <= k < j && (#[trigger] pool_assets[k]).info.label() == offer.info.label();
            let ka = choose|k: int| 0 <= k < j && (#[trigger] pool_assets[k]).info@ == ask.info@;
            assert(pool_assets[ko].info.label() != s.info.label());
            assert(pool_assets[ka].info.label() != s.info.label());
            assert(pool_assets[ka].info.label() == ask.info.label());
            assert(s.info@ != ask.info@);
        }
        let next = swap_fold(pool_assets, offer, ask, fee, pf, sender, vault, recipient, funds, i)->Ok_0;
        assert forall|k: int| 0 <= k < i implies (#[trigger] next.0[k]).info == pool_assets[k].info
            && next.0[k].amount == swapped_balance(pool_assets[k], offer, ask, fee, pf) by {
            if k < j {
                assert(next.0[k] == assets[k]);
            }
        }
        assert(next.2 == exists|k: int| 0 <= k < i && (#[trigger] pool_assets[k]).info.label() == offer.info.label()) by {
            if next.2 && !o {
                assert(pool_assets[j as int].info.label() == offer.info.label());
            }
        }
        assert(next.3 == exists|k: int| 0 <= k < i && (#[trigger] pool_assets[k]).info@ == ask.info@) by {
            if next.3 && !a {
                assert(pool_assets[j as int].info@ == ask.info@);
            }
        }
    }
}

/// A swap through a pool whose tokens have distinct addresses and denoms, of
/// two tokens with distinct ones, books exactly: the offered token gains the
/// amount offered, the asked token loses the amount paid out, the token the
/// fee is charged in loses the protocol's part of the fee, and every other
/// balance stays as it was.
pub proof fn law_swap_books_trade(
    config: VaultConfig,
    pool: PoolInfo,
    request: SingleSwapRequest,
    answer: SwapResponse,
    min_receive: Option<u128>,
    max_spend: Option<u128>,
    sender: String,
    recipient: String,
    vault: String,
    funds: Seq<Coin>,
)
    requires
        labels_distinct(pool.assets@),
        request.asset_in.label() != request.asset_out.label(),
        swap_spec(config, pool, request, answer, min_receive, max_spend, sender, recipient, vault, funds) is Ok,
    ensures
        ({
            let assets = swap_spec(config, pool, request, answer, min_receive, max_spend, sender, recipient, vault, funds)->Ok_0.0;
            let offer = Asset { info: request.asset_in, amount: answer.trade_params.amount_in };
            let ask = Asset { info: request.asset_out, amount: answer.trade_params.amount_out };
            let pf = swap_protocol_fee(answer.fee, pool.fee_info, config.fee_collector);
            &&& assets.len() == pool.assets@.len()
            &&& forall|k: int| 0 <= k < assets.len() ==> (#[trigger] assets[k]).info == pool.assets@[k].info
                && assets[k].amount == swapped_balance(pool.assets@[k], offer, ask, answer.fee, pf)
        }),
{
    let offer = Asset { info: request.asset_in, amount: answer.trade_params.amount_in };
    let ask = Asset { info: request.asset_out, amount: answer.trade_params.amount_out };
    let pf = swap_protocol_fee(answer.fee, pool.fee_info, config.fee_collector);
    lemma_swap_fold_balances(pool.assets@, offer, ask, answer.fee, pf, sender, vault, recipient, funds, pool.assets@.len());
}
} // verus!
