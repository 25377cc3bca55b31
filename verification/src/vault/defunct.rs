//! Defunct pools: a pool can be stopped for good, its balances and LP supply
//! recorded, and its LP holders refunded in batches, in proportion to the LP
//! tokens they hold.
use vstd::prelude::*;
use crate::types::{Asset, AssetInfo, AssetKey};
use crate::stableswap::seq_sum;
use crate::vault::state::{
    VaultConfig, PoolInfo, AutoStakeImpl, VaultMsg, MsgView, views, ContractError, is_authorized, contains_str,
    validate_authorized_caller, pool_usable_spec, validate_pool_exists_and_not_defunct, copy_assets,
};

verus! {

/// What is recorded of a pool when it is made defunct.
#[derive(Clone, Debug)]
pub struct DefunctPoolInfo {
    pub pool_id: u128,
    pub lp_token_addr: String,
    pub total_assets_at_defunct: Vec<Asset>,
    pub total_lp_supply_at_defunct: u128,
    pub defunct_timestamp: u64,
    pub total_refunded_lp_tokens: u128,
}

/// A reward schedule of the staking contract: active from `start_block_time`
/// (included) to `end_block_time` (excluded).
#[derive(Clone, Copy, Debug)]
pub struct RewardSchedule {
    pub start_block_time: u64,
    pub end_block_time: u64,
}

/// The reward tokens whose schedules are looked at before a pool is made defunct.
pub fn reward_assets_to_check() -> (r: Vec<AssetInfo>)
    ensures
        r@.len() == 4,
        r@[0]@ == AssetKey::Native("uxprt"@),
        r@[1]@ == AssetKey::Native("uatom"@),
        r@[2]@ == AssetKey::Native("uusdc"@),
        r@[3]@ == AssetKey::Native("uosmo"@),
{
    let mut r: Vec<AssetInfo> = Vec::new();
    r.push(AssetInfo::NativeToken { denom: String::from_str("uxprt") });
    r.push(AssetInfo::NativeToken { denom: String::from_str("uatom") });
    r.push(AssetInfo::NativeToken { denom: String::from_str("uusdc") });
    r.push(AssetInfo::NativeToken { denom: String::from_str("uosmo") });
    r
}

/// Some schedule is running at `now`.
pub open spec fn some_schedule_active(schedules: Seq<RewardSchedule>, now: u64) -> bool {
    exists|i: int| 0 <= i < schedules.len()
        && (#[trigger] schedules[i]).start_block_time <= now && now < schedules[i].end_block_time
}

/// Refuses to make a pool defunct while rewards are being paid for its LP
/// token: `schedules` are the staking contract's schedules for it (nothing
/// is looked at without staking).
pub fn validate_no_active_reward_schedules(auto_stake_impl: &AutoStakeImpl, schedules: &Vec<RewardSchedule>, now: u64) -> (r: Result<(), ContractError>)
    ensures
        match r {
            Ok(_) => auto_stake_impl is Disabled || !some_schedule_active(schedules@, now),
            Err(e) => auto_stake_impl is Multistaking && some_schedule_active(schedules@, now)
                && e == ContractError::PoolHasActiveRewardSchedules,
        },
{
    if let AutoStakeImpl::Multistaking { .. } = auto_stake_impl {
        let mut i: usize = 0;
        while i < schedules.len()
            invariant
                i <= schedules.len(),
                auto_stake_impl is Multistaking,
                forall|j: int| 0 <= j < i ==> !((#[trigger] schedules@[j]).start_block_time <= now && now < schedules@[j].end_block_time),
            decreases schedules.len() - i,
        {
            let s = schedules[i];
            if s.start_block_time <= now && now < s.end_block_time {
                assert(schedules@[i as int].start_block_time <= now && now < schedules@[i as int].end_block_time);
                return Err(ContractError::PoolHasActiveRewardSchedules);
            }
            i = i + 1;
        }
    }
    Ok(())
}

/// The checks before a pool is made defunct: the caller is the owner or
/// whitelisted, and the pool exists and is not defunct yet. Returns the pool.
pub fn defunct_precheck(config: &VaultConfig, sender: &String, is_defunct: bool, stored: Option<PoolInfo>) -> (r: Result<PoolInfo, ContractError>)
    ensures
        !is_authorized(*config, sender@) ==> r == Err::<PoolInfo, ContractError>(ContractError::Unauthorized),
        is_authorized(*config, sender@) ==> r == pool_usable_spec(is_defunct, stored),
{
    validate_authorized_caller(config, sender)?;
    validate_pool_exists_and_not_defunct(is_defunct, stored)
}

/// The record of a pool made defunct at `now`, holding `assets` with
/// `total_lp_supply` LP tokens out; nothing is refunded yet.
pub fn build_defunct_pool_info(pool: &PoolInfo, assets: Vec<Asset>, total_lp_supply: u128, now: u64) -> (r: DefunctPoolInfo)
    ensures
        r == (DefunctPoolInfo {
            pool_id: pool.pool_id,
            lp_token_addr: pool.lp_token_addr,
            total_assets_at_defunct: assets,
            total_lp_supply_at_defunct: total_lp_supply,
            defunct_timestamp: now,
            total_refunded_lp_tokens: 0,
        }),
{
    DefunctPoolInfo {
        pool_id: pool.pool_id,
        lp_token_addr: pool.lp_token_addr.clone(),
        total_assets_at_defunct: assets,
        total_lp_supply_at_defunct: total_lp_supply,
        defunct_timestamp: now,
        total_refunded_lp_tokens: 0,
    }
}

/// A user's part of a balance: `amount * user_lp / total_lp`, rounded down.
pub open spec fn refund_of(amount: u128, user_lp: u128, total_lp: u128) -> nat {
    (amount as nat * user_lp as nat / total_lp as nat) as nat
}

/// The refund of a user holding `user_lp` of `total_lp` LP tokens, from the
/// balances `assets` of the first `i` tokens: the positive parts, in order.
pub open spec fn refund_prefix(assets: Seq<Asset>, user_lp: u128, total_lp: u128, i: nat) -> Seq<Asset>
    decreases i,
{
    if i == 0 {
        seq![]
    } else {
        let prev = refund_prefix(assets, user_lp, total_lp, (i - 1) as nat);
        let a = assets[i - 1];
        let r = refund_of(a.amount, user_lp, total_lp);
        if r == 0 { prev } else { prev.push(Asset { info: a.info, amount: r as u128 }) }
    }
}

/// Whether a product of a balance and the user's LP tokens does not fit in 128 bits.
pub open spec fn refund_overflows(assets: Seq<Asset>, user_lp: u128) -> bool {
    exists|i: int| 0 <= i < assets.len() && (#[trigger] assets[i]).amount as nat * user_lp as nat > u128::MAX
}

/// A user's refund: for each token with a positive part, `amount * user_lp /
/// total_lp`; nothing when no LP tokens were out.
pub fn calculate_proportional_refund(total_lp: u128, user_lp: u128, assets: &Vec<Asset>) -> (r: Result<Vec<Asset>, ContractError>)
    ensures
        total_lp == 0 ==> (r matches Ok(v) && v@.len() == 0),
        total_lp != 0 ==> match r {
            Ok(v) => !refund_overflows(assets@, user_lp) && v@ == refund_prefix(assets@, user_lp, total_lp, assets@.len()),
            Err(e) => refund_overflows(assets@, user_lp) && e == ContractError::Overflow,
        },
{
    let mut out: Vec<Asset> = Vec::new();
    if total_lp == 0 {
        return Ok(out);
    }
    let mut i: usize = 0;
    while i < assets.len()
        invariant
            i <= assets.len(),
            total_lp != 0,
            out@ == refund_prefix(assets@, user_lp, total_lp, i as nat),
            forall|j: int| 0 <= j < i ==> (#[trigger] assets@[j]).amount as nat * user_lp as nat <= u128::MAX,
        decreases assets.len() - i,
    {
        let a = &assets[i];
        let product = match a.amount.checked_mul(user_lp) {
            Some(p) => p,
            None => return Err(ContractError::Overflow),
        };
        let amount = product / total_lp;
        if amount != 0 {
            out.push(Asset { info: a.info.copy(), amount });
        }
        i = i + 1;
    }
    Ok(out)
}

/// A refund is at most the balance it is taken from, when the user holds no
/// more LP tokens than were out.
pub proof fn law_refund_at_most_balance(amount: u128, user_lp: u128, total_lp: u128)
    requires
        total_lp != 0,
        user_lp <= total_lp,
    ensures
        refund_of(amount, user_lp, total_lp) <= amount,
{
    assert(amount as nat * user_lp as nat <= amount as nat * total_lp as nat) by (nonlinear_arith)
        requires user_lp <= total_lp;
    assert(amount as nat * total_lp as nat / total_lp as nat == amount as nat) by (nonlinear_arith)
        requires total_lp != 0;
    assert(amount as nat * user_lp as nat / total_lp as nat <= amount as nat * total_lp as nat / total_lp as nat) by (nonlinear_arith)
        requires amount as nat * user_lp as nat <= amount as nat * total_lp as nat, total_lp != 0;
}

/// The LP tokens a user has in the staking contract's locks: the locked
/// amounts and what is unlocked but not claimed yet.
pub fn locked_lp_total(locks: &Vec<u128>, unlocked: u128) -> (r: u128)
    requires
        seq_sum(locks@) + unlocked <= u128::MAX,
    ensures
        r == seq_sum(locks@) + unlocked,
{
    let mut total: u128 = 0;
    let mut i: usize = 0;
    while i < locks.len()
        invariant
            i <= locks.len(),
            total == seq_sum(locks@.take(i as int)),
            seq_sum(locks@) + unlocked <= u128::MAX,
        decreases locks.len() - i,
    {
        proof {
            crate::stableswap::lemma_seq_sum_prefix(locks@, i as int + 1);
            assert(locks@.take(i as int + 1).drop_last() == locks@.take(i as int));
        }
        total = total + locks[i];
        i = i + 1;
    }
    assert(locks@.take(locks.len() as int) == locks@);
    total + unlocked
}

/// All the LP tokens of a user: held directly, bonded, and locked.
pub fn calculate_user_total_lp_tokens(direct: u128, bonded: u128, locked: u128) -> (r: u128)
    requires
        direct + bonded + locked <= u128::MAX,
    ensures
        r == direct + bonded + locked,
{
    direct + bonded + locked
}

/// A batch of refunds under way.
pub struct RefundBatch {
    pub pool: DefunctPoolInfo,
    /// The users refunded in this batch.
    pub refunded: Vec<String>,
    /// The LP tokens refunded in this batch.
    pub refunded_lp: u128,
    pub msgs: Vec<VaultMsg>,
}

/// Starts a batch of refunds: the caller is the owner or whitelisted and the
/// pool (`defunct`, its record if it is defunct) is defunct.
pub fn start_refund_batch(config: &VaultConfig, sender: &String, defunct: Option<DefunctPoolInfo>) -> (r: Result<RefundBatch, ContractError>)
    ensures
        !is_authorized(*config, sender@) ==> r == Err::<RefundBatch, ContractError>(ContractError::Unauthorized),
        is_authorized(*config, sender@) && defunct is None ==> r == Err::<RefundBatch, ContractError>(ContractError::PoolNotDefunct),
        is_authorized(*config, sender@) && defunct is Some ==> (r matches Ok(b) && b.pool == defunct->Some_0
            && b.refunded@.len() == 0 && b.refunded_lp == 0 && b.msgs@.len() == 0),
{
    validate_authorized_caller(config, sender)?;
    match defunct {
        None => Err(ContractError::PoolNotDefunct),
        Some(pool) => Ok(RefundBatch { pool, refunded: Vec::new(), refunded_lp: 0, msgs: Vec::new() }),
    }
}

/// Whether `user` was refunded already: before (`stored_refunded`), or earlier in this batch.
pub open spec fn already_refunded(batch: RefundBatch, user: Seq<char>, stored_refunded: bool) -> bool {
    stored_refunded || exists|i: int| 0 <= i < batch.refunded@.len() && (#[trigger] batch.refunded@[i])@ == user
}

/// Refuses a user who was refunded already.
pub fn check_not_refunded(batch: &RefundBatch, user: &String, stored_refunded: bool) -> (r: Result<(), ContractError>)
    ensures
        r is Ok <==> !already_refunded(*batch, user@, stored_refunded),
        r is Err ==> r == Err::<(), ContractError>(ContractError::UserAlreadyRefunded),
{
    if stored_refunded {
        return Err(ContractError::UserAlreadyRefunded);
    }
    let mut i: usize = 0;
    while i < batch.refunded.len()
        invariant
            i <= batch.refunded@.len(),
            forall|j: int| 0 <= j < i ==> (#[trigger] batch.refunded@[j])@ != user@,
        decreases batch.refunded.len() - i,
    {
        if batch.refunded[i].eq(user) {
            return Err(ContractError::UserAlreadyRefunded);
        }
        i = i + 1;
    }
    Ok(())
}

/// Whether computing a refund of `user_lp` LP tokens from `pool` overflows.
pub open spec fn refund_fails(pool: DefunctPoolInfo, user_lp: u128) -> bool {
    pool.total_lp_supply_at_defunct != 0 && refund_overflows(pool.total_assets_at_defunct@, user_lp)
}

/// The refund of `user_lp` LP tokens from `pool`, when it does not overflow.
pub open spec fn refund_spec(pool: DefunctPoolInfo, user_lp: u128) -> Seq<Asset> {
    if pool.total_lp_supply_at_defunct == 0 {
        Seq::<Asset>::empty()
    } else {
        refund_prefix(pool.total_assets_at_defunct@, user_lp, pool.total_lp_supply_at_defunct, pool.total_assets_at_defunct@.len())
    }
}

/// The transfers of a refund to `user`.
pub open spec fn refund_msgs(refund: Seq<Asset>, user: String) -> Seq<MsgView> {
    refund.map_values(|a: Asset| MsgView::Transfer { info: a.info, recipient: user, amount: a.amount })
}

/// Refunds `user`, who holds `user_lp` LP tokens in all and was not refunded:
/// nothing for a user without LP tokens; otherwise the user's part of every
/// balance is sent, the user is marked refunded and the LP tokens counted.
pub fn refund_user(batch: &mut RefundBatch, user: &String, user_lp: u128) -> (r: Result<(), ContractError>)
    requires
        user_lp != 0 && !refund_fails(old(batch).pool, user_lp) ==> old(batch).refunded_lp + user_lp <= u128::MAX,
    ensures
        user_lp == 0 ==> r is Ok && *final(batch) == *old(batch),
        user_lp != 0 && refund_fails(old(batch).pool, user_lp) ==> r == Err::<(), ContractError>(ContractError::Overflow),
        !(user_lp != 0 && refund_fails(old(batch).pool, user_lp)) ==> r is Ok,
        r is Ok && user_lp != 0 ==> {
            let refund = refund_spec(old(batch).pool, user_lp);
            &&& final(batch).pool == old(batch).pool
            &&& final(batch).refunded@ == old(batch).refunded@.push(*user)
            &&& final(batch).refunded_lp == old(batch).refunded_lp + user_lp
            &&& views(final(batch).msgs@) == views(old(batch).msgs@) + refund_msgs(refund, *user)
        },
{
    if user_lp == 0 {
        return Ok(());
    }
    let refund = calculate_proportional_refund(batch.pool.total_lp_supply_at_defunct, user_lp, &batch.pool.total_assets_at_defunct)?;
    let mut msgs: Vec<VaultMsg> = Vec::new();
    let mut i: usize = 0;
    while i < refund.len()
        invariant
            i <= refund.len(),
            views(msgs@) == refund_msgs(refund@.take(i as int), *user),
        decreases refund.len() - i,
    {
        let a = &refund[i];
        let ghost prev = msgs@;
        msgs.push(VaultMsg::Transfer { info: a.info.copy(), recipient: user.clone(), amount: a.amount });
        assert(refund_msgs(refund@.take(i as int + 1), *user) =~= refund_msgs(refund@.take(i as int), *user).push(MsgView::Transfer { info: a.info, recipient: *user, amount: a.amount }));
        assert(views(msgs@) =~= views(prev).push(MsgView::Transfer { info: a.info, recipient: *user, amount: a.amount }));
        i = i + 1;
    }
    assert(refund@.take(refund.len() as int) =~= refund@);
    let ghost before = batch.msgs@;
    let ghost added = msgs@;
    batch.msgs.append(&mut msgs);
    assert(views(batch.msgs@) =~= views(before) + views(added));
    batch.refunded.push(user.clone());
    batch.refunded_lp = batch.refunded_lp + user_lp;
    Ok(())
}

/// Ends a batch: the record of the defunct pool counts the LP tokens refunded
/// in it; returns the record, the users refunded and the messages.
pub fn finish_refund_batch(batch: RefundBatch) -> (r: (DefunctPoolInfo, Vec<String>, Vec<VaultMsg>))
    requires
        batch.pool.total_refunded_lp_tokens + batch.refunded_lp <= u128::MAX,
    ensures
        r.0 == (DefunctPoolInfo { total_refunded_lp_tokens: (batch.pool.total_refunded_lp_tokens + batch.refunded_lp) as u128, ..batch.pool }),
        r.1 == batch.refunded,
        r.2 == batch.msgs,
{
    let mut pool = batch.pool;
    pool.total_refunded_lp_tokens = pool.total_refunded_lp_tokens + batch.refunded_lp;
    (pool, batch.refunded, batch.msgs)
}


/// Makes a pool defunct at `now`. The caller must be the owner or
/// whitelisted, the pool must exist and not be defunct, and with staking no
/// reward schedule (`schedules`, those of its LP token) may be running. The
/// record holds the balances the pool reports (`pool_assets`) and the LP
/// supply (`total_lp_supply`).
pub fn execute_defunct_pool(
    config: &VaultConfig,
    sender: &String,
    is_defunct: bool,
    stored: Option<PoolInfo>,
    schedules: &Vec<RewardSchedule>,
    pool_assets: Vec<Asset>,
    total_lp_supply: u128,
    now: u64,
) -> (r: Result<DefunctPoolInfo, ContractError>)
    ensures
        !is_authorized(*config, sender@) ==> r == Err::<DefunctPoolInfo, ContractError>(ContractError::Unauthorized),
        is_authorized(*config, sender@) ==> match pool_usable_spec(is_defunct, stored) {
            Err(e) => r == Err::<DefunctPoolInfo, ContractError>(e),
            Ok(p) => if config.auto_stake_impl is Multistaking && some_schedule_active(schedules@, now) {
                r == Err::<DefunctPoolInfo, ContractError>(ContractError::PoolHasActiveRewardSchedules)
            } else {
                r == Ok::<DefunctPoolInfo, ContractError>(DefunctPoolInfo {
                    pool_id: p.pool_id,
                    lp_token_addr: p.lp_token_addr,
                    total_assets_at_defunct: pool_assets,
                    total_lp_supply_at_defunct: total_lp_supply,
                    defunct_timestamp: now,
                    total_refunded_lp_tokens: 0,
                })
            },
        },
{
    let pool = defunct_precheck(config, sender, is_defunct, stored)?;
    validate_no_active_reward_schedules(&config.auto_stake_impl, schedules, now)?;
    Ok(build_defunct_pool_info(&pool, pool_assets, total_lp_supply, now))
}

/// What a batch of refunds has done so far, as mathematical values.
pub struct BatchView {
    pub refunded: Seq<String>,
    pub refunded_lp: nat,
    pub msgs: Seq<MsgView>,
}

/// A batch of refunds over the first `n` users of `users`: `stored[i]` says
/// whether user `i` was refunded before the batch, `lps[i]` how many LP
/// tokens the user holds in all. A user refunded already stops the batch;
/// a user without LP tokens is passed over.
pub open spec fn refund_batch_fold(pool: DefunctPoolInfo, users: Seq<String>, stored: Seq<bool>, lps: Seq<u128>, n: nat) -> Result<BatchView, ContractError>
    decreases n,
{
    if n == 0 {
        Ok(BatchView { refunded: seq![], refunded_lp: 0, msgs: seq![] })
    } else {
        match refund_batch_fold(pool, users, stored, lps, (n - 1) as nat) {
            Err(e) => Err(e),
            Ok(b) => {
                let user = users[n - 1];
                let lp = lps[n - 1];
                if stored[n - 1] || contains_str(b.refunded, user@) {
                    Err(ContractError::UserAlreadyRefunded)
                } else if lp == 0 {
                    Ok(b)
                } else if refund_fails(pool, lp) {
                    Err(ContractError::Overflow)
                } else {
                    Ok(BatchView {
                        refunded: b.refunded.push(user),
                        refunded_lp: b.refunded_lp + lp as nat,
                        msgs: b.msgs + refund_msgs(refund_spec(pool, lp), user),
                    })
                }
            },
        }
    }
}

/// The LP tokens counted by a batch fit in 128 bits at every step, and so
/// does the pool's refunded total once the batch is done.
pub open spec fn batch_fits(pool: DefunctPoolInfo, users: Seq<String>, stored: Seq<bool>, lps: Seq<u128>) -> bool {
    &&& forall|k: nat| k <= users.len() ==> (#[trigger] refund_batch_fold(pool, users, stored, lps, k) matches Ok(b) ==> b.refunded_lp <= u128::MAX)
    &&& refund_batch_fold(pool, users, stored, lps, users.len()) matches Ok(b) ==> pool.total_refunded_lp_tokens + b.refunded_lp <= u128::MAX
}

/// Once a batch stops with an error, it stays stopped.
pub proof fn lemma_batch_fold_err(pool: DefunctPoolInfo, users: Seq<String>, stored: Seq<bool>, lps: Seq<u128>, k: nat, n: nat)
    requires
        k <= n,
        refund_batch_fold(pool, users, stored, lps, k) is Err,
    ensures
        refund_batch_fold(pool, users, stored, lps, n) == refund_batch_fold(pool, users, stored, lps, k),
    decreases n - k,
{
    if k < n {
        lemma_batch_fold_err(pool, users, stored, lps, k, (n - 1) as nat);
    }
}

/// Whether the LP tokens a batch counts fit in 128 bits, as `batch_fits`
/// says: a batch for which this is false is one whose additions of LP
/// tokens overflow.
pub fn refund_batch_fits(pool: &DefunctPoolInfo, users: &Vec<String>, stored: &Vec<bool>, lps: &Vec<u128>) -> (r: bool)
    requires
        stored@.len() == users@.len(),
        lps@.len() == users@.len(),
    ensures
        r == batch_fits(*pool, users@, stored@, lps@),
{
    let ghost n = users@.len();
    let mut refunded: Vec<String> = Vec::new();
    let mut running: u128 = 0;
    let mut i: usize = 0;
    while i < users.len()
        invariant
            i <= users@.len(),
            n == users@.len(),
            stored@.len() == users@.len(),
            lps@.len() == users@.len(),
            refund_batch_fold(*pool, users@, stored@, lps@, i as nat) matches Ok(b) && b.refunded == refunded@ && b.refunded_lp == running,
            forall|k: nat| k <= i ==> (#[trigger] refund_batch_fold(*pool, users@, stored@, lps@, k) matches Ok(b) ==> b.refunded_lp <= u128::MAX),
        decreases users.len() - i,
    {
        let user = &users[i];
        let lp = lps[i];
        let ghost next = refund_batch_fold(*pool, users@, stored@, lps@, (i + 1) as nat);
        let seen = crate::vault::state::list_contains(&refunded, user);
        if stored[i] || seen {
            proof {
                assert(next is Err);
                assert forall|k: nat| k <= n implies (#[trigger] refund_batch_fold(*pool, users@, stored@, lps@, k) matches Ok(b) ==> b.refunded_lp <= u128::MAX) by {
                    if k > i {
                        lemma_batch_fold_err(*pool, users@, stored@, lps@, (i + 1) as nat, k);
                    }
                }
                lemma_batch_fold_err(*pool, users@, stored@, lps@, (i + 1) as nat, n);
            }
            return true;
        }
        if lp != 0 {
            let fails = pool.total_lp_supply_at_defunct != 0
                && calculate_proportional_refund(pool.total_lp_supply_at_defunct, lp, &pool.total_assets_at_defunct).is_err();
            if fails {
                proof {
                    assert(next is Err);
                    assert forall|k: nat| k <= n implies (#[trigger] refund_batch_fold(*pool, users@, stored@, lps@, k) matches Ok(b) ==> b.refunded_lp <= u128::MAX) by {
                        if k > i {
                            lemma_batch_fold_err(*pool, users@, stored@, lps@, (i + 1) as nat, k);
                        }
                    }
                    lemma_batch_fold_err(*pool, users@, stored@, lps@, (i + 1) as nat, n);
                }
                return true;
            }
            match running.checked_add(lp) {
                Some(x) => {
                    refunded.push(user.clone());
                    running = x;
                },
                None => {
                    proof {
                        assert(refund_batch_fold(*pool, users@, stored@, lps@, (i + 1) as nat) matches Ok(b) && b.refunded_lp > u128::MAX);
                    }
                    return false;
                },
            }
        }
        i = i + 1;
    }
    match pool.total_refunded_lp_tokens.checked_add(running) {
        Some(_) => true,
        None => false,
    }
}

/// Refunds a batch of users of a defunct pool (`defunct`, its record if it
/// is defunct). The caller must be the owner or whitelisted. For each user
/// in turn (`stored_refunded`: refunded before; `user_lps`: the LP tokens the
/// user holds directly, bonded and locked), as `refund_batch_fold` says.
/// Returns the record with the refunded LP tokens counted, the users
/// refunded and the transfers.
pub fn execute_process_refund_batch(
    config: &VaultConfig,
    sender: &String,
    defunct: Option<DefunctPoolInfo>,
    users: &Vec<String>,
    stored_refunded: &Vec<bool>,
    user_lps: &Vec<u128>,
) -> (r: Result<(DefunctPoolInfo, Vec<String>, Vec<VaultMsg>), ContractError>)
    requires
        stored_refunded@.len() == users@.len(),
        user_lps@.len() == users@.len(),
        defunct matches Some(p) ==> batch_fits(p, users@, stored_refunded@, user_lps@),
    ensures
        !is_authorized(*config, sender@) ==> r is Err && r->Err_0 == ContractError::Unauthorized,
        is_authorized(*config, sender@) && defunct is None ==> r is Err && r->Err_0 == ContractError::PoolNotDefunct,
        is_authorized(*config, sender@) && defunct is Some ==> {
            let p = defunct->Some_0;
            match refund_batch_fold(p, users@, stored_refunded@, user_lps@, users@.len()) {
                Err(e) => r is Err && r->Err_0 == e,
                Ok(b) => r is Ok && {
                    let (q, refunded, msgs) = r->Ok_0;
                    &&& q == (DefunctPoolInfo { total_refunded_lp_tokens: (p.total_refunded_lp_tokens + b.refunded_lp) as u128, ..p })
                    &&& refunded@ == b.refunded
                    &&& views(msgs@) == b.msgs
                },
            }
        },
        r matches Ok((_, refunded, _)) ==> {
            &&& forall|i: int, j: int| 0 <= i < j < refunded@.len() ==> (#[trigger] refunded@[i])@ != (#[trigger] refunded@[j])@
            &&& forall|i: int| #![trigger refunded@[i]] 0 <= i < refunded@.len() ==> exists|k: int| #![trigger users@[k]]
                0 <= k < users@.len() && users@[k] == refunded@[i] && !stored_refunded@[k]
        },
{
    let mut batch = start_refund_batch(config, sender, defunct)?;
    let ghost p = batch.pool;
    let mut i: usize = 0;
    while i < users.len()
        invariant
            i <= users@.len(),
            stored_refunded@.len() == users@.len(),
            user_lps@.len() == users@.len(),
            batch.pool == p,
            is_authorized(*config, sender@),
            defunct == Some(p),
            batch_fits(p, users@, stored_refunded@, user_lps@),
            refund_batch_fold(p, users@, stored_refunded@, user_lps@, i as nat) matches Ok(b) && {
                &&& batch.refunded@ == b.refunded
                &&& batch.refunded_lp == b.refunded_lp
                &&& views(batch.msgs@) == b.msgs
            },
        decreases users.len() - i,
    {
        let ghost b = refund_batch_fold(p, users@, stored_refunded@, user_lps@, i as nat)->Ok_0;
        assert(refund_batch_fold(p, users@, stored_refunded@, user_lps@, (i + 1) as nat) matches Ok(b2) ==> b2.refunded_lp <= u128::MAX);
        let user = &users[i];
        let lp = user_lps[i];
        match check_not_refunded(&batch, user, stored_refunded[i]) {
            Err(e) => {
                proof {
                    lemma_batch_fold_err(p, users@, stored_refunded@, user_lps@, (i + 1) as nat, users@.len());
                }
                return Err(e);
            },
            Ok(_) => {},
        }
        match refund_user(&mut batch, user, lp) {
            Err(e) => {
                proof {
                    lemma_batch_fold_err(p, users@, stored_refunded@, user_lps@, (i + 1) as nat, users@.len());
                }
                return Err(e);
            },
            Ok(_) => {},
        }
        i = i + 1;
    }
    proof {
        law_refund_batch_once(p, users@, stored_refunded@, user_lps@, users@.len());
    }
    let (pool, refunded, msgs) = finish_refund_batch(batch);
    Ok((pool, refunded, msgs))
}

/// A batch refunds no user twice, and none who was refunded before it.
pub proof fn law_refund_batch_once(pool: DefunctPoolInfo, users: Seq<String>, stored: Seq<bool>, lps: Seq<u128>, n: nat)
    requires
        n <= users.len(),
        stored.len() == users.len(),
        lps.len() == users.len(),
        refund_batch_fold(pool, users, stored, lps, n) is Ok,
    ensures
        ({
            let b = refund_batch_fold(pool, users, stored, lps, n)->Ok_0;
            &&& forall|i: int, j: int| 0 <= i < j < b.refunded.len() ==> (#[trigger] b.refunded[i])@ != (#[trigger] b.refunded[j])@
            &&& forall|i: int| #![trigger b.refunded[i]] 0 <= i < b.refunded.len() ==> exists|k: int| #![trigger users[k]] 0 <= k < n && users[k] == b.refunded[i] && !stored[k]
        }),
    decreases n,
{
    if n > 0 {
        law_refund_batch_once(pool, users, stored, lps, (n - 1) as nat);
        let b = refund_batch_fold(pool, users, stored, lps, (n - 1) as nat)->Ok_0;
        let c = refund_batch_fold(pool, users, stored, lps, n)->Ok_0;
        if c.refunded.len() > b.refunded.len() {
            assert(c.refunded == b.refunded.push(users[n - 1]));
            assert(!contains_str(b.refunded, users[n - 1]@));
            assert forall|i: int| #![trigger c.refunded[i]] 0 <= i < c.refunded.len() implies exists|k: int| #![trigger users[k]] 0 <= k < n && users[k] == c.refunded[i] && !stored[k] by {
                if i == b.refunded.len() {
                    assert(users[n - 1] == c.refunded[i]);
                } else {
                    assert(c.refunded[i] == b.refunded[i]);
                }
            }
            assert forall|i: int, j: int| 0 <= i < j < c.refunded.len() implies (#[trigger] c.refunded[i])@ != (#[trigger] c.refunded[j])@ by {
                if j == b.refunded.len() {
                    assert(c.refunded[i] == b.refunded[i]);
                    assert(c.refunded[j] == users[n - 1]);
                } else {
                    assert(c.refunded[i] == b.refunded[i]);
                    assert(c.refunded[j] == b.refunded[j]);
                }
            }
        }
    }
}

/// Across batches no user is refunded twice: when a later batch sees every
/// user an earlier batch refunded as refunded before (as the stored marks
/// record), the two batches refund disjoint sets of users.
pub proof fn law_no_user_refunded_twice(
    pool1: DefunctPoolInfo, users1: Seq<String>, stored1: Seq<bool>, lps1: Seq<u128>,
    pool2: DefunctPoolInfo, users2: Seq<String>, stored2: Seq<bool>, lps2: Seq<u128>,
)
    requires
        stored1.len() == users1.len(),
        lps1.len() == users1.len(),
        stored2.len() == users2.len(),
        lps2.len() == users2.len(),
        refund_batch_fold(pool1, users1, stored1, lps1, users1.len()) is Ok,
        refund_batch_fold(pool2, users2, stored2, lps2, users2.len()) is Ok,
        forall|k: int| 0 <= k < users2.len()
            && contains_str(refund_batch_fold(pool1, users1, stored1, lps1, users1.len())->Ok_0.refunded, (#[trigger] users2[k])@)
            ==> stored2[k],
    ensures
        ({
            let r1 = refund_batch_fold(pool1, users1, stored1, lps1, users1.len())->Ok_0.refunded;
            let r2 = refund_batch_fold(pool2, users2, stored2, lps2, users2.len())->Ok_0.refunded;
            forall|i: int, j: int| 0 <= i < r1.len() && 0 <= j < r2.len() ==> (#[trigger] r1[i])@ != (#[trigger] r2[j])@
        }),
{
    law_refund_batch_once(pool2, users2, stored2, lps2, users2.len());
    let r1 = refund_batch_fold(pool1, users1, stored1, lps1, users1.len())->Ok_0.refunded;
    let r2 = refund_batch_fold(pool2, users2, stored2, lps2, users2.len())->Ok_0.refunded;
    assert forall|i: int, j: int| 0 <= i < r1.len() && 0 <= j < r2.len() implies (#[trigger] r1[i])@ != (#[trigger] r2[j])@ by {
        let k = choose|k: int| 0 <= k < users2.len() && users2[k] == r2[j] && !stored2[k];
        if r1[i]@ == r2[j]@ {
            assert(contains_str(r1, users2[k]@));
        }
    }
}

} // verus!
