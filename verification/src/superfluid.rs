//! The superfluid-LP locker: users lock liquid-staking tokens, and later join
//! a pool with them (topped up by what they send) and have the LP tokens
//! bonded for them.
use vstd::prelude::*;
use crate::types::{Asset, AssetInfo, Coin};

verus! {

/// The locker's configuration.
#[derive(Clone, Debug)]
pub struct SuperfluidConfig {
    pub vault_addr: String,
    pub owner: String,
    /// The native tokens that can be locked.
    pub allowed_lockable_tokens: Vec<AssetInfo>,
}

/// Why a payment was refused.
#[derive(Clone, Debug)]
pub enum PaymentFailure {
    MissingDenom(String),
    ExtraDenom(String),
    MultipleDenoms,
    NoFunds,
    NonPayable,
}

/// Why the locker refused an operation.
#[derive(Clone, Debug)]
pub enum ContractError {
    InsufficientBalance { denom: String, available_balance: u128, required_balance: u128 },
    Unauthorized,
    UnsupportedAssetType,
    InvalidAmount,
    AssetNotAllowedToBeLocked,
    AssetNotInAllowedList,
    AssetAlreadyAllowedToBeLocked,
    PaymentError(PaymentFailure),
    DuplicateDenom,
}

/// Whether `info` is among `list` (same kind, same address or denom).
pub open spec fn listed(list: Seq<AssetInfo>, info: AssetInfo) -> bool {
    exists|i: int| 0 <= i < list.len() && (#[trigger] list[i])@ == info@
}

/// The first position of `info` in `list`, if any.
pub open spec fn first_index(list: Seq<AssetInfo>, info: AssetInfo) -> Option<nat>
    decreases list.len(),
{
    if list.len() == 0 {
        None
    } else if list[0]@ == info@ {
        Some(0)
    } else {
        match first_index(list.drop_first(), info) {
            Some(i) => Some(i + 1),
            None => None,
        }
    }
}

fn find_listed(list: &Vec<AssetInfo>, info: &AssetInfo) -> (r: Option<usize>)
    ensures
        match r {
            Some(i) => first_index(list@, *info) == Some(i as nat) && i < list@.len() && list@[i as int]@ == info@,
            None => first_index(list@, *info) is None && !listed(list@, *info),
        },
{
    let mut i: usize = 0;
    assert(list@.skip(0) =~= list@);
    while i < list.len()
        invariant
            i <= list.len(),
            forall|j: int| 0 <= j < i ==> (#[trigger] list@[j])@ != info@,
            first_index(list@, *info) == match first_index(list@.skip(i as int), *info) {
                Some(k) => Some((k + i) as nat),
                None => None::<nat>,
            },
        decreases list.len() - i,
    {
        assert(list@.skip(i as int).drop_first() =~= list@.skip(i as int + 1));
        assert(list@.skip(i as int)[0] == list@[i as int]);
        if list[i].same(info) {
            return Some(i);
        }
        i = i + 1;
    }
    assert(list@.skip(i as int).len() == 0);
    None
}

/// The checks of a new locker's tokens: only native tokens, none twice.
pub open spec fn lockable_tokens_error(tokens: Seq<AssetInfo>) -> Option<ContractError>
    decreases tokens.len(),
{
    if tokens.len() == 0 {
        None
    } else {
        match lockable_tokens_error(tokens.drop_last()) {
            Some(e) => Some(e),
            None => match tokens.last() {
                AssetInfo::Token { .. } => Some(ContractError::UnsupportedAssetType),
                AssetInfo::NativeToken { .. } => if listed(tokens.drop_last(), tokens.last()) {
                    Some(ContractError::DuplicateDenom)
                } else {
                    None
                },
            },
        }
    }
}

proof fn lemma_lockable_prefix(tokens: Seq<AssetInfo>, k: int, j: int)
    requires
        0 <= k <= j <= tokens.len(),
        lockable_tokens_error(tokens.take(k)) is Some,
    ensures
        lockable_tokens_error(tokens.take(j)) == lockable_tokens_error(tokens.take(k)),
    decreases j - k,
{
    if k < j {
        lemma_lockable_prefix(tokens, k, j - 1);
        assert(tokens.take(j).drop_last() =~= tokens.take(j - 1));
    }
}

/// Sets a locker up: the tokens that can be locked must be native tokens,
/// none named twice.
pub fn instantiate(vault_addr: String, owner: String, allowed_lockable_tokens: Vec<AssetInfo>) -> (r: Result<SuperfluidConfig, ContractError>)
    ensures
        match r {
            Ok(c) => lockable_tokens_error(allowed_lockable_tokens@) is None
                && c == (SuperfluidConfig { vault_addr, owner, allowed_lockable_tokens }),
            Err(e) => lockable_tokens_error(allowed_lockable_tokens@) == Some(e),
        },
{
    let mut i: usize = 0;
    while i < allowed_lockable_tokens.len()
        invariant
            i <= allowed_lockable_tokens.len(),
            lockable_tokens_error(allowed_lockable_tokens@.take(i as int)) is None,
        decreases allowed_lockable_tokens.len() - i,
    {
        let ghost prefix = allowed_lockable_tokens@.take(i as int);
        assert(allowed_lockable_tokens@.take(i as int + 1).drop_last() =~= prefix);
        match &allowed_lockable_tokens[i] {
            AssetInfo::NativeToken { .. } => {
                let mut j: usize = 0;
                while j < i
                    invariant
                        j <= i,
                        i < allowed_lockable_tokens.len(),
                        prefix == allowed_lockable_tokens@.take(i as int),
                        lockable_tokens_error(prefix) is None,
                        allowed_lockable_tokens@.take(i as int + 1).drop_last() == prefix,
                        allowed_lockable_tokens@[i as int] is NativeToken,
                        forall|k: int| 0 <= k < j ==> (#[trigger] prefix[k])@ != allowed_lockable_tokens@[i as int]@,
                    decreases i - j,
                {
                    if allowed_lockable_tokens[j].same(&allowed_lockable_tokens[i]) {
                        proof {
                            assert(prefix[j as int] == allowed_lockable_tokens@[j as int]);
                            assert(allowed_lockable_tokens@.take(i as int + 1).last() == allowed_lockable_tokens@[i as int]);
                            assert(listed(prefix, allowed_lockable_tokens@[i as int]));
                            lemma_lockable_prefix(allowed_lockable_tokens@, i as int + 1, allowed_lockable_tokens@.len() as int);
                            assert(allowed_lockable_tokens@.take(allowed_lockable_tokens@.len() as int) =~= allowed_lockable_tokens@);
                        }
                        return Err(ContractError::DuplicateDenom);
                    }
                    j = j + 1;
                }
            },
            AssetInfo::Token { .. } => {
                proof {
                    assert(allowed_lockable_tokens@.take(i as int + 1).last() == allowed_lockable_tokens@[i as int]);
                    lemma_lockable_prefix(allowed_lockable_tokens@, i as int + 1, allowed_lockable_tokens@.len() as int);
                    assert(allowed_lockable_tokens@.take(allowed_lockable_tokens@.len() as int) =~= allowed_lockable_tokens@);
                }
                return Err(ContractError::UnsupportedAssetType);
            },
        }
        proof {
            assert(allowed_lockable_tokens@.take(i as int + 1).last() == allowed_lockable_tokens@[i as int]);
            if listed(prefix, allowed_lockable_tokens@[i as int]) {
                let k = choose|k: int| 0 <= k < prefix.len() && (#[trigger] prefix[k])@ == allowed_lockable_tokens@[i as int]@;
                assert(false);
            }
        }
        i = i + 1;
    }
    assert(allowed_lockable_tokens@.take(allowed_lockable_tokens.len() as int) =~= allowed_lockable_tokens@);
    Ok(SuperfluidConfig { vault_addr, owner, allowed_lockable_tokens })
}

/// What `cw_utils::must_pay` gives for `funds` and `denom`: exactly one coin
/// of a positive amount must have been sent, of that denom.
pub open spec fn must_pay_spec(funds: Seq<Coin>, denom: Seq<char>) -> Result<nat, PaymentFailure> {
    if funds.len() == 0 {
        Err(PaymentFailure::NoFunds)
    } else if funds.len() > 1 {
        Err(PaymentFailure::MultipleDenoms)
    } else if funds[0].amount == 0 {
        Err(PaymentFailure::NoFunds)
    } else if funds[0].denom@ != denom {
        Err(PaymentFailure::MissingDenom(funds[0].denom))
    } else {
        Ok(funds[0].amount as nat)
    }
}

/// The amount of `denom` paid with a message, by `cw_utils::must_pay`.
/// Trusted: its result is as the crate's source shows (`must_pay_spec`), the
/// denom in `MissingDenom` being the one asked for.
#[verifier::external_body]
fn must_pay(funds: &Vec<Coin>, denom: &String) -> (r: Result<u128, PaymentFailure>)
    ensures
        match (r, must_pay_spec(funds@, denom@)) {
            (Ok(a), Ok(b)) => a == b,
            (Err(PaymentFailure::MissingDenom(d)), Err(PaymentFailure::MissingDenom(_))) => d@ == denom@,
            (Err(x), Err(y)) => !(y is MissingDenom) && x == y,
            _ => false,
        },
{
    let info = cosmwasm_std::MessageInfo {
        sender: cosmwasm_std::Addr::unchecked(""),
        funds: funds.iter().map(|c| cosmwasm_std::Coin::new(c.amount, c.denom.clone())).collect(),
    };
    match cw_utils::must_pay(&info, denom) {
        Ok(a) => Ok(a.u128()),
        Err(cw_utils::PaymentError::MissingDenom(d)) => Err(PaymentFailure::MissingDenom(d)),
        Err(cw_utils::PaymentError::ExtraDenom(d)) => Err(PaymentFailure::ExtraDenom(d)),
        Err(cw_utils::PaymentError::MultipleDenoms {}) => Err(PaymentFailure::MultipleDenoms),
        Err(cw_utils::PaymentError::NoFunds {}) => Err(PaymentFailure::NoFunds),
        Err(cw_utils::PaymentError::NonPayable {}) => Err(PaymentFailure::NonPayable),
    }
}

/// Locks `asset`, paid with `funds`, for a user who had `locked` of it
/// locked: the asset must be lockable, a native token, and paid for exactly.
/// Returns the new locked amount.
pub fn lock_lst_asset(config: &SuperfluidConfig, asset: &Asset, funds: &Vec<Coin>, locked: u128) -> (r: Result<u128, ContractError>)
    requires
        locked + asset.amount <= u128::MAX,
    ensures
        !listed(config.allowed_lockable_tokens@, asset.info) ==> r matches Err(ContractError::AssetNotAllowedToBeLocked),
        listed(config.allowed_lockable_tokens@, asset.info) && asset.info is Token ==> r matches Err(ContractError::UnsupportedAssetType),
        listed(config.allowed_lockable_tokens@, asset.info) && asset.info is NativeToken ==> match must_pay_spec(funds@, asset.info.label()) {
            Err(PaymentFailure::MissingDenom(_)) => (r matches Err(ContractError::PaymentError(PaymentFailure::MissingDenom(d))) && d@ == asset.info.label()),
            Err(p) => r == Err::<u128, ContractError>(ContractError::PaymentError(p)),
            Ok(paid) => if paid != asset.amount {
                r matches Err(ContractError::InvalidAmount)
            } else {
                r == Ok::<u128, ContractError>((locked + asset.amount) as u128)
            },
        },
{
    if find_listed(&config.allowed_lockable_tokens, &asset.info).is_none() {
        return Err(ContractError::AssetNotAllowedToBeLocked);
    }
    match &asset.info {
        AssetInfo::NativeToken { denom } => {
            let paid = match must_pay(funds, denom) {
                Ok(a) => a,
                Err(e) => return Err(ContractError::PaymentError(e)),
            };
            if paid != asset.amount {
                return Err(ContractError::InvalidAmount);
            }
        },
        AssetInfo::Token { .. } => {
            return Err(ContractError::UnsupportedAssetType);
        },
    }
    Ok(locked + asset.amount)
}

/// Sets a new vault; only the owner may.
pub fn update_config(config: &SuperfluidConfig, sender: &String, vault_addr: Option<String>) -> (r: Result<SuperfluidConfig, ContractError>)
    ensures
        sender@ != config.owner@ ==> r matches Err(ContractError::Unauthorized),
        sender@ == config.owner@ ==> (r matches Ok(c) && c.owner == config.owner
            && c.allowed_lockable_tokens@ == config.allowed_lockable_tokens@
            && c.vault_addr == match vault_addr { Some(v) => v, None => config.vault_addr }),
{
    if !sender.eq(&config.owner) {
        return Err(ContractError::Unauthorized);
    }
    let vault = match vault_addr {
        Some(v) => v,
        None => config.vault_addr.clone(),
    };
    Ok(SuperfluidConfig { vault_addr: vault, owner: config.owner.clone(), allowed_lockable_tokens: copy_infos(&config.allowed_lockable_tokens) })
}

/// A copy of a list of identifiers.
fn copy_infos(v: &Vec<AssetInfo>) -> (r: Vec<AssetInfo>)
    ensures
        r@ == v@,
{
    let mut r: Vec<AssetInfo> = Vec::new();
    let mut i: usize = 0;
    while i < v.len()
        invariant
            i <= v.len(),
            r@ == v@.take(i as int),
        decreases v.len() - i,
    {
        r.push(v[i].copy());
        assert(v@.take(i as int + 1) =~= v@.take(i as int).push(v@[i as int]));
        i = i + 1;
    }
    assert(v@.take(v.len() as int) =~= v@);
    r
}

/// Allows another native token to be locked; only the owner may.
pub fn add_allowed_lockable_token(config: &SuperfluidConfig, sender: &String, asset_info: AssetInfo) -> (r: Result<Vec<AssetInfo>, ContractError>)
    ensures
        sender@ != config.owner@ ==> r matches Err(ContractError::Unauthorized),
        sender@ == config.owner@ && asset_info is Token ==> r matches Err(ContractError::UnsupportedAssetType),
        sender@ == config.owner@ && asset_info is NativeToken && listed(config.allowed_lockable_tokens@, asset_info)
            ==> r matches Err(ContractError::AssetAlreadyAllowedToBeLocked),
        sender@ == config.owner@ && asset_info is NativeToken && !listed(config.allowed_lockable_tokens@, asset_info)
            ==> (r matches Ok(v) && v@ == config.allowed_lockable_tokens@.push(asset_info)),
{
    if !sender.eq(&config.owner) {
        return Err(ContractError::Unauthorized);
    }
    if let AssetInfo::Token { .. } = asset_info {
        return Err(ContractError::UnsupportedAssetType);
    }
    if find_listed(&config.allowed_lockable_tokens, &asset_info).is_some() {
        return Err(ContractError::AssetAlreadyAllowedToBeLocked);
    }
    let mut v = copy_infos(&config.allowed_lockable_tokens);
    v.push(asset_info);
    Ok(v)
}

/// Stops a token from being lockable; only the owner may. Its first entry is removed.
pub fn remove_allowed_lockable_token(config: &SuperfluidConfig, sender: &String, asset_info: &AssetInfo) -> (r: Result<Vec<AssetInfo>, ContractError>)
    ensures
        sender@ != config.owner@ ==> r matches Err(ContractError::Unauthorized),
        sender@ == config.owner@ ==> match first_index(config.allowed_lockable_tokens@, *asset_info) {
            None => r matches Err(ContractError::AssetNotInAllowedList),
            Some(i) => (r matches Ok(v) && v@ == config.allowed_lockable_tokens@.remove(i as int)),
        },
{
    if !sender.eq(&config.owner) {
        return Err(ContractError::Unauthorized);
    }
    match find_listed(&config.allowed_lockable_tokens, asset_info) {
        None => Err(ContractError::AssetNotInAllowedList),
        Some(i) => {
            let mut v = copy_infos(&config.allowed_lockable_tokens);
            v.remove(i);
            Ok(v)
        },
    }
}

/// A token that was not lockable, once allowed and then removed again,
/// leaves the list as it was.
pub proof fn law_allow_then_remove(list: Seq<AssetInfo>, info: AssetInfo)
    requires
        !listed(list, info),
    ensures
        first_index(list.push(info), info) == Some(list.len()),
        list.push(info).remove(list.len() as int) == list,
    decreases list.len(),
{
    if list.len() > 0 {
        assert(list[0]@ != info@) by {
            assert(list[0] == list[0]);
        }
        assert(!listed(list.drop_first(), info)) by {
            if listed(list.drop_first(), info) {
                let i = choose|i: int| 0 <= i < list.drop_first().len() && (#[trigger] list.drop_first()[i])@ == info@;
                assert(list[i + 1] == list.drop_first()[i]);
            }
        }
        law_allow_then_remove(list.drop_first(), info);
        assert(list.push(info).drop_first() =~= list.drop_first().push(info));
    }
    assert(list.push(info).remove(list.len() as int) =~= list);
}

/// The amount of a token that a user has locked.
#[derive(Clone, Debug)]
pub struct LockedBalance {
    pub denom: String,
    pub amount: u128,
}

/// What the locker asks the chain to do when joining a pool for a user.
#[derive(Clone, Debug)]
pub enum SuperfluidMsg {
    /// Move `amount` of the CW20 `token` from `owner` to `recipient`.
    TransferFromUser { token: String, owner: String, recipient: String, amount: u128 },
    /// Let `spender` move `amount` of the CW20 `token` held by the locker.
    IncreaseAllowance { token: String, spender: String, amount: u128 },
    /// Send back `amount` of the native `denom` to `recipient`.
    Refund { denom: String, recipient: String, amount: u128 },
    /// Join pool `pool_id` at `vault` with `assets`, paying `funds`, for
    /// `recipient`, with the LP tokens bonded when `auto_stake`.
    JoinPool {
        vault: String,
        pool_id: u128,
        recipient: String,
        assets: Vec<Asset>,
        min_lp_to_receive: Option<u128>,
        auto_stake: bool,
        funds: Vec<Coin>,
    },
}

/// A locker message as a mathematical value.
pub enum SuperfluidMsgView {
    TransferFromUser { token: String, owner: String, recipient: String, amount: u128 },
    IncreaseAllowance { token: String, spender: String, amount: u128 },
    Refund { denom: String, recipient: String, amount: u128 },
    JoinPool {
        vault: String,
        pool_id: u128,
        recipient: String,
        assets: Seq<Asset>,
        min_lp_to_receive: Option<u128>,
        auto_stake: bool,
        funds: Seq<Coin>,
    },
}

impl View for SuperfluidMsg {
    type V = SuperfluidMsgView;

    open spec fn view(&self) -> SuperfluidMsgView {
        match self {
            SuperfluidMsg::TransferFromUser { token, owner, recipient, amount } =>
                SuperfluidMsgView::TransferFromUser { token: *token, owner: *owner, recipient: *recipient, amount: *amount },
            SuperfluidMsg::IncreaseAllowance { token, spender, amount } =>
                SuperfluidMsgView::IncreaseAllowance { token: *token, spender: *spender, amount: *amount },
            SuperfluidMsg::Refund { denom, recipient, amount } =>
                SuperfluidMsgView::Refund { denom: *denom, recipient: *recipient, amount: *amount },
            SuperfluidMsg::JoinPool { vault, pool_id, recipient, assets, min_lp_to_receive, auto_stake, funds } =>
                SuperfluidMsgView::JoinPool {
                    vault: *vault,
                    pool_id: *pool_id,
                    recipient: *recipient,
                    assets: assets@,
                    min_lp_to_receive: *min_lp_to_receive,
                    auto_stake: *auto_stake,
                    funds: funds@,
                },
        }
    }
}

/// The views of a sequence of locker messages.
pub open spec fn sf_views(s: Seq<SuperfluidMsg>) -> Seq<SuperfluidMsgView> {
    s.map_values(|m: SuperfluidMsg| m@)
}

/// Whether some string of `s` reads `d`.
pub open spec fn has_text(s: Seq<String>, d: Seq<char>) -> bool {
    exists|j: int| 0 <= j < s.len() && (#[trigger] s[j])@ == d
}

/// The denoms of `funds`, each once, in the order they first appear.
pub open spec fn distinct_denoms(funds: Seq<Coin>) -> Seq<String>
    decreases funds.len(),
{
    if funds.len() == 0 {
        seq![]
    } else {
        let r = distinct_denoms(funds.drop_last());
        if has_text(r, funds.last().denom@) { r } else { r.push(funds.last().denom) }
    }
}

/// The amount sent of `denom`: that of the last coin of that denom, or zero.
pub open spec fn fund_amount(funds: Seq<Coin>, denom: Seq<char>) -> nat
    decreases funds.len(),
{
    if funds.len() == 0 {
        0
    } else if funds.last().denom@ == denom {
        funds.last().amount as nat
    } else {
        fund_amount(funds.drop_last(), denom)
    }
}

/// The first position of a string reading `d` in `s`, or -1.
pub open spec fn pos(s: Seq<String>, d: Seq<char>) -> int
    decreases s.len(),
{
    if s.len() == 0 {
        -1
    } else if s[0]@ == d {
        0
    } else {
        let p = pos(s.drop_first(), d);
        if p < 0 { -1 } else { p + 1 }
    }
}

/// The amount a user had locked of `denom` before: that of the first entry, or zero.
pub open spec fn stored_lock(locks: Seq<LockedBalance>, denom: Seq<char>) -> nat
    decreases locks.len(),
{
    if locks.len() == 0 {
        0
    } else if locks[0].denom@ == denom {
        locks[0].amount as nat
    } else {
        stored_lock(locks.drop_first(), denom)
    }
}

/// The amount a user has locked of `denom` now: the last amount written, or
/// the one stored before.
pub open spec fn current_lock(locks: Seq<LockedBalance>, saves: Seq<LockedBalance>, denom: Seq<char>) -> nat
    decreases saves.len(),
{
    if saves.len() == 0 {
        stored_lock(locks, denom)
    } else if saves.last().denom@ == denom {
        saves.last().amount as nat
    } else {
        current_lock(locks, saves.drop_last(), denom)
    }
}

/// Joining for a user, part way: what is left of each denom sent (indexed as
/// `distinct_denoms`), the locked amounts written, the messages, and the coins
/// to pay the vault.
pub struct BondState {
    pub left: Seq<Option<nat>>,
    pub saves: Seq<LockedBalance>,
    pub msgs: Seq<SuperfluidMsgView>,
    pub coins: Seq<Coin>,
}

/// Why a join is refused, or that one of its additions would overflow.
pub enum BondRefusal {
    Error(ContractError),
    Panic,
}

/// One asset of the join. A native token is paid first from what was sent
/// and then from what is locked; what was sent beyond it goes back. A CW20 is
/// pulled from the user and the vault allowed to take it.
pub open spec fn bond_step(st: BondState, a: Asset, funds: Seq<Coin>, locks: Seq<LockedBalance>, sender: String, vault: String, this: String) -> Result<BondState, BondRefusal> {
    match a.info {
        AssetInfo::NativeToken { denom } => {
            let d = denom@;
            let sent = fund_amount(funds, d);
            let k = pos(distinct_denoms(funds), d);
            let total = a.amount;
            let coins = st.coins.push(Coin { denom, amount: total });
            if sent == total {
                Ok(BondState { left: if k >= 0 { st.left.update(k, None) } else { st.left }, coins, ..st })
            } else if sent > total {
                Ok(BondState { left: st.left.update(k, Some((sent - total) as nat)), coins, ..st })
            } else {
                let locked = current_lock(locks, st.saves, d);
                if sent + locked > u128::MAX {
                    Err(BondRefusal::Panic)
                } else if total > sent + locked {
                    Err(BondRefusal::Error(ContractError::InsufficientBalance {
                        denom,
                        available_balance: (sent + locked) as u128,
                        required_balance: total,
                    }))
                } else {
                    Ok(BondState {
                        left: if k >= 0 { st.left.update(k, None) } else { st.left },
                        saves: st.saves.push(LockedBalance { denom, amount: (locked - (total - sent)) as u128 }),
                        coins,
                        ..st
                    })
                }
            }
        },
        AssetInfo::Token { contract_addr } => Ok(BondState {
            msgs: st.msgs + seq![
                SuperfluidMsgView::TransferFromUser { token: contract_addr, owner: sender, recipient: this, amount: a.amount },
                SuperfluidMsgView::IncreaseAllowance { token: contract_addr, spender: vault, amount: a.amount },
            ],
            ..st
        }),
    }
}

/// Nothing spent yet: everything sent is left.
pub open spec fn bond_start(funds: Seq<Coin>) -> BondState {
    let dd = distinct_denoms(funds);
    BondState {
        left: Seq::new(dd.len(), |k: int| Some(fund_amount(funds, dd[k]@))),
        saves: seq![],
        msgs: seq![],
        coins: seq![],
    }
}

/// The join after its first `i` assets.
pub open spec fn bond_fold(assets: Seq<Asset>, funds: Seq<Coin>, locks: Seq<LockedBalance>, sender: String, vault: String, this: String, i: nat) -> Result<BondState, BondRefusal>
    decreases i,
{
    if i == 0 {
        Ok(bond_start(funds))
    } else {
        match bond_fold(assets, funds, locks, sender, vault, this, (i - 1) as nat) {
            Err(e) => Err(e),
            Ok(st) => bond_step(st, assets[i - 1], funds, locks, sender, vault, this),
        }
    }
}

proof fn lemma_bond_fold_err(assets: Seq<Asset>, funds: Seq<Coin>, locks: Seq<LockedBalance>, sender: String, vault: String, this: String, i: nat, j: nat)
    requires
        i <= j,
        bond_fold(assets, funds, locks, sender, vault, this, i) is Err,
    ensures
        bond_fold(assets, funds, locks, sender, vault, this, j) == bond_fold(assets, funds, locks, sender, vault, this, i),
    decreases j - i,
{
    if i < j {
        lemma_bond_fold_err(assets, funds, locks, sender, vault, this, i, (j - 1) as nat);
    }
}

/// Joining never raises what a user has locked: after any number of the
/// join's assets, the locked amount of every denom is at most the amount
/// locked before the join.
pub proof fn law_join_never_raises_locks(
    assets: Seq<Asset>,
    funds: Seq<Coin>,
    locks: Seq<LockedBalance>,
    sender: String,
    vault: String,
    this: String,
    i: nat,
    denom: Seq<char>,
)
    requires
        i <= assets.len(),
        bond_fold(assets, funds, locks, sender, vault, this, i) is Ok,
    ensures
        current_lock(locks, bond_fold(assets, funds, locks, sender, vault, this, i)->Ok_0.saves, denom) <= stored_lock(locks, denom),
    decreases i,
{
    if i > 0 {
        let prev = bond_fold(assets, funds, locks, sender, vault, this, (i - 1) as nat);
        assert(prev is Ok);
        law_join_never_raises_locks(assets, funds, locks, sender, vault, this, (i - 1) as nat, denom);
        let st = prev->Ok_0;
        let st2 = bond_fold(assets, funds, locks, sender, vault, this, i)->Ok_0;
        if st2.saves.len() > st.saves.len() {
            let a = assets[i - 1];
            let d = a.info.label();
            assert(st2.saves == st.saves.push(st2.saves.last()));
            assert(st2.saves.drop_last() == st.saves);
            assert(st2.saves.last().denom@ == d);
            assert(st2.saves.last().amount <= current_lock(locks, st.saves, d));
        } else {
            assert(st2.saves == st.saves);
        }
    }
}

/// Where `pos` can point: into `s`, at a string reading `d`; and it points
/// somewhere whenever one does.
proof fn lemma_pos_props(s: Seq<String>, d: Seq<char>)
    ensures
        -1 <= pos(s, d) < s.len(),
        pos(s, d) >= 0 ==> s[pos(s, d)]@ == d,
        has_text(s, d) ==> pos(s, d) >= 0,
    decreases s.len(),
{
    if s.len() > 0 && s[0]@ != d {
        lemma_pos_props(s.drop_first(), d);
        if has_text(s, d) {
            let j = choose|j: int| 0 <= j < s.len() && (#[trigger] s[j])@ == d;
            assert(s.drop_first()[j - 1] == s[j]);
        }
        if pos(s, d) >= 0 {
            assert(s.drop_first()[pos(s, d) - 1] == s[pos(s, d)]);
        }
    }
}

/// A denom sent in a positive amount is among the denoms sent.
proof fn lemma_sent_listed(funds: Seq<Coin>, d: Seq<char>)
    ensures
        fund_amount(funds, d) > 0 ==> has_text(distinct_denoms(funds), d),
    decreases funds.len(),
{
    if funds.len() > 0 {
        let r = distinct_denoms(funds.drop_last());
        lemma_sent_listed(funds.drop_last(), d);
        if !has_text(r, funds.last().denom@) {
            let r2 = r.push(funds.last().denom);
            assert(r2[r.len() as int] == funds.last().denom);
            if has_text(r, d) {
                let j = choose|j: int| 0 <= j < r.len() && (#[trigger] r[j])@ == d;
                assert(r2[j] == r[j]);
            }
        }
    }
}

/// Every partial join has one left amount per denom sent.
proof fn lemma_bond_left_len(assets: Seq<Asset>, funds: Seq<Coin>, locks: Seq<LockedBalance>, sender: String, vault: String, this: String, i: nat)
    requires
        bond_fold(assets, funds, locks, sender, vault, this, i) is Ok,
    ensures
        bond_fold(assets, funds, locks, sender, vault, this, i)->Ok_0.left.len() == distinct_denoms(funds).len(),
    decreases i,
{
    if i > 0 {
        lemma_bond_left_len(assets, funds, locks, sender, vault, this, (i - 1) as nat);
        if let AssetInfo::NativeToken { denom } = assets[i - 1].info {
            lemma_pos_props(distinct_denoms(funds), denom@);
            lemma_sent_listed(funds, denom@);
        }
    }
}

/// A native asset of a join is paid from what was sent of its denom and, for
/// the rest, from what the user has locked: what is then left to refund of
/// that denom, plus the amount handed to the pool, equals what was sent plus
/// what was taken off the lock. The lock is drawn on only for what was not
/// sent, so a denom sent in exactly the amount joined is not refunded.
pub proof fn law_join_spends_sent_before_locked(
    assets: Seq<Asset>,
    funds: Seq<Coin>,
    locks: Seq<LockedBalance>,
    sender: String,
    vault: String,
    this: String,
    i: nat,
    denom: String,
)
    requires
        i < assets.len(),
        assets[i as int].info == (AssetInfo::NativeToken { denom }),
        bond_fold(assets, funds, locks, sender, vault, this, i + 1) is Ok,
    ensures
        bond_fold(assets, funds, locks, sender, vault, this, i) is Ok,
        ({
            let st = bond_fold(assets, funds, locks, sender, vault, this, i)->Ok_0;
            let st2 = bond_fold(assets, funds, locks, sender, vault, this, i + 1)->Ok_0;
            let k = pos(distinct_denoms(funds), denom@);
            let refund: nat = if k >= 0 && st2.left[k] is Some { st2.left[k]->Some_0 } else { 0 };
            let sent = fund_amount(funds, denom@);
            let total = assets[i as int].amount as nat;
            let before = current_lock(locks, st.saves, denom@);
            let after = current_lock(locks, st2.saves, denom@);
            &&& st2.coins == st.coins.push(Coin { denom, amount: assets[i as int].amount })
            &&& after <= before
            &&& refund + total == sent + (before - after)
            &&& (sent >= total ==> after == before)
            &&& (sent == total ==> refund == 0)
        }),
{
    let st = bond_fold(assets, funds, locks, sender, vault, this, i)->Ok_0;
    assert(bond_fold(assets, funds, locks, sender, vault, this, i) is Ok);
    lemma_bond_left_len(assets, funds, locks, sender, vault, this, i);
    lemma_pos_props(distinct_denoms(funds), denom@);
    lemma_sent_listed(funds, denom@);
    let st2 = bond_fold(assets, funds, locks, sender, vault, this, i + 1)->Ok_0;
    let sent = fund_amount(funds, denom@);
    let total = assets[i as int].amount as nat;
    if sent < total {
        let locked = current_lock(locks, st.saves, denom@);
        assert(st2.saves.drop_last() == st.saves);
        assert(current_lock(locks, st2.saves, denom@) == locked - (total - sent));
    } else {
        assert(st2.saves == st.saves);
    }
}

/// The refunds of what is left, in the order the denoms were first sent.
pub open spec fn refunds(left: Seq<Option<nat>>, denoms: Seq<String>, sender: String, k: nat) -> Seq<SuperfluidMsgView>
    decreases k,
{
    if k == 0 {
        seq![]
    } else {
        let prev = refunds(left, denoms, sender, (k - 1) as nat);
        match left[k - 1] {
            Some(v) => prev.push(SuperfluidMsgView::Refund { denom: denoms[k - 1], recipient: sender, amount: v as u128 }),
            None => prev,
        }
    }
}

/// The left amounts as mathematical values.
pub open spec fn left_view(left: Seq<Option<u128>>) -> Seq<Option<nat>> {
    left.map_values(|o: Option<u128>| match o { Some(v) => Some(v as nat), None => None::<nat> })
}

proof fn lemma_pos(s: Seq<String>, d: Seq<char>, k: int)
    requires
        -1 <= k < s.len(),
        k >= 0 ==> s[k]@ == d,
        forall|j: int| 0 <= j < s.len() && (k < 0 || j < k) ==> (#[trigger] s[j])@ != d,
    ensures
        pos(s, d) == k,
    decreases s.len(),
{
    if s.len() > 0 && k != 0 {
        assert forall|j: int| 0 <= j < s.drop_first().len() && (k - 1 < 0 || j < k - 1) implies (#[trigger] s.drop_first()[j])@ != d by {
            assert(s.drop_first()[j] == s[j + 1]);
        }
        if k > 0 {
            assert(s.drop_first()[k - 1] == s[k]);
        }
        lemma_pos(s.drop_first(), d, if k < 0 { -1 } else { k - 1 });
    }
}

/// The first position of a string reading `d` in `s`.
fn find_text(s: &Vec<String>, d: &String) -> (r: Option<usize>)
    ensures
        match r {
            Some(k) => k < s@.len() && pos(s@, d@) == k && s@[k as int]@ == d@,
            None => pos(s@, d@) == -1 && !has_text(s@, d@),
        },
{
    let mut i: usize = 0;
    while i < s.len()
        invariant
            i <= s.len(),
            forall|j: int| 0 <= j < i ==> (#[trigger] s@[j])@ != d@,
        decreases s.len() - i,
    {
        if s[i].eq(d) {
            proof { lemma_pos(s@, d@, i as int); }
            return Some(i);
        }
        i = i + 1;
    }
    proof { lemma_pos(s@, d@, -1); }
    None
}

/// The denoms sent, each once in the order first sent, with the amount of the last coin of each.
fn collect_funds(funds: &Vec<Coin>) -> (r: (Vec<String>, Vec<u128>))
    ensures
        r.0@ == distinct_denoms(funds@),
        r.1@.len() == r.0@.len(),
        forall|k: int| 0 <= k < r.1@.len() ==> r.1@[k] == fund_amount(funds@, (#[trigger] r.0@[k])@),
        forall|x: Seq<char>| !has_text(r.0@, x) ==> fund_amount(funds@, x) == 0,
{
    let mut denoms: Vec<String> = Vec::new();
    let mut amounts: Vec<u128> = Vec::new();
    let mut i: usize = 0;
    while i < funds.len()
        invariant
            i <= funds.len(),
            denoms@ == distinct_denoms(funds@.take(i as int)),
            amounts@.len() == denoms@.len(),
            forall|a: int, b: int| 0 <= a < b < denoms@.len() ==> (#[trigger] denoms@[a])@ != (#[trigger] denoms@[b])@,
            forall|k: int| 0 <= k < amounts@.len() ==> amounts@[k] == fund_amount(funds@.take(i as int), (#[trigger] denoms@[k])@),
            forall|x: Seq<char>| !has_text(denoms@, x) ==> fund_amount(funds@.take(i as int), x) == 0,
        decreases funds.len() - i,
    {
        let ghost prev = funds@.take(i as int);
        let ghost next = funds@.take(i as int + 1);
        assert(next.drop_last() =~= prev);
        assert(next.last() == funds@[i as int]);
        let c = &funds[i];
        match find_text(&denoms, &c.denom) {
            Some(k) => {
                proof {
                    assert(denoms@[k as int]@ == c.denom@);
                    assert(has_text(denoms@, c.denom@));
                }
                amounts.set(k, c.amount);
                assert forall|j: int| 0 <= j < amounts@.len() implies amounts@[j] == fund_amount(next, (#[trigger] denoms@[j])@) by {
                    if j != k {
                        assert(denoms@[j]@ != denoms@[k as int]@);
                    }
                }
            },
            None => {
                let ghost old_denoms = denoms@;
                denoms.push(c.denom.clone());
                amounts.push(c.amount);
                assert forall|x: Seq<char>| !has_text(denoms@, x) implies fund_amount(next, x) == 0 by {
                    assert(denoms@[denoms@.len() - 1] == c.denom);
                    if has_text(old_denoms, x) {
                        let j = choose|j: int| 0 <= j < old_denoms.len() && (#[trigger] old_denoms[j])@ == x;
                        assert(denoms@[j] == old_denoms[j]);
                    }
                }
                assert forall|j: int| 0 <= j < amounts@.len() implies amounts@[j] == fund_amount(next, (#[trigger] denoms@[j])@) by {
                    if j < old_denoms.len() {
                        assert(denoms@[j] == old_denoms[j]);
                        assert(old_denoms[j]@ != c.denom@);
                    }
                }
            },
        }
        i = i + 1;
    }
    assert(funds@.take(funds.len() as int) =~= funds@);
    (denoms, amounts)
}

/// The amount of `denom` a user has locked now, given the amounts `locks`
/// stored before and those written since (`saves`).
fn lock_lookup(locks: &Vec<LockedBalance>, saves: &Vec<LockedBalance>, denom: &String) -> (r: u128)
    ensures
        r == current_lock(locks@, saves@, denom@),
{
    let mut i: usize = saves.len();
    assert(saves@.take(i as int) =~= saves@);
    while i > 0
        invariant
            i <= saves.len(),
            current_lock(locks@, saves@, denom@) == current_lock(locks@, saves@.take(i as int), denom@),
        decreases i,
    {
        i = i - 1;
        assert(saves@.take(i as int + 1).drop_last() =~= saves@.take(i as int));
        if saves[i].denom.eq(denom) {
            return saves[i].amount;
        }
    }
    assert(saves@.take(0).len() == 0);
    let mut j: usize = 0;
    assert(locks@.skip(0) =~= locks@);
    while j < locks.len()
        invariant
            j <= locks.len(),
            current_lock(locks@, saves@, denom@) == stored_lock(locks@.skip(j as int), denom@),
        decreases locks.len() - j,
    {
        assert(locks@.skip(j as int).drop_first() =~= locks@.skip(j as int + 1));
        assert(locks@.skip(j as int)[0] == locks@[j as int]);
        if locks[j].denom.eq(denom) {
            return locks[j].amount;
        }
        j = j + 1;
    }
    0
}

/// Joins pool `pool_id` for `sender` with `total_assets`, paid with `funds`
/// and, where they fall short, with what `sender` has locked (`locks`: the
/// amounts stored before, by denom), and has the LP tokens bonded. `this` is
/// the locker's address. Returns the locked amounts to write, in order, and
/// the messages: the CW20 pulls and allowances, the refunds of what was sent
/// beyond the assets, and the join itself.
pub fn join_pool_and_bond_using_locked_lst(
    sender: &String,
    this: &String,
    vault: &String,
    pool_id: u128,
    total_assets: Vec<Asset>,
    min_lp_to_receive: Option<u128>,
    funds: &Vec<Coin>,
    locks: &Vec<LockedBalance>,
) -> (r: Result<(Vec<LockedBalance>, Vec<SuperfluidMsg>), ContractError>)
    requires
        !(bond_fold(total_assets@, funds@, locks@, *sender, *vault, *this, total_assets@.len()) matches Err(BondRefusal::Panic)),
    ensures
        match bond_fold(total_assets@, funds@, locks@, *sender, *vault, *this, total_assets@.len()) {
            Err(BondRefusal::Error(e)) => r == Err::<(Vec<LockedBalance>, Vec<SuperfluidMsg>), ContractError>(e),
            Err(BondRefusal::Panic) => false,
            Ok(st) => r matches Ok((saves, msgs)) && saves@ == st.saves
                && sf_views(msgs@) == st.msgs + refunds(st.left, distinct_denoms(funds@), *sender, st.left.len()) + seq![
                    SuperfluidMsgView::JoinPool {
                        vault: *vault,
                        pool_id,
                        recipient: *sender,
                        assets: total_assets@,
                        min_lp_to_receive,
                        auto_stake: true,
                        funds: st.coins,
                    },
                ],
        },
{
    let ghost n = total_assets@.len();
    let ghost final_fold = bond_fold(total_assets@, funds@, locks@, *sender, *vault, *this, n);
    let (denoms, amounts) = collect_funds(funds);
    let mut left: Vec<Option<u128>> = Vec::new();
    let mut k: usize = 0;
    while k < amounts.len()
        invariant
            k <= amounts.len(),
            amounts@.len() == denoms@.len(),
            left@.len() == k,
            forall|j: int| 0 <= j < k ==> (#[trigger] left@[j]) == Some(amounts@[j]),
        decreases amounts.len() - k,
    {
        left.push(Some(amounts[k]));
        k = k + 1;
    }
    assert(left_view(left@) =~= bond_start(funds@).left);
    let mut saves: Vec<LockedBalance> = Vec::new();
    let mut msgs: Vec<SuperfluidMsg> = Vec::new();
    let mut coins: Vec<Coin> = Vec::new();
    assert(sf_views(msgs@) =~= Seq::<SuperfluidMsgView>::empty());
    let mut i: usize = 0;
    while i < total_assets.len()
        invariant
            i <= total_assets.len(),
            n == total_assets@.len(),
            final_fold == bond_fold(total_assets@, funds@, locks@, *sender, *vault, *this, n),
            !(final_fold matches Err(BondRefusal::Panic)),
            denoms@ == distinct_denoms(funds@),
            amounts@.len() == denoms@.len(),
            left@.len() == denoms@.len(),
            forall|j: int| 0 <= j < amounts@.len() ==> amounts@[j] == fund_amount(funds@, (#[trigger] denoms@[j])@),
            forall|x: Seq<char>| !has_text(denoms@, x) ==> fund_amount(funds@, x) == 0,
            bond_fold(total_assets@, funds@, locks@, *sender, *vault, *this, i as nat) == Ok::<BondState, BondRefusal>(BondState {
                left: left_view(left@),
                saves: saves@,
                msgs: sf_views(msgs@),
                coins: coins@,
            }),
        decreases total_assets.len() - i,
    {
        let a = &total_assets[i];
        let ghost st = BondState { left: left_view(left@), saves: saves@, msgs: sf_views(msgs@), coins: coins@ };
        proof {
            if bond_step(st, *a, funds@, locks@, *sender, *vault, *this) is Err {
                lemma_bond_fold_err(total_assets@, funds@, locks@, *sender, *vault, *this, i as nat + 1, n);
            }
        }
        match &a.info {
            AssetInfo::NativeToken { denom } => {
                let found = find_text(&denoms, denom);
                let sent: u128 = match found {
                    Some(k) => amounts[k],
                    None => 0,
                };
                assert(sent == fund_amount(funds@, denom@));
                let total = a.amount;
                if sent == total {
                    if let Some(k) = found {
                        left.set(k, None);
                        assert(left_view(left@) =~= st.left.update(k as int, None));
                    }
                } else if sent > total {
                    let k = match found {
                        Some(k) => k,
                        None => {
                            proof { assert(false); }
                            0
                        },
                    };
                    left.set(k, Some(sent - total));
                    assert(left_view(left@) =~= st.left.update(k as int, Some((sent - total) as nat)));
                } else {
                    if let Some(k) = found {
                        left.set(k, None);
                        assert(left_view(left@) =~= st.left.update(k as int, None));
                    }
                    let locked = lock_lookup(locks, &saves, denom);
                    if locked > u128::MAX - sent {
                        proof { assert(false); }
                        return Err(ContractError::InvalidAmount);
                    }
                    let available = sent + locked;
                    if total > available {
                        return Err(ContractError::InsufficientBalance {
                            denom: denom.clone(),
                            available_balance: available,
                            required_balance: total,
                        });
                    }
                    saves.push(LockedBalance { denom: denom.clone(), amount: locked - (total - sent) });
                }
                coins.push(Coin { denom: denom.clone(), amount: total });
            },
            AssetInfo::Token { contract_addr } => {
                let ghost before = msgs@;
                msgs.push(SuperfluidMsg::TransferFromUser {
                    token: contract_addr.clone(),
                    owner: sender.clone(),
                    recipient: this.clone(),
                    amount: a.amount,
                });
                msgs.push(SuperfluidMsg::IncreaseAllowance { token: contract_addr.clone(), spender: vault.clone(), amount: a.amount });
                assert(sf_views(msgs@) =~= sf_views(before) + seq![
                    SuperfluidMsgView::TransferFromUser { token: *contract_addr, owner: *sender, recipient: *this, amount: a.amount },
                    SuperfluidMsgView::IncreaseAllowance { token: *contract_addr, spender: *vault, amount: a.amount },
                ]);
            },
        }
        i = i + 1;
    }
    let ghost st_msgs = sf_views(msgs@);
    let mut k: usize = 0;
    while k < denoms.len()
        invariant
            k <= denoms.len(),
            left@.len() == denoms@.len(),
            sf_views(msgs@) == st_msgs + refunds(left_view(left@), denoms@, *sender, k as nat),
        decreases denoms.len() - k,
    {
        let ghost before = msgs@;
        if let Some(v) = left[k] {
            msgs.push(SuperfluidMsg::Refund { denom: denoms[k].clone(), recipient: sender.clone(), amount: v });
            assert(sf_views(msgs@) =~= sf_views(before).push(SuperfluidMsgView::Refund { denom: denoms@[k as int], recipient: *sender, amount: v }));
        }
        k = k + 1;
    }
    let ghost with_refunds = sf_views(msgs@);
    let ghost coins_view = coins@;
    let ghost assets_view = total_assets@;
    msgs.push(SuperfluidMsg::JoinPool {
        vault: vault.clone(),
        pool_id,
        recipient: sender.clone(),
        assets: total_assets,
        min_lp_to_receive,
        auto_stake: true,
        funds: coins,
    });
    assert(sf_views(msgs@) =~= with_refunds + seq![
        SuperfluidMsgView::JoinPool {
            vault: *vault,
            pool_id,
            recipient: *sender,
            assets: assets_view,
            min_lp_to_receive,
            auto_stake: true,
            funds: coins_view,
        },
    ]);
    Ok((saves, msgs))
}
} // verus!
