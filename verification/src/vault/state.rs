//! The vault's stored state, the messages it emits and its errors.
use vstd::prelude::*;
use crate::types::{Asset, AssetInfo, AssetKey};
use crate::precision::FeeInfo;

verus! {

/// Which kinds of operations are paused.
#[derive(Clone, Copy, Debug)]
pub struct PauseInfo {
    pub swap: bool,
    pub deposit: bool,
    pub imbalanced_withdraw: bool,
}

impl PauseInfo {
    /// Nothing paused.
    pub fn none() -> (r: PauseInfo)
        ensures
            !r.swap && !r.deposit && !r.imbalanced_withdraw,
    {
        PauseInfo { swap: false, deposit: false, imbalanced_withdraw: false }
    }
}

/// Where freshly minted LP tokens may be staked automatically.
#[derive(Clone, Debug)]
pub enum AutoStakeImpl {
    Disabled,
    Multistaking { contract_addr: String },
}

/// Whether creating a pool costs a fee.
#[derive(Clone, Debug)]
pub enum PoolCreationFee {
    Disabled,
    Enabled { fee: Asset },
}

/// Who may create pools of a type.
#[derive(Clone, Copy, Debug)]
pub enum AllowPoolInstantiation {
    Everyone,
    OnlyWhitelistedAddresses,
    Nobody,
}

/// The vault's configuration.
#[derive(Clone, Debug)]
pub struct VaultConfig {
    pub owner: String,
    pub whitelisted_addresses: Vec<String>,
    pub lp_token_code_id: Option<u64>,
    pub fee_collector: Option<String>,
    pub auto_stake_impl: AutoStakeImpl,
    pub pool_creation_fee: PoolCreationFee,
    pub next_pool_id: u128,
    pub paused: PauseInfo,
}

/// The registered configuration of a pool type, keyed by the type's name.
#[derive(Clone, Debug)]
pub struct PoolTypeConfig {
    pub code_id: u64,
    pub pool_type: String,
    pub default_fee_info: FeeInfo,
    pub allow_instantiation: AllowPoolInstantiation,
    pub paused: PauseInfo,
}

/// The state of one pool as the vault holds it.
#[derive(Clone, Debug)]
pub struct PoolInfo {
    pub pool_id: u128,
    pub pool_addr: String,
    pub lp_token_addr: String,
    pub fee_info: FeeInfo,
    pub assets: Vec<Asset>,
    pub pool_type: String,
    pub paused: PauseInfo,
}

impl PoolInfo {
    /// A stored pool's fees are always valid.
    pub open spec fn wf(&self) -> bool {
        self.fee_info.is_valid()
    }
}

/// The precision of a native denom of a pool.
#[derive(Clone, Debug)]
pub struct NativeAssetPrecisionInfo {
    pub denom: String,
    pub precision: u8,
}

impl NativeAssetPrecisionInfo {
    /// A copy of this entry.
    pub fn copy(&self) -> (r: NativeAssetPrecisionInfo)
        ensures
            r == *self,
    {
        NativeAssetPrecisionInfo { denom: self.denom.clone(), precision: self.precision }
    }
}

/// A copy of a list of precisions.
pub fn copy_precisions(v: &Vec<NativeAssetPrecisionInfo>) -> (r: Vec<NativeAssetPrecisionInfo>)
    ensures
        r@ == v@,
{
    let mut r: Vec<NativeAssetPrecisionInfo> = Vec::new();
    let mut i: usize = 0;
    while i < v.len()
        invariant
            i <= v.len(),
            r@ == v@.take(i as int),
        decreases v.len() - i,
    {
        r.push(v[i].copy());
        assert(v@.take(i as int + 1) == v@.take(i as int).push(v@[i as int]));
        i = i + 1;
    }
    assert(v@.take(v.len() as int) == v@);
    r
}

/// The pool being created, kept between the replies of its instantiation.
#[derive(Clone, Debug)]
pub struct TmpPoolInfo {
    pub code_id: u64,
    pub pool_id: u128,
    pub lp_token_addr: Option<String>,
    pub fee_info: FeeInfo,
    pub assets: Vec<Asset>,
    pub pool_type: String,
    pub init_params: Option<Vec<u8>>,
    pub native_asset_precisions: Vec<NativeAssetPrecisionInfo>,
}

/// What the vault asks the chain to do.
#[derive(Clone, Debug)]
pub enum VaultMsg {
    /// Move `amount` of the CW20 `token` from `owner` to `recipient` (an allowance is used).
    TransferFromUser { token: String, owner: String, recipient: String, amount: u128 },
    /// Send `amount` of the token `info` from the vault to `recipient`.
    Transfer { info: AssetInfo, recipient: String, amount: u128 },
    /// Mint `amount` LP tokens of `lp_token` to `recipient`.
    Mint { lp_token: String, recipient: String, amount: u128 },
    /// Send `amount` LP tokens of `lp_token` to the staking contract, bonded for `beneficiary`.
    Bond { lp_token: String, staking: String, amount: u128, beneficiary: String },
    /// Burn `amount` LP tokens of `lp_token` held by the vault.
    Burn { lp_token: String, amount: u128 },
    /// Tell a pool its new balances.
    UpdateLiquidity { pool_addr: String, assets: Vec<Asset> },
    /// Tell a pool its new total fee.
    UpdateFee { pool_addr: String, total_fee_bps: u16 },
    /// Hand a pool new parameters.
    UpdateParams { pool_addr: String, params: Vec<u8> },
    /// Instantiate the LP token of pool `pool_id` with the vault as minter (a sub-message).
    InstantiateLpToken { code_id: u64, pool_id: u128, minter: String },
    /// Instantiate the pool contract (a sub-message).
    InstantiatePool {
        admin: String,
        code_id: u64,
        pool_id: u128,
        pool_type: String,
        vault_addr: String,
        lp_token_addr: String,
        asset_infos: Vec<AssetInfo>,
        total_fee_bps: u16,
        init_params: Option<Vec<u8>>,
        native_asset_precisions: Vec<NativeAssetPrecisionInfo>,
    },
}

/// A message as a mathematical value.
pub enum MsgView {
    TransferFromUser { token: String, owner: String, recipient: String, amount: u128 },
    Transfer { info: AssetInfo, recipient: String, amount: u128 },
    Mint { lp_token: String, recipient: String, amount: u128 },
    Bond { lp_token: String, staking: String, amount: u128, beneficiary: String },
    Burn { lp_token: String, amount: u128 },
    UpdateLiquidity { pool_addr: String, assets: Seq<Asset> },
    UpdateFee { pool_addr: String, total_fee_bps: u16 },
    UpdateParams { pool_addr: String, params: Seq<u8> },
    InstantiateLpToken { code_id: u64, pool_id: u128, minter: String },
    InstantiatePool {
        admin: String,
        code_id: u64,
        pool_id: u128,
        pool_type: String,
        vault_addr: String,
        lp_token_addr: String,
        asset_infos: Seq<AssetInfo>,
        total_fee_bps: u16,
        init_params: Option<Seq<u8>>,
        native_asset_precisions: Seq<NativeAssetPrecisionInfo>,
    },
}

impl View for VaultMsg {
    type V = MsgView;

    open spec fn view(&self) -> MsgView {
        match self {
            VaultMsg::TransferFromUser { token, owner, recipient, amount } =>
                MsgView::TransferFromUser { token: *token, owner: *owner, recipient: *recipient, amount: *amount },
            VaultMsg::Transfer { info, recipient, amount } => MsgView::Transfer { info: *info, recipient: *recipient, amount: *amount },
            VaultMsg::Mint { lp_token, recipient, amount } => MsgView::Mint { lp_token: *lp_token, recipient: *recipient, amount: *amount },
            VaultMsg::Bond { lp_token, staking, amount, beneficiary } =>
                MsgView::Bond { lp_token: *lp_token, staking: *staking, amount: *amount, beneficiary: *beneficiary },
            VaultMsg::Burn { lp_token, amount } => MsgView::Burn { lp_token: *lp_token, amount: *amount },
            VaultMsg::UpdateLiquidity { pool_addr, assets } => MsgView::UpdateLiquidity { pool_addr: *pool_addr, assets: assets@ },
            VaultMsg::UpdateFee { pool_addr, total_fee_bps } => MsgView::UpdateFee { pool_addr: *pool_addr, total_fee_bps: *total_fee_bps },
            VaultMsg::UpdateParams { pool_addr, params } => MsgView::UpdateParams { pool_addr: *pool_addr, params: params@ },
            VaultMsg::InstantiateLpToken { code_id, pool_id, minter } =>
                MsgView::InstantiateLpToken { code_id: *code_id, pool_id: *pool_id, minter: *minter },
            VaultMsg::InstantiatePool { admin, code_id, pool_id, pool_type, vault_addr, lp_token_addr, asset_infos, total_fee_bps, init_params, native_asset_precisions } =>
                MsgView::InstantiatePool {
                    admin: *admin,
                    code_id: *code_id,
                    pool_id: *pool_id,
                    pool_type: *pool_type,
                    vault_addr: *vault_addr,
                    lp_token_addr: *lp_token_addr,
                    asset_infos: asset_infos@,
                    total_fee_bps: *total_fee_bps,
                    init_params: match init_params { Some(p) => Some(p@), None => None },
                    native_asset_precisions: native_asset_precisions@,
                },
        }
    }
}

/// The views of a sequence of messages.
pub open spec fn views(s: Seq<VaultMsg>) -> Seq<MsgView> {
    s.map_values(|m: VaultMsg| m@)
}

/// Why the vault refused an operation.
#[derive(Clone, Debug)]
pub enum ContractError {
    /// A checked arithmetic operation overflowed.
    Overflow,
    /// A stored item was not found.
    NotFound,
    Unauthorized,
    InvalidCodeId,
    InvalidSubMsgId,
    /// The reply of an instantiation could not be decoded.
    ReplyParseFailed,
    InvalidPoolId,
    SwapAmountZero,
    BurnAmountZero,
    MaxSpendError { max_spend: u128, offer_amount: u128 },
    MinReceiveError { min_receive: u128, ask_amount: u128 },
    PoolTypeAlreadyExists,
    InsufficientNativeTokensSent { denom: String, sent: u128, needed: u128 },
    ReceivedUnexpectedLpTokens { expected: u128, received: u128 },
    PoolExitTransitionLpToBurnMismatch { expected_to_burn: u128, actual_burn: u128 },
    PoolExitTransitionAssetsOutMismatch { expected_assets_out: Vec<Asset>, actual_assets_out: Vec<Asset> },
    MinAssetOutError { return_amount: u128, min_receive: u128, asset_info: AssetInfo },
    MaxLpToBurnError { burn_amount: u128, max_lp_to_burn: u128 },
    InsufficientLpTokensToExit,
    InvalidNumberOfAssets,
    PoolQueryFailed { error: String },
    MismatchedAssets,
    InvalidSequenceOfAssets,
    AmountCannotBeZero,
    SameTokenError,
    InsufficientTokensSent,
    PoolTypeConfigDuplicate,
    InvalidFeeInfo,
    PoolTypeConfigNotFound,
    RepeatedAssets,
    AddressAlreadyWhitelisted,
    AddressNotWhitelisted,
    PoolTypeCreationDisabled,
    CannotAddOwnerToWhitelist,
    InvalidPoolCreationFee,
    AutoStakeDisabled,
    PausedDeposit,
    PausedSwap,
    LpTokenCodeIdNotSet,
    FeeCollectorNotSet,
    InvalidNativeAssetPrecisionList,
    UnsupportedPrecision,
    ImbalancedExitPaused,
    InvalidContractVersionForUpgrade { upgrade_version: String, expected: String, actual: String },
    InvalidContractNameForMigration { expected: String, actual: String },
    PoolAlreadyDefunct,
    PoolNotDefunct,
    UserAlreadyRefunded,
    PoolHasActiveRewardSchedules,
}

/// Why an operation is refused after a pool answered, or that one of the
/// operations it makes would panic.
pub enum Refusal {
    Error(ContractError),
    Panic,
}

/// Whether `x` is among `list`.
pub open spec fn contains_str(list: Seq<String>, x: Seq<char>) -> bool {
    exists|i: int| 0 <= i < list.len() && (#[trigger] list[i])@ == x
}

/// Whether the address `x` is among `list`.
pub fn list_contains(list: &Vec<String>, x: &String) -> (r: bool)
    ensures
        r == contains_str(list@, x@),
{
    let mut i: usize = 0;
    while i < list.len()
        invariant
            i <= list.len(),
            forall|j: int| 0 <= j < i ==> (#[trigger] list@[j])@ != x@,
        decreases list.len() - i,
    {
        if list[i].eq(x) {
            return true;
        }
        i = i + 1;
    }
    false
}

/// The owner, or an address on the whitelist.
pub open spec fn is_authorized(config: VaultConfig, caller: Seq<char>) -> bool {
    config.owner@ == caller || contains_str(config.whitelisted_addresses@, caller)
}

/// Whether `caller` is the owner or whitelisted.
pub fn validate_authorized_caller(config: &VaultConfig, caller: &String) -> (r: Result<(), ContractError>)
    ensures
        r is Ok <==> is_authorized(*config, caller@),
        r is Err ==> r == Err::<(), ContractError>(ContractError::Unauthorized),
{
    if config.owner.eq(caller) || list_contains(&config.whitelisted_addresses, caller) {
        Ok(())
    } else {
        Err(ContractError::Unauthorized)
    }
}

/// A pool that exists and is not defunct: its stored state, or why it cannot be used.
pub open spec fn pool_usable_spec(is_defunct: bool, stored: Option<PoolInfo>) -> Result<PoolInfo, ContractError> {
    if is_defunct {
        Err(ContractError::PoolAlreadyDefunct)
    } else {
        match stored {
            Some(p) => Ok(p),
            None => Err(ContractError::InvalidPoolId),
        }
    }
}

/// Checks that a pool is not defunct and exists; returns its stored state.
pub fn validate_pool_exists_and_not_defunct(is_defunct: bool, stored: Option<PoolInfo>) -> (r: Result<PoolInfo, ContractError>)
    ensures
        r == pool_usable_spec(is_defunct, stored),
{
    if is_defunct {
        return Err(ContractError::PoolAlreadyDefunct);
    }
    match stored {
        Some(p) => Ok(p),
        None => Err(ContractError::InvalidPoolId),
    }
}

/// The message that tells a pool its new balances.
pub fn build_update_pool_state_msg(pool_addr: &String, assets: &Vec<Asset>) -> (r: VaultMsg)
    ensures
        r@ == (MsgView::UpdateLiquidity { pool_addr: *pool_addr, assets: assets@ }),
{
    VaultMsg::UpdateLiquidity { pool_addr: pool_addr.clone(), assets: copy_assets(assets) }
}

/// A copy of a list of assets.
pub fn copy_assets(assets: &Vec<Asset>) -> (r: Vec<Asset>)
    ensures
        r@ == assets@,
{
    let mut r: Vec<Asset> = Vec::new();
    let mut i: usize = 0;
    while i < assets.len()
        invariant
            i <= assets.len(),
            r@ == assets@.take(i as int),
        decreases assets.len() - i,
    {
        r.push(assets[i].copy());
        assert(assets@.take(i as int + 1) == assets@.take(i as int).push(assets@[i as int]));
        i = i + 1;
    }
    assert(assets@.take(assets.len() as int) == assets@);
    r
}

/// The messages that mint `amount` LP tokens for `recipient`: directly, or,
/// with auto-staking, to the vault and then bonded in the staking contract.
pub open spec fn mint_msgs_spec(lp_token: String, recipient: String, amount: u128, auto_stake: bool, auto_stake_impl: AutoStakeImpl, vault_addr: String) -> Result<Seq<MsgView>, ContractError> {
    if !auto_stake {
        Ok(seq![MsgView::Mint { lp_token, recipient, amount }])
    } else {
        match auto_stake_impl {
            AutoStakeImpl::Multistaking { contract_addr } => Ok(seq![
                MsgView::Mint { lp_token, recipient: vault_addr, amount },
                MsgView::Bond { lp_token, staking: contract_addr, amount, beneficiary: recipient },
            ]),
            AutoStakeImpl::Disabled => Err(ContractError::AutoStakeDisabled),
        }
    }
}

/// Mints LP tokens to the recipient, or to the vault and bonds them for the
/// recipient when auto-staking.
pub fn build_mint_lp_token_msg(lp_token: &String, recipient: &String, amount: u128, auto_stake: bool, auto_stake_impl: &AutoStakeImpl, vault_addr: &String) -> (r: Result<Vec<VaultMsg>, ContractError>)
    ensures
        match r {
            Ok(v) => mint_msgs_spec(*lp_token, *recipient, amount, auto_stake, *auto_stake_impl, *vault_addr) == Ok::<Seq<MsgView>, ContractError>(views(v@)),
            Err(e) => mint_msgs_spec(*lp_token, *recipient, amount, auto_stake, *auto_stake_impl, *vault_addr) == Err::<Seq<MsgView>, ContractError>(e),
        },
{
    if !auto_stake {
        let mut v: Vec<VaultMsg> = Vec::new();
        v.push(VaultMsg::Mint { lp_token: lp_token.clone(), recipient: recipient.clone(), amount });
        assert(views(v@) =~= seq![MsgView::Mint { lp_token: *lp_token, recipient: *recipient, amount }]);
        return Ok(v);
    }
    match auto_stake_impl {
        AutoStakeImpl::Multistaking { contract_addr } => {
            let mut v: Vec<VaultMsg> = Vec::new();
            v.push(VaultMsg::Mint { lp_token: lp_token.clone(), recipient: vault_addr.clone(), amount });
            v.push(VaultMsg::Bond { lp_token: lp_token.clone(), staking: contract_addr.clone(), amount, beneficiary: recipient.clone() });
            assert(views(v@) =~= seq![
                MsgView::Mint { lp_token: *lp_token, recipient: *vault_addr, amount },
                MsgView::Bond { lp_token: *lp_token, staking: *contract_addr, amount, beneficiary: *recipient },
            ]);
            Ok(v)
        },
        AutoStakeImpl::Disabled => Err(ContractError::AutoStakeDisabled),
    }
}

} // verus!
