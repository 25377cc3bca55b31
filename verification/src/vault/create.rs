//! Creating a pool: the request is checked, the creation fee collected, the
//! tokens put in order, and the LP token and then the pool are instantiated
//! in two steps, each confirmed by a reply.
use vstd::prelude::*;
use crate::types::{Asset, AssetInfo, AssetKey, Coin, sent_amount, find_sent_native_token_balance};
use crate::order::{keys, sort_keys, is_sorted, sort_asset_infos};
use crate::precision::FeeInfo;
use crate::vault::state::{
    VaultConfig, PoolInfo, PoolTypeConfig, PauseInfo, PoolCreationFee, AllowPoolInstantiation,
    NativeAssetPrecisionInfo, TmpPoolInfo, VaultMsg, MsgView, views, ContractError, is_authorized,
    validate_authorized_caller, copy_precisions,
};

verus! {

/// The reply that confirms the LP token's instantiation.
pub const INSTANTIATE_LP_REPLY_ID: u64 = 1;
/// The reply that confirms the pool's instantiation.
pub const INSTANTIATE_POOL_REPLY_ID: u64 = 2;
/// The most decimals a native token of a pool may have.
pub const MAX_NATIVE_PRECISION: u8 = 18;

/// How many of `infos` are the native denom `x`.
pub open spec fn count_native(infos: Seq<AssetInfo>, x: Seq<char>) -> nat
    decreases infos.len(),
{
    if infos.len() == 0 {
        0
    } else {
        count_native(infos.drop_last(), x) + if infos.last().is_native() && infos.last().label() == x { 1nat } else { 0nat }
    }
}

/// How many precisions are given for the denom `x`.
pub open spec fn count_prec(precisions: Seq<NativeAssetPrecisionInfo>, x: Seq<char>) -> nat
    decreases precisions.len(),
{
    if precisions.len() == 0 {
        0
    } else {
        count_prec(precisions.drop_last(), x) + if precisions.last().denom@ == x { 1nat } else { 0nat }
    }
}

/// The precisions name exactly the native denoms of the pool, as many times
/// as they occur.
pub open spec fn precisions_match(infos: Seq<AssetInfo>, precisions: Seq<NativeAssetPrecisionInfo>) -> bool {
    forall|x: Seq<char>| count_native(infos, x) == count_prec(precisions, x)
}

proof fn lemma_count_native_pos(infos: Seq<AssetInfo>, x: Seq<char>)
    requires
        count_native(infos, x) > 0,
    ensures
        exists|i: int| 0 <= i < infos.len() && (#[trigger] infos[i]).is_native() && infos[i].label() == x,
    decreases infos.len(),
{
    if !(infos.last().is_native() && infos.last().label() == x) {
        lemma_count_native_pos(infos.drop_last(), x);
        let i = choose|i: int| 0 <= i < infos.drop_last().len() && (#[trigger] infos.drop_last()[i]).is_native() && infos.drop_last()[i].label() == x;
        assert(infos[i] == infos.drop_last()[i]);
    } else {
        assert(infos[infos.len() - 1] == infos.last());
    }
}

proof fn lemma_count_prec_pos(precisions: Seq<NativeAssetPrecisionInfo>, x: Seq<char>)
    requires
        count_prec(precisions, x) > 0,
    ensures
        exists|i: int| 0 <= i < precisions.len() && (#[trigger] precisions[i]).denom@ == x,
    decreases precisions.len(),
{
    if precisions.last().denom@ != x {
        lemma_count_prec_pos(precisions.drop_last(), x);
        let i = choose|i: int| 0 <= i < precisions.drop_last().len() && (#[trigger] precisions.drop_last()[i]).denom@ == x;
        assert(precisions[i] == precisions.drop_last()[i]);
    } else {
        assert(precisions[precisions.len() - 1] == precisions.last());
    }
}

fn count_native_exec(infos: &Vec<AssetInfo>, x: &String) -> (r: usize)
    ensures
        r == count_native(infos@, x@),
{
    let mut r: usize = 0;
    let mut i: usize = 0;
    while i < infos.len()
        invariant
            i <= infos.len(),
            r <= i,
            r == count_native(infos@.take(i as int), x@),
        decreases infos.len() - i,
    {
        assert(infos@.take(i as int + 1).drop_last() =~= infos@.take(i as int));
        if infos[i].is_native_token() && infos[i].as_str().eq(x) {
            r = r + 1;
        }
        i = i + 1;
    }
    assert(infos@.take(infos.len() as int) =~= infos@);
    r
}

fn count_prec_exec(precisions: &Vec<NativeAssetPrecisionInfo>, x: &String) -> (r: usize)
    ensures
        r == count_prec(precisions@, x@),
{
    let mut r: usize = 0;
    let mut i: usize = 0;
    while i < precisions.len()
        invariant
            i <= precisions.len(),
            r <= i,
            r == count_prec(precisions@.take(i as int), x@),
        decreases precisions.len() - i,
    {
        assert(precisions@.take(i as int + 1).drop_last() =~= precisions@.take(i as int));
        if precisions[i].denom.eq(x) {
            r = r + 1;
        }
        i = i + 1;
    }
    assert(precisions@.take(precisions.len() as int) =~= precisions@);
    r
}

/// Whether the precisions name exactly the native denoms of the pool.
pub fn check_precision_list(infos: &Vec<AssetInfo>, precisions: &Vec<NativeAssetPrecisionInfo>) -> (r: bool)
    ensures
        r == precisions_match(infos@, precisions@),
{
    let mut i: usize = 0;
    while i < infos.len()
        invariant
            i <= infos.len(),
            forall|j: int| 0 <= j < i && (#[trigger] infos@[j]).is_native()
                ==> count_native(infos@, infos@[j].label()) == count_prec(precisions@, infos@[j].label()),
        decreases infos.len() - i,
    {
        if infos[i].is_native_token() {
            let d = infos[i].as_str();
            if count_native_exec(infos, d) != count_prec_exec(precisions, d) {
                return false;
            }
        }
        i = i + 1;
    }
    let mut k: usize = 0;
    while k < precisions.len()
        invariant
            k <= precisions.len(),
            forall|j: int| 0 <= j < infos.len() && (#[trigger] infos@[j]).is_native()
                ==> count_native(infos@, infos@[j].label()) == count_prec(precisions@, infos@[j].label()),
            forall|j: int| 0 <= j < k
                ==> count_native(infos@, (#[trigger] precisions@[j]).denom@) == count_prec(precisions@, precisions@[j].denom@),
        decreases precisions.len() - k,
    {
        let d = &precisions[k].denom;
        if count_native_exec(infos, d) != count_prec_exec(precisions, d) {
            return false;
        }
        k = k + 1;
    }
    assert forall|x: Seq<char>| count_native(infos@, x) == count_prec(precisions@, x) by {
        if count_native(infos@, x) > 0 {
            lemma_count_native_pos(infos@, x);
        } else if count_prec(precisions@, x) > 0 {
            lemma_count_prec_pos(precisions@, x);
        }
    }
    true
}

/// Some precision is not supported: only precisions from 1 to 18 are.
pub open spec fn precision_unsupported(precisions: Seq<NativeAssetPrecisionInfo>) -> bool {
    exists|i: int| 0 <= i < precisions.len()
        && ((#[trigger] precisions[i]).precision == 0 || precisions[i].precision > MAX_NATIVE_PRECISION)
}

fn check_precision_unsupported(precisions: &Vec<NativeAssetPrecisionInfo>) -> (r: bool)
    ensures
        r == precision_unsupported(precisions@),
{
    let mut i: usize = 0;
    while i < precisions.len()
        invariant
            i <= precisions.len(),
            forall|j: int| 0 <= j < i ==> (#[trigger] precisions@[j]).precision != 0 && precisions@[j].precision <= MAX_NATIVE_PRECISION,
        decreases precisions.len() - i,
    {
        if precisions[i].precision == 0 || precisions[i].precision > MAX_NATIVE_PRECISION {
            return true;
        }
        i = i + 1;
    }
    false
}

/// The messages that collect the creation fee from `sender`, or why it
/// cannot be collected: a CW20 fee is pulled, a native fee must have been
/// sent (any excess is returned); then the whole fee goes to the collector.
pub open spec fn creation_fee_msgs(fee: PoolCreationFee, collector: Option<String>, sender: String, vault: String, funds: Seq<Coin>) -> Result<Seq<MsgView>, ContractError> {
    match fee {
        PoolCreationFee::Disabled => Ok(seq![]),
        PoolCreationFee::Enabled { fee } => {
            let taken: Result<Seq<MsgView>, ContractError> = match fee.info {
                AssetInfo::NativeToken { denom } => {
                    let got = sent_amount(funds, denom@);
                    if got < fee.amount {
                        Err(ContractError::InsufficientNativeTokensSent { denom, sent: got as u128, needed: fee.amount })
                    } else if got > fee.amount {
                        Ok(seq![MsgView::Transfer { info: fee.info, recipient: sender, amount: (got - fee.amount) as u128 }])
                    } else {
                        Ok(seq![])
                    }
                },
                AssetInfo::Token { contract_addr } => if fee.amount != 0 {
                    Ok(seq![MsgView::TransferFromUser { token: contract_addr, owner: sender, recipient: vault, amount: fee.amount }])
                } else {
                    Ok(seq![])
                },
            };
            match taken {
                Err(e) => Err(e),
                Ok(m) => match collector {
                    None => Err(ContractError::FeeCollectorNotSet),
                    Some(c) => Ok(m.push(MsgView::Transfer { info: fee.info, recipient: c, amount: fee.amount })),
                },
            }
        },
    }
}

fn collect_creation_fee(fee: &PoolCreationFee, collector: &Option<String>, sender: &String, vault: &String, funds: &Vec<Coin>) -> (r: Result<Vec<VaultMsg>, ContractError>)
    ensures
        match r {
            Ok(m) => creation_fee_msgs(*fee, *collector, *sender, *vault, funds@) == Ok::<Seq<MsgView>, ContractError>(views(m@)),
            Err(e) => creation_fee_msgs(*fee, *collector, *sender, *vault, funds@) == Err::<Seq<MsgView>, ContractError>(e),
        },
{
    let mut msgs: Vec<VaultMsg> = Vec::new();
    match fee {
        PoolCreationFee::Disabled => {
            assert(views(msgs@) =~= Seq::<MsgView>::empty());
            Ok(msgs)
        },
        PoolCreationFee::Enabled { fee } => {
            match &fee.info {
                AssetInfo::NativeToken { denom } => {
                    let got = find_sent_native_token_balance(funds, denom);
                    if got < fee.amount {
                        return Err(ContractError::InsufficientNativeTokensSent { denom: denom.clone(), sent: got, needed: fee.amount });
                    } else if got > fee.amount {
                        msgs.push(VaultMsg::Transfer { info: fee.info.copy(), recipient: sender.clone(), amount: got - fee.amount });
                        assert(views(msgs@) =~= seq![MsgView::Transfer { info: fee.info, recipient: *sender, amount: (got - fee.amount) as u128 }]);
                    } else {
                        assert(views(msgs@) =~= Seq::<MsgView>::empty());
                    }
                },
                AssetInfo::Token { contract_addr } => {
                    if fee.amount != 0 {
                        msgs.push(VaultMsg::TransferFromUser { token: contract_addr.clone(), owner: sender.clone(), recipient: vault.clone(), amount: fee.amount });
                        assert(views(msgs@) =~= seq![MsgView::TransferFromUser { token: *contract_addr, owner: *sender, recipient: *vault, amount: fee.amount }]);
                    } else {
                        assert(views(msgs@) =~= Seq::<MsgView>::empty());
                    }
                },
            }
            let ghost taken = views(msgs@);
            match collector {
                None => Err(ContractError::FeeCollectorNotSet),
                Some(c) => {
                    msgs.push(VaultMsg::Transfer { info: fee.info.copy(), recipient: c.clone(), amount: fee.amount });
                    assert(views(msgs@) =~= taken.push(MsgView::Transfer { info: fee.info, recipient: *c, amount: fee.amount }));
                    Ok(msgs)
                },
            }
        },
    }
}

/// The address or denom of an identifier.
pub open spec fn key_label(k: AssetKey) -> Seq<char> {
    match k {
        AssetKey::Token(x) => x,
        AssetKey::Native(x) => x,
    }
}

/// The address or denom before position `i` (the empty string before the first).
pub open spec fn label_before(s: Seq<AssetKey>, i: int) -> Seq<char> {
    if i == 0 { Seq::<char>::empty() } else { key_label(s[i - 1]) }
}

/// Going through the identifiers in order, one has the address or denom of
/// the one before it (the first is compared with the empty string).
pub open spec fn has_repeat(s: Seq<AssetKey>) -> bool {
    exists|i: int| 0 <= i < s.len() && key_label(#[trigger] s[i]) == label_before(s, i)
}

fn check_repeat(s: &Vec<AssetInfo>) -> (r: bool)
    ensures
        r == has_repeat(keys(s@)),
{
    let ghost ks = keys(s@);
    let mut prev = String::new();
    let mut i: usize = 0;
    while i < s.len()
        invariant
            i <= s.len(),
            ks == keys(s@),
            prev@ == label_before(ks, i as int),
            forall|j: int| 0 <= j < i ==> key_label(#[trigger] ks[j]) != label_before(ks, j),
        decreases s.len() - i,
    {
        let label = s[i].as_str();
        assert(key_label(ks[i as int]) == s@[i as int].label());
        if prev.eq(label) {
            return true;
        }
        prev = label.clone();
        i = i + 1;
    }
    false
}

/// Whether `sender` may create a pool of a type, by the type's setting.
pub open spec fn creation_allowed(config: VaultConfig, allow: AllowPoolInstantiation, sender: Seq<char>) -> Option<ContractError> {
    match allow {
        AllowPoolInstantiation::Everyone => None,
        AllowPoolInstantiation::OnlyWhitelistedAddresses => if is_authorized(config, sender) { None } else { Some(ContractError::Unauthorized) },
        AllowPoolInstantiation::Nobody => Some(ContractError::PoolTypeCreationDisabled),
    }
}

/// The fee a new pool gets: the one asked for, else its type's default.
pub open spec fn chosen_fee(fee_info: Option<FeeInfo>, pool_type: PoolTypeConfig) -> FeeInfo {
    match fee_info {
        Some(f) => f,
        None => pool_type.default_fee_info,
    }
}

/// Why a pool cannot be created, if it cannot; `sorted` are the requested
/// identifiers in order.
pub open spec fn create_error(
    config: VaultConfig,
    pool_type: Option<PoolTypeConfig>,
    sender: String,
    vault: String,
    infos: Seq<AssetInfo>,
    precisions: Seq<NativeAssetPrecisionInfo>,
    fee_info: Option<FeeInfo>,
    funds: Seq<Coin>,
) -> Option<ContractError> {
    match pool_type {
        None => Some(ContractError::PoolTypeConfigNotFound),
        Some(t) => if creation_allowed(config, t.allow_instantiation, sender@) is Some {
            creation_allowed(config, t.allow_instantiation, sender@)
        } else if !precisions_match(infos, precisions) {
            Some(ContractError::InvalidNativeAssetPrecisionList)
        } else if precision_unsupported(precisions) {
            Some(ContractError::UnsupportedPrecision)
        } else if creation_fee_msgs(config.pool_creation_fee, config.fee_collector, sender, vault, funds) is Err {
            Some(creation_fee_msgs(config.pool_creation_fee, config.fee_collector, sender, vault, funds)->Err_0)
        } else if has_repeat(sort_keys(keys(infos))) {
            Some(ContractError::RepeatedAssets)
        } else if !chosen_fee(fee_info, t).is_valid() {
            Some(ContractError::InvalidFeeInfo)
        } else if config.lp_token_code_id is None {
            Some(ContractError::LpTokenCodeIdNotSet)
        } else {
            None
        },
    }
}

/// Starts creating a pool of type `pool_type` (the registered configuration,
/// if any) for `sender`, who sent `funds`. Returns the pool as it is kept
/// until the replies come, and the messages: first the instantiation of the
/// LP token, then the collection of the creation fee.
pub fn execute_create_pool_instance(
    config: &VaultConfig,
    pool_type: &Option<PoolTypeConfig>,
    sender: &String,
    vault: &String,
    asset_infos: &Vec<AssetInfo>,
    native_asset_precisions: &Vec<NativeAssetPrecisionInfo>,
    fee_info: Option<FeeInfo>,
    init_params: Option<Vec<u8>>,
    funds: &Vec<Coin>,
) -> (r: Result<(TmpPoolInfo, Vec<VaultMsg>), ContractError>)
    ensures
        match r {
            Ok((tmp, msgs)) => {
                let t = pool_type->Some_0;
                &&& create_error(*config, *pool_type, *sender, *vault, asset_infos@, native_asset_precisions@, fee_info, funds@) is None
                &&& tmp.code_id == t.code_id
                &&& tmp.pool_id == config.next_pool_id
                &&& tmp.lp_token_addr is None
                &&& tmp.fee_info == chosen_fee(fee_info, t)
                &&& tmp.assets@.len() == asset_infos@.len()
                &&& keys(tmp.assets@.map_values(|a: Asset| a.info)) == sort_keys(keys(asset_infos@))
                &&& is_sorted(keys(tmp.assets@.map_values(|a: Asset| a.info)))
                &&& tmp.assets@.map_values(|a: Asset| a.info).to_multiset() == asset_infos@.to_multiset()
                &&& forall|i: int| 0 <= i < tmp.assets@.len() ==> (#[trigger] tmp.assets@[i]).amount == 0
                &&& tmp.pool_type == t.pool_type
                &&& tmp.init_params == init_params
                &&& tmp.native_asset_precisions@ == native_asset_precisions@
                &&& views(msgs@) == seq![MsgView::InstantiateLpToken {
                    code_id: config.lp_token_code_id->Some_0,
                    pool_id: config.next_pool_id,
                    minter: *vault,
                }] + creation_fee_msgs(config.pool_creation_fee, config.fee_collector, *sender, *vault, funds@)->Ok_0
            },
            Err(e) => create_error(*config, *pool_type, *sender, *vault, asset_infos@, native_asset_precisions@, fee_info, funds@) == Some(e),
        },
{
    let t = match pool_type {
        None => return Err(ContractError::PoolTypeConfigNotFound),
        Some(t) => t,
    };
    match t.allow_instantiation {
        AllowPoolInstantiation::OnlyWhitelistedAddresses => {
            validate_authorized_caller(config, sender)?;
        },
        AllowPoolInstantiation::Nobody => {
            return Err(ContractError::PoolTypeCreationDisabled);
        },
        AllowPoolInstantiation::Everyone => {},
    }
    if !check_precision_list(asset_infos, native_asset_precisions) {
        return Err(ContractError::InvalidNativeAssetPrecisionList);
    }
    if check_precision_unsupported(native_asset_precisions) {
        return Err(ContractError::UnsupportedPrecision);
    }
    let fee_msgs = collect_creation_fee(&config.pool_creation_fee, &config.fee_collector, sender, vault, funds)?;
    let sorted = sort_asset_infos(asset_infos);
    if check_repeat(&sorted) {
        return Err(ContractError::RepeatedAssets);
    }
    let mut assets: Vec<Asset> = Vec::new();
    let mut i: usize = 0;
    while i < sorted.len()
        invariant
            i <= sorted.len(),
            assets@.len() == i,
            forall|j: int| 0 <= j < i ==> (#[trigger] assets@[j]).info == sorted@[j] && assets@[j].amount == 0,
        decreases sorted.len() - i,
    {
        assets.push(Asset { info: sorted[i].copy(), amount: 0 });
        i = i + 1;
    }
    assert(assets@.map_values(|a: Asset| a.info) =~= sorted@);
    let chosen = match fee_info {
        Some(f) => f,
        None => t.default_fee_info,
    };
    if !chosen.valid_fee_info() {
        return Err(ContractError::InvalidFeeInfo);
    }
    let lp_code_id = match config.lp_token_code_id {
        None => return Err(ContractError::LpTokenCodeIdNotSet),
        Some(c) => c,
    };
    let tmp = TmpPoolInfo {
        code_id: t.code_id,
        pool_id: config.next_pool_id,
        lp_token_addr: None,
        fee_info: chosen,
        assets,
        pool_type: t.pool_type.clone(),
        init_params,
        native_asset_precisions: copy_precisions(native_asset_precisions),
    };
    let mut msgs: Vec<VaultMsg> = Vec::new();
    msgs.push(VaultMsg::InstantiateLpToken { code_id: lp_code_id, pool_id: config.next_pool_id, minter: vault.clone() });
    let ghost first = views(msgs@);
    let ghost fee_views = views(fee_msgs@);
    let mut fee_msgs = fee_msgs;
    msgs.append(&mut fee_msgs);
    assert(views(msgs@) =~= first + fee_views);
    proof { crate::order::lemma_sort_keys(keys(asset_infos@)); }
    assert(create_error(*config, *pool_type, *sender, *vault, asset_infos@, native_asset_precisions@, fee_info, funds@) is None);
    assert(keys(tmp.assets@.map_values(|a: Asset| a.info)) == sort_keys(keys(asset_infos@)));
    assert(tmp.assets@.len() == asset_infos@.len());
    Ok((tmp, msgs))
}

/// The address of the contract that an instantiation reply reports.
pub uninterp spec fn instantiated_address(data: Seq<u8>) -> Option<Seq<char>>;

/// Decodes the data of an instantiation reply with
/// `cw_utils::parse_instantiate_response_data`: the address of the new
/// contract, or `None` where the data does not decode. Trusted: the result is
/// the named decoding of the bytes.
#[verifier::external_body]
pub(crate) fn parse_instantiated_address(data: &Vec<u8>) -> (r: Option<String>)
    ensures
        match r {
            Some(a) => instantiated_address(data@) == Some(a@),
            None => instantiated_address(data@) is None,
        },
{
    match cw_utils::parse_instantiate_response_data(data.as_slice()) {
        Ok(res) => Some(res.contract_address),
        Err(_) => None,
    }
}

/// What a reply of a pool's creation does.
pub enum ReplyOutcome {
    /// The LP token exists: the pool being created now knows it, and the pool
    /// contract is to be instantiated.
    LpTokenReady { tmp: TmpPoolInfo, msg: VaultMsg },
    /// The pool exists: it is stored, and the next pool gets the next id.
    PoolReady { pool: PoolInfo, next_pool_id: u128 },
}

/// The message that instantiates the pool contract of `tmp`, whose LP token is `lp_token_addr`.
pub open spec fn instantiate_pool_msg(owner: String, tmp: TmpPoolInfo, lp_token_addr: String, vault: String) -> MsgView {
    MsgView::InstantiatePool {
        admin: owner,
        code_id: tmp.code_id,
        pool_id: tmp.pool_id,
        pool_type: tmp.pool_type,
        vault_addr: vault,
        lp_token_addr,
        asset_infos: tmp.assets@.map_values(|a: Asset| a.info),
        total_fee_bps: tmp.fee_info.total_fee_bps,
        init_params: match tmp.init_params { Some(p) => Some(p@), None => None },
        native_asset_precisions: tmp.native_asset_precisions@,
    }
}

/// Handles the reply `id` of a pool's creation, in which the new contract's
/// address was reported as `address` (`None`: the reply could not be
/// decoded). `tmp` is the pool being created.
pub fn reply_with_address(config: &VaultConfig, tmp: TmpPoolInfo, id: u64, address: Option<String>, vault: &String) -> (r: Result<ReplyOutcome, ContractError>)
    requires
        id == INSTANTIATE_POOL_REPLY_ID && address is Some ==> tmp.lp_token_addr is Some,
    ensures
        match address {
            None => r == Err::<ReplyOutcome, ContractError>(ContractError::ReplyParseFailed),
            Some(a) => if id == INSTANTIATE_LP_REPLY_ID {
                r matches Ok(ReplyOutcome::LpTokenReady { tmp: t, msg }) && t == (TmpPoolInfo { lp_token_addr: Some(a), ..tmp })
                    && msg@ == instantiate_pool_msg(config.owner, tmp, a, *vault)
            } else if id == INSTANTIATE_POOL_REPLY_ID {
                if config.next_pool_id == u128::MAX {
                    r == Err::<ReplyOutcome, ContractError>(ContractError::Overflow)
                } else {
                    r matches Ok(ReplyOutcome::PoolReady { pool, next_pool_id })
                        && next_pool_id == config.next_pool_id + 1
                        && pool == (PoolInfo {
                            pool_id: tmp.pool_id,
                            pool_addr: a,
                            lp_token_addr: tmp.lp_token_addr->Some_0,
                            fee_info: tmp.fee_info,
                            assets: tmp.assets,
                            pool_type: tmp.pool_type,
                            paused: pool.paused,
                        })
                        && !pool.paused.swap && !pool.paused.deposit && !pool.paused.imbalanced_withdraw
                }
            } else {
                r == Err::<ReplyOutcome, ContractError>(ContractError::InvalidSubMsgId)
            },
        },
{
    let a = match address {
        None => return Err(ContractError::ReplyParseFailed),
        Some(a) => a,
    };
    if id == INSTANTIATE_LP_REPLY_ID {
        let infos = asset_infos_of(&tmp.assets);
        let msg = VaultMsg::InstantiatePool {
            admin: config.owner.clone(),
            code_id: tmp.code_id,
            pool_id: tmp.pool_id,
            pool_type: tmp.pool_type.clone(),
            vault_addr: vault.clone(),
            lp_token_addr: a.clone(),
            asset_infos: infos,
            total_fee_bps: tmp.fee_info.total_fee_bps,
            init_params: tmp.init_params.clone(),
            native_asset_precisions: copy_precisions(&tmp.native_asset_precisions),
        };
        let mut t = tmp;
        t.lp_token_addr = Some(a);
        Ok(ReplyOutcome::LpTokenReady { tmp: t, msg })
    } else if id == INSTANTIATE_POOL_REPLY_ID {
        if config.next_pool_id == u128::MAX {
            return Err(ContractError::Overflow);
        }
        let lp = match tmp.lp_token_addr {
            Some(l) => l,
            None => {
                proof { assert(false); }
                return Err(ContractError::NotFound);
            },
        };
        let pool = PoolInfo {
            pool_id: tmp.pool_id,
            pool_addr: a,
            lp_token_addr: lp,
            fee_info: tmp.fee_info,
            assets: tmp.assets,
            pool_type: tmp.pool_type,
            paused: PauseInfo::none(),
        };
        Ok(ReplyOutcome::PoolReady { pool, next_pool_id: config.next_pool_id + 1 })
    } else {
        Err(ContractError::InvalidSubMsgId)
    }
}

/// Handles the reply `id` of a pool's creation, whose data `data` reports the
/// new contract's address. A pool reply only follows the LP token reply, which
/// sets the LP token of `tmp`.
pub fn reply(config: &VaultConfig, tmp: TmpPoolInfo, id: u64, data: &Vec<u8>, vault: &String) -> (r: Result<ReplyOutcome, ContractError>)
    requires
        id == INSTANTIATE_POOL_REPLY_ID ==> tmp.lp_token_addr is Some,
    ensures
        instantiated_address(data@) is None ==> r == Err::<ReplyOutcome, ContractError>(ContractError::ReplyParseFailed),
        id == INSTANTIATE_LP_REPLY_ID && instantiated_address(data@) is Some ==> (
            r matches Ok(ReplyOutcome::LpTokenReady { tmp: t, msg }) && t.lp_token_addr matches Some(l)
                && l@ == instantiated_address(data@)->Some_0 && t == (TmpPoolInfo { lp_token_addr: Some(l), ..tmp })
                && msg@ == instantiate_pool_msg(config.owner, tmp, l, *vault)),
        id == INSTANTIATE_POOL_REPLY_ID && instantiated_address(data@) is Some ==> if config.next_pool_id == u128::MAX {
            r == Err::<ReplyOutcome, ContractError>(ContractError::Overflow)
        } else {
            r matches Ok(ReplyOutcome::PoolReady { pool, next_pool_id })
                && next_pool_id == config.next_pool_id + 1
                && pool.pool_addr@ == instantiated_address(data@)->Some_0
                && pool == (PoolInfo {
                    pool_id: tmp.pool_id,
                    pool_addr: pool.pool_addr,
                    lp_token_addr: tmp.lp_token_addr->Some_0,
                    fee_info: tmp.fee_info,
                    assets: tmp.assets,
                    pool_type: tmp.pool_type,
                    paused: pool.paused,
                })
                && !pool.paused.swap && !pool.paused.deposit && !pool.paused.imbalanced_withdraw
        },
        id != INSTANTIATE_LP_REPLY_ID && id != INSTANTIATE_POOL_REPLY_ID && instantiated_address(data@) is Some
            ==> r == Err::<ReplyOutcome, ContractError>(ContractError::InvalidSubMsgId),
{
    let address = parse_instantiated_address(data);
    reply_with_address(config, tmp, id, address, vault)
}

/// The identifiers of a list of assets.
fn asset_infos_of(assets: &Vec<Asset>) -> (r: Vec<AssetInfo>)
    ensures
        r@ == assets@.map_values(|a: Asset| a.info),
{
    let mut r: Vec<AssetInfo> = Vec::new();
    let mut i: usize = 0;
    while i < assets.len()
        invariant
            i <= assets.len(),
            r@ == assets@.take(i as int).map_values(|a: Asset| a.info),
        decreases assets.len() - i,
    {
        r.push(assets[i].info.copy());
        assert(assets@.take(i as int + 1).map_values(|a: Asset| a.info) =~= assets@.take(i as int).map_values(|a: Asset| a.info).push(assets@[i as int].info));
        i = i + 1;
    }
    assert(assets@.take(assets.len() as int) =~= assets@);
    r
}

} // verus!
