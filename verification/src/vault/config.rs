//! Administration of the vault: its configuration, the registry of pool
//! types, pause switches, the whitelist, and pool settings.
use vstd::prelude::*;
use crate::types::{Asset, AssetInfo};
use crate::precision::FeeInfo;
use crate::vault::state::{
    PauseInfo, AutoStakeImpl, PoolCreationFee, AllowPoolInstantiation, VaultConfig, PoolTypeConfig,
    PoolInfo, VaultMsg, MsgView, views, ContractError, contains_str, list_contains, is_authorized,
    validate_authorized_caller,
};

verus! {

/// A creation fee is acceptable unless it is enabled with a zero amount.
pub open spec fn creation_fee_ok(fee: PoolCreationFee) -> bool {
    match fee {
        PoolCreationFee::Enabled { fee } => fee.amount != 0,
        PoolCreationFee::Disabled => true,
    }
}

fn check_creation_fee(fee: &PoolCreationFee) -> (r: bool)
    ensures
        r == creation_fee_ok(*fee),
{
    match fee {
        PoolCreationFee::Enabled { fee } => fee.amount != 0,
        PoolCreationFee::Disabled => true,
    }
}

/// No two entries with the same name.
pub open spec fn names_distinct(names: Seq<String>) -> bool {
    forall|i: int, j: int| 0 <= i < j < names.len() ==> (#[trigger] names[i])@ != (#[trigger] names[j])@
}

/// The names of a list of pool type configurations.
pub open spec fn pool_type_names(configs: Seq<PoolTypeConfig>) -> Seq<String> {
    configs.map_values(|c: PoolTypeConfig| c.pool_type)
}

/// Whether some pool type name occurs twice.
fn has_duplicate_pool_types(configs: &Vec<PoolTypeConfig>) -> (r: bool)
    ensures
        r == !names_distinct(pool_type_names(configs@)),
{
    let ghost names = pool_type_names(configs@);
    let mut i: usize = 0;
    while i < configs.len()
        invariant
            i <= configs.len(),
            names == pool_type_names(configs@),
            forall|a: int, b: int| 0 <= a < b < configs.len() && a < i ==> (#[trigger] names[a])@ != (#[trigger] names[b])@,
        decreases configs.len() - i,
    {
        let mut j: usize = i + 1;
        while j < configs.len()
            invariant
                i < j <= configs.len(),
                names == pool_type_names(configs@),
                forall|a: int, b: int| 0 <= a < b < configs.len() && a < i ==> (#[trigger] names[a])@ != (#[trigger] names[b])@,
                forall|b: int| i < b < j ==> names[i as int]@ != (#[trigger] names[b])@,
            decreases configs.len() - j,
        {
            if configs[i].pool_type.eq(&configs[j].pool_type) {
                assert(names[i as int]@ == names[j as int]@);
                return true;
            }
            j = j + 1;
        }
        i = i + 1;
    }
    false
}

/// The first invalid entry of the registry given at instantiation, if any.
pub open spec fn first_bad_pool_config(configs: Seq<PoolTypeConfig>) -> Option<ContractError>
    decreases configs.len(),
{
    if configs.len() == 0 {
        None
    } else if configs[0].code_id == 0 {
        Some(ContractError::InvalidCodeId)
    } else if !configs[0].default_fee_info.is_valid() {
        Some(ContractError::InvalidFeeInfo)
    } else {
        first_bad_pool_config(configs.drop_first())
    }
}

fn check_pool_configs(configs: &Vec<PoolTypeConfig>) -> (r: Result<(), ContractError>)
    ensures
        match r {
            Ok(_) => first_bad_pool_config(configs@) is None,
            Err(e) => first_bad_pool_config(configs@) == Some(e),
        },
{
    let mut i: usize = 0;
    assert(configs@.skip(0) == configs@);
    while i < configs.len()
        invariant
            i <= configs.len(),
            first_bad_pool_config(configs@.skip(i as int)) == first_bad_pool_config(configs@),
        decreases configs.len() - i,
    {
        assert(configs@.skip(i as int).drop_first() == configs@.skip(i as int + 1));
        if configs[i].code_id == 0 {
            return Err(ContractError::InvalidCodeId);
        }
        if !configs[i].default_fee_info.valid_fee_info() {
            return Err(ContractError::InvalidFeeInfo);
        }
        i = i + 1;
    }
    assert(configs@.skip(configs.len() as int).len() == 0);
    Ok(())
}

/// Why the vault's instantiation is refused, if it is.
pub open spec fn instantiate_error(
    pool_configs: Seq<PoolTypeConfig>,
    lp_token_code_id: Option<u64>,
    pool_creation_fee: PoolCreationFee,
) -> Option<ContractError> {
    if !names_distinct(pool_type_names(pool_configs)) {
        Some(ContractError::PoolTypeConfigDuplicate)
    } else if lp_token_code_id == Some(0u64) {
        Some(ContractError::InvalidCodeId)
    } else if !creation_fee_ok(pool_creation_fee) {
        Some(ContractError::InvalidPoolCreationFee)
    } else {
        first_bad_pool_config(pool_configs)
    }
}

/// Instantiates the vault: validates the registry of pool types and the
/// settings, and returns the initial configuration (the registry is stored as given).
pub fn instantiate(
    owner: String,
    pool_configs: &Vec<PoolTypeConfig>,
    lp_token_code_id: Option<u64>,
    fee_collector: Option<String>,
    pool_creation_fee: PoolCreationFee,
    auto_stake_impl: AutoStakeImpl,
) -> (r: Result<VaultConfig, ContractError>)
    ensures
        match r {
            Ok(c) => instantiate_error(pool_configs@, lp_token_code_id, pool_creation_fee) is None
                && c.owner == owner && c.whitelisted_addresses@.len() == 0 && c.lp_token_code_id == lp_token_code_id
                && c.fee_collector == fee_collector && c.auto_stake_impl == auto_stake_impl
                && c.pool_creation_fee == pool_creation_fee && c.next_pool_id == 1
                && !c.paused.swap && !c.paused.deposit && !c.paused.imbalanced_withdraw,
            Err(e) => instantiate_error(pool_configs@, lp_token_code_id, pool_creation_fee) == Some(e),
        },
{
    if has_duplicate_pool_types(pool_configs) {
        return Err(ContractError::PoolTypeConfigDuplicate);
    }
    if let Some(code_id) = lp_token_code_id {
        if code_id == 0 {
            return Err(ContractError::InvalidCodeId);
        }
    }
    if !check_creation_fee(&pool_creation_fee) {
        return Err(ContractError::InvalidPoolCreationFee);
    }
    check_pool_configs(pool_configs)?;
    Ok(VaultConfig {
        owner,
        whitelisted_addresses: Vec::new(),
        lp_token_code_id,
        fee_collector,
        auto_stake_impl,
        pool_creation_fee,
        next_pool_id: 1,
        paused: PauseInfo::none(),
    })
}

/// The configuration after an update of its optional fields, or why it is refused.
pub open spec fn update_config_fields_spec(
    config: VaultConfig,
    lp_token_code_id: Option<u64>,
    fee_collector: Option<String>,
    pool_creation_fee: Option<PoolCreationFee>,
    auto_stake_impl: Option<AutoStakeImpl>,
    paused: Option<PauseInfo>,
) -> Result<VaultConfig, ContractError> {
    if lp_token_code_id == Some(0u64) {
        Err(ContractError::InvalidCodeId)
    } else if pool_creation_fee is Some && !creation_fee_ok(pool_creation_fee->Some_0) {
        Err(ContractError::InvalidPoolCreationFee)
    } else {
        Ok(VaultConfig {
            lp_token_code_id: if lp_token_code_id is Some { lp_token_code_id } else { config.lp_token_code_id },
            fee_collector: if fee_collector is Some { fee_collector } else { config.fee_collector },
            pool_creation_fee: if pool_creation_fee is Some { pool_creation_fee->Some_0 } else { config.pool_creation_fee },
            auto_stake_impl: if auto_stake_impl is Some { auto_stake_impl->Some_0 } else { config.auto_stake_impl },
            paused: if paused is Some { paused->Some_0 } else { config.paused },
            ..config
        })
    }
}

/// Applies an update of the vault's settings (without a permission check).
pub fn sudo_update_config(
    config: VaultConfig,
    lp_token_code_id: Option<u64>,
    fee_collector: Option<String>,
    pool_creation_fee: Option<PoolCreationFee>,
    auto_stake_impl: Option<AutoStakeImpl>,
    paused: Option<PauseInfo>,
) -> (r: Result<VaultConfig, ContractError>)
    ensures
        r == update_config_fields_spec(config, lp_token_code_id, fee_collector, pool_creation_fee, auto_stake_impl, paused),
{
    let mut config = config;
    if let Some(code_id) = lp_token_code_id {
        if code_id == 0 {
            return Err(ContractError::InvalidCodeId);
        }
        config.lp_token_code_id = Some(code_id);
    }
    if let Some(fc) = fee_collector {
        config.fee_collector = Some(fc);
    }
    if let Some(pcf) = pool_creation_fee {
        if !check_creation_fee(&pcf) {
            return Err(ContractError::InvalidPoolCreationFee);
        }
        config.pool_creation_fee = pcf;
    }
    if let Some(asi) = auto_stake_impl {
        config.auto_stake_impl = asi;
    }
    if let Some(p) = paused {
        config.paused = p;
    }
    Ok(config)
}

/// Updates the vault's settings; only the owner may.
pub fn execute_update_config(
    config: VaultConfig,
    sender: &String,
    lp_token_code_id: Option<u64>,
    fee_collector: Option<String>,
    pool_creation_fee: Option<PoolCreationFee>,
    auto_stake_impl: Option<AutoStakeImpl>,
    paused: Option<PauseInfo>,
) -> (r: Result<VaultConfig, ContractError>)
    ensures
        config.owner@ != sender@ ==> r == Err::<VaultConfig, ContractError>(ContractError::Unauthorized),
        config.owner@ == sender@ ==> r == update_config_fields_spec(config, lp_token_code_id, fee_collector, pool_creation_fee, auto_stake_impl, paused),
{
    if !config.owner.eq(sender) {
        return Err(ContractError::Unauthorized);
    }
    sudo_update_config(config, lp_token_code_id, fee_collector, pool_creation_fee, auto_stake_impl, paused)
}

/// What a pause update applies to: a stored pool or a registered pool type, as
/// loaded (`None` when absent).
pub enum PauseTarget {
    Pool(Option<PoolInfo>),
    PoolType(Option<PoolTypeConfig>),
}

/// The updated target of a pause update.
pub enum PauseUpdated {
    Pool(PoolInfo),
    PoolType(PoolTypeConfig),
}

/// The target with its pause switches replaced, or why it is refused.
pub open spec fn pause_update_spec(target: PauseTarget, pause_info: PauseInfo) -> Result<PauseUpdated, ContractError> {
    match target {
        PauseTarget::Pool(None) => Err(ContractError::InvalidPoolId),
        PauseTarget::Pool(Some(p)) => Ok(PauseUpdated::Pool(PoolInfo { paused: pause_info, ..p })),
        PauseTarget::PoolType(None) => Err(ContractError::PoolTypeConfigNotFound),
        PauseTarget::PoolType(Some(c)) => Ok(PauseUpdated::PoolType(PoolTypeConfig { paused: pause_info, ..c })),
    }
}

/// Replaces the pause switches of a pool or a pool type (without a permission check).
pub fn sudo_update_pause_info(target: PauseTarget, pause_info: PauseInfo) -> (r: Result<PauseUpdated, ContractError>)
    ensures
        r == pause_update_spec(target, pause_info),
{
    match target {
        PauseTarget::Pool(None) => Err(ContractError::InvalidPoolId),
        PauseTarget::Pool(Some(mut p)) => {
            p.paused = pause_info;
            Ok(PauseUpdated::Pool(p))
        },
        PauseTarget::PoolType(None) => Err(ContractError::PoolTypeConfigNotFound),
        PauseTarget::PoolType(Some(mut c)) => {
            c.paused = pause_info;
            Ok(PauseUpdated::PoolType(c))
        },
    }
}

/// Replaces the pause switches of a pool or a pool type; the owner or a
/// whitelisted address may.
pub fn execute_update_pause_info(config: &VaultConfig, sender: &String, target: PauseTarget, pause_info: PauseInfo) -> (r: Result<PauseUpdated, ContractError>)
    ensures
        !is_authorized(*config, sender@) ==> r is Err && r->Err_0 == ContractError::Unauthorized,
        is_authorized(*config, sender@) ==> r == pause_update_spec(target, pause_info),
{
    validate_authorized_caller(config, sender)?;
    sudo_update_pause_info(target, pause_info)
}

/// The pool type configuration after an update, or why it is refused.
pub open spec fn pool_type_update_spec(
    stored: Option<PoolTypeConfig>,
    allow_instantiation: Option<AllowPoolInstantiation>,
    new_fee_info: Option<FeeInfo>,
    paused: Option<PauseInfo>,
) -> Result<PoolTypeConfig, ContractError> {
    match stored {
        None => Err(ContractError::PoolTypeConfigNotFound),
        Some(c) => if new_fee_info is Some && !new_fee_info->Some_0.is_valid() {
            Err(ContractError::InvalidFeeInfo)
        } else {
            Ok(PoolTypeConfig {
                allow_instantiation: if allow_instantiation is Some { allow_instantiation->Some_0 } else { c.allow_instantiation },
                default_fee_info: if new_fee_info is Some { new_fee_info->Some_0 } else { c.default_fee_info },
                paused: if paused is Some { paused->Some_0 } else { c.paused },
                ..c
            })
        },
    }
}

/// Updates a registered pool type (without a permission check).
pub fn sudo_update_pool_type_config(
    stored: Option<PoolTypeConfig>,
    allow_instantiation: Option<AllowPoolInstantiation>,
    new_fee_info: Option<FeeInfo>,
    paused: Option<PauseInfo>,
) -> (r: Result<PoolTypeConfig, ContractError>)
    ensures
        r == pool_type_update_spec(stored, allow_instantiation, new_fee_info, paused),
{
    let mut c = match stored {
        None => return Err(ContractError::PoolTypeConfigNotFound),
        Some(c) => c,
    };
    if let Some(a) = allow_instantiation {
        c.allow_instantiation = a;
    }
    if let Some(f) = new_fee_info {
        if !f.valid_fee_info() {
            return Err(ContractError::InvalidFeeInfo);
        }
        c.default_fee_info = f;
    }
    if let Some(p) = paused {
        c.paused = p;
    }
    Ok(c)
}

/// Updates a registered pool type; only the owner may.
pub fn execute_update_pool_type_config(
    config: &VaultConfig,
    sender: &String,
    stored: Option<PoolTypeConfig>,
    allow_instantiation: Option<AllowPoolInstantiation>,
    new_fee_info: Option<FeeInfo>,
    paused: Option<PauseInfo>,
) -> (r: Result<PoolTypeConfig, ContractError>)
    ensures
        config.owner@ != sender@ ==> r is Err && r->Err_0 == ContractError::Unauthorized,
        config.owner@ == sender@ ==> r == pool_type_update_spec(stored, allow_instantiation, new_fee_info, paused),
{
    if !config.owner.eq(sender) {
        return Err(ContractError::Unauthorized);
    }
    sudo_update_pool_type_config(stored, allow_instantiation, new_fee_info, paused)
}

/// A pool's settings after an update, with the message that tells the pool
/// its new fee when the fee changed; or why it is refused.
pub open spec fn pool_config_update_spec(stored: Option<PoolInfo>, fee_info: Option<FeeInfo>, paused: Option<PauseInfo>) -> Result<(PoolInfo, Seq<MsgView>), ContractError> {
    match stored {
        None => Err(ContractError::NotFound),
        Some(p) => if fee_info is Some && !fee_info->Some_0.is_valid() {
            Err(ContractError::InvalidFeeInfo)
        } else {
            let p2 = PoolInfo {
                fee_info: if fee_info is Some { fee_info->Some_0 } else { p.fee_info },
                paused: if paused is Some { paused->Some_0 } else { p.paused },
                ..p
            };
            let msgs = if fee_info is Some {
                seq![MsgView::UpdateFee { pool_addr: p.pool_addr, total_fee_bps: fee_info->Some_0.total_fee_bps }]
            } else {
                seq![]
            };
            Ok((p2, msgs))
        },
    }
}

/// Updates a pool's fee and pause switches (without a permission check).
pub fn sudo_update_pool_config(stored: Option<PoolInfo>, fee_info: Option<FeeInfo>, paused: Option<PauseInfo>) -> (r: Result<(PoolInfo, Vec<VaultMsg>), ContractError>)
    ensures
        match r {
            Ok((p, m)) => pool_config_update_spec(stored, fee_info, paused) == Ok::<(PoolInfo, Seq<MsgView>), ContractError>((p, views(m@))),
            Err(e) => pool_config_update_spec(stored, fee_info, paused) == Err::<(PoolInfo, Seq<MsgView>), ContractError>(e),
        },
{
    let mut p = match stored {
        None => return Err(ContractError::NotFound),
        Some(p) => p,
    };
    let mut msgs: Vec<VaultMsg> = Vec::new();
    if let Some(f) = fee_info {
        if !f.valid_fee_info() {
            return Err(ContractError::InvalidFeeInfo);
        }
        p.fee_info = f;
        msgs.push(VaultMsg::UpdateFee { pool_addr: p.pool_addr.clone(), total_fee_bps: f.total_fee_bps });
    }
    assert(views(msgs@) =~= pool_config_update_spec(stored, fee_info, paused)->Ok_0.1);
    if let Some(x) = paused {
        p.paused = x;
    }
    Ok((p, msgs))
}

/// Updates a pool's fee and pause switches; only the owner may.
pub fn execute_update_pool_config(config: &VaultConfig, sender: &String, stored: Option<PoolInfo>, fee_info: Option<FeeInfo>, paused: Option<PauseInfo>) -> (r: Result<(PoolInfo, Vec<VaultMsg>), ContractError>)
    ensures
        config.owner@ != sender@ ==> r is Err && r->Err_0 == ContractError::Unauthorized,
        config.owner@ == sender@ ==> match r {
            Ok((p, m)) => pool_config_update_spec(stored, fee_info, paused) == Ok::<(PoolInfo, Seq<MsgView>), ContractError>((p, views(m@))),
            Err(e) => pool_config_update_spec(stored, fee_info, paused) == Err::<(PoolInfo, Seq<MsgView>), ContractError>(e),
        },
{
    if !config.owner.eq(sender) {
        return Err(ContractError::Unauthorized);
    }
    sudo_update_pool_config(stored, fee_info, paused)
}

/// Hands new parameters to a pool (without a permission check): the message to the pool.
pub fn sudo_update_pool_params(stored: Option<PoolInfo>, params: Vec<u8>) -> (r: Result<VaultMsg, ContractError>)
    ensures
        match stored {
            None => r is Err && r->Err_0 == ContractError::NotFound,
            Some(p) => r is Ok && r->Ok_0@ == (MsgView::UpdateParams { pool_addr: p.pool_addr, params: params@ }),
        },
{
    match stored {
        None => Err(ContractError::NotFound),
        Some(p) => Ok(VaultMsg::UpdateParams { pool_addr: p.pool_addr.clone(), params }),
    }
}

/// Hands new parameters to a pool; only the owner may.
pub fn execute_update_pool_params(config: &VaultConfig, sender: &String, stored: Option<PoolInfo>, params: Vec<u8>) -> (r: Result<VaultMsg, ContractError>)
    ensures
        config.owner@ != sender@ ==> r is Err && r->Err_0 == ContractError::Unauthorized,
        config.owner@ == sender@ ==> match stored {
            None => r is Err && r->Err_0 == ContractError::NotFound,
            Some(p) => r is Ok && r->Ok_0@ == (MsgView::UpdateParams { pool_addr: p.pool_addr, params: params@ }),
        },
{
    if !config.owner.eq(sender) {
        return Err(ContractError::Unauthorized);
    }
    sudo_update_pool_params(stored, params)
}

/// Adds `address` to the whitelist; only the owner may, the owner cannot be
/// added, and an address is added once.
pub fn execute_add_address_to_whitelist(config: VaultConfig, sender: &String, address: String) -> (r: Result<VaultConfig, ContractError>)
    ensures
        config.owner@ != sender@ ==> r is Err && r->Err_0 == ContractError::Unauthorized,
        config.owner@ == sender@ && address@ == config.owner@ ==> r is Err && r->Err_0 == ContractError::CannotAddOwnerToWhitelist,
        config.owner@ == sender@ && address@ != config.owner@ && contains_str(config.whitelisted_addresses@, address@)
            ==> r is Err && r->Err_0 == ContractError::AddressAlreadyWhitelisted,
        config.owner@ == sender@ && address@ != config.owner@ && !contains_str(config.whitelisted_addresses@, address@)
            ==> r is Ok && r->Ok_0 == (VaultConfig { whitelisted_addresses: r->Ok_0.whitelisted_addresses, ..config })
                && r->Ok_0.whitelisted_addresses@ == config.whitelisted_addresses@.push(address),
{
    if !config.owner.eq(sender) {
        return Err(ContractError::Unauthorized);
    }
    if address.eq(&config.owner) {
        return Err(ContractError::CannotAddOwnerToWhitelist);
    }
    if list_contains(&config.whitelisted_addresses, &address) {
        return Err(ContractError::AddressAlreadyWhitelisted);
    }
    let mut config = config;
    config.whitelisted_addresses.push(address);
    Ok(config)
}

/// The addresses of `list` other than `x`, in order.
pub open spec fn without(list: Seq<String>, x: Seq<char>) -> Seq<String> {
    list.filter(|s: String| s@ != x)
}

/// Removes `address` from the whitelist; only the owner may, and only a listed address.
pub fn execute_remove_address_from_whitelist(config: VaultConfig, sender: &String, address: String) -> (r: Result<VaultConfig, ContractError>)
    ensures
        config.owner@ != sender@ ==> r is Err && r->Err_0 == ContractError::Unauthorized,
        config.owner@ == sender@ && !contains_str(config.whitelisted_addresses@, address@)
            ==> r is Err && r->Err_0 == ContractError::AddressNotWhitelisted,
        config.owner@ == sender@ && contains_str(config.whitelisted_addresses@, address@)
            ==> r is Ok && r->Ok_0 == (VaultConfig { whitelisted_addresses: r->Ok_0.whitelisted_addresses, ..config })
                && r->Ok_0.whitelisted_addresses@ == without(config.whitelisted_addresses@, address@),
{
    if !config.owner.eq(sender) {
        return Err(ContractError::Unauthorized);
    }
    if !list_contains(&config.whitelisted_addresses, &address) {
        return Err(ContractError::AddressNotWhitelisted);
    }
    let ghost old_list = config.whitelisted_addresses@;
    let mut kept: Vec<String> = Vec::new();
    let mut i: usize = 0;
    while i < config.whitelisted_addresses.len()
        invariant
            i <= config.whitelisted_addresses.len(),
            old_list == config.whitelisted_addresses@,
            kept@ == without(old_list.take(i as int), address@),
        decreases config.whitelisted_addresses.len() - i,
    {
        let s = &config.whitelisted_addresses[i];
        assert(old_list.take(i as int + 1).drop_last() == old_list.take(i as int));
        reveal_with_fuel(Seq::filter, 1);
        if !s.eq(&address) {
            kept.push(s.clone());
        }
        i = i + 1;
    }
    assert(old_list.take(old_list.len() as int) == old_list);
    let mut config = config;
    config.whitelisted_addresses = kept;
    Ok(config)
}

/// Removing an address right after adding it restores the whitelist.
pub proof fn law_whitelist_add_then_remove(list: Seq<String>, address: String)
    requires
        !contains_str(list, address@),
    ensures
        without(list.push(address), address@) == list,
{
    let l2 = list.push(address);
    assert(l2.drop_last() == list);
    reveal_with_fuel(Seq::filter, 1);
    assert(without(l2, address@) == without(list, address@));
    lemma_without_absent(list, address@);
}

proof fn lemma_without_absent(list: Seq<String>, x: Seq<char>)
    requires
        !contains_str(list, x),
    ensures
        without(list, x) == list,
    decreases list.len(),
{
    reveal_with_fuel(Seq::filter, 1);
    if list.len() > 0 {
        assert(!contains_str(list.drop_last(), x)) by {
            if contains_str(list.drop_last(), x) {
                let i = choose|i: int| 0 <= i < list.drop_last().len() && (#[trigger] list.drop_last()[i])@ == x;
                assert(list[i]@ == x);
            }
        }
        lemma_without_absent(list.drop_last(), x);
        assert(list[list.len() - 1]@ != x);
        assert(list.drop_last().push(list.last()) == list);
    }
}

/// The pool type configuration to register, or why it is refused.
pub open spec fn add_to_registry_spec(new_config: PoolTypeConfig, already_registered: bool) -> Result<PoolTypeConfig, ContractError> {
    if new_config.code_id == 0 {
        Err(ContractError::InvalidCodeId)
    } else if already_registered {
        Err(ContractError::PoolTypeAlreadyExists)
    } else if !new_config.default_fee_info.is_valid() {
        Err(ContractError::InvalidFeeInfo)
    } else {
        Ok(new_config)
    }
}

/// Registers a new pool type (without a permission check).
pub fn sudo_add_to_registry(new_config: PoolTypeConfig, already_registered: bool) -> (r: Result<PoolTypeConfig, ContractError>)
    ensures
        r == add_to_registry_spec(new_config, already_registered),
{
    if new_config.code_id == 0 {
        return Err(ContractError::InvalidCodeId);
    }
    if already_registered {
        return Err(ContractError::PoolTypeAlreadyExists);
    }
    if !new_config.default_fee_info.valid_fee_info() {
        return Err(ContractError::InvalidFeeInfo);
    }
    Ok(new_config)
}

/// Registers a new pool type; only the owner may.
pub fn execute_add_to_registry(config: &VaultConfig, sender: &String, new_config: PoolTypeConfig, already_registered: bool) -> (r: Result<PoolTypeConfig, ContractError>)
    ensures
        config.owner@ != sender@ ==> r is Err && r->Err_0 == ContractError::Unauthorized,
        config.owner@ == sender@ ==> r == add_to_registry_spec(new_config, already_registered),
{
    if !config.owner.eq(sender) {
        return Err(ContractError::Unauthorized);
    }
    sudo_add_to_registry(new_config, already_registered)
}

/// Why a migration from version `previous` of contract `name` is refused, if it
/// is; `stored_name` and `stored_version` are the recorded ones.
pub open spec fn migrate_spec(stored_name: Seq<char>, stored_version: Seq<char>, name: Seq<char>, previous: Seq<char>, configs: Seq<PoolTypeConfig>) -> Option<MigrateRefusal> {
    if stored_name != name {
        Some(MigrateRefusal::WrongName)
    } else if stored_version != previous {
        Some(MigrateRefusal::WrongVersion)
    } else {
        match first_bad_pool_config(configs) {
            Some(e) => Some(MigrateRefusal::BadConfig(e)),
            None => None,
        }
    }
}

/// The kinds of refusal of a migration.
pub enum MigrateRefusal {
    WrongName,
    WrongVersion,
    BadConfig(ContractError),
}

/// Checks a migration from version `previous` of contract `name`: the stored
/// name and version must match and every re-registered pool type must be valid.
pub fn migrate(stored_name: &String, stored_version: &String, name: &String, previous: &String, version: &String, configs: &Vec<PoolTypeConfig>) -> (r: Result<(), ContractError>)
    ensures
        r is Ok <==> migrate_spec(stored_name@, stored_version@, name@, previous@, configs@) is None,
        migrate_spec(stored_name@, stored_version@, name@, previous@, configs@) == Some(MigrateRefusal::WrongName)
            ==> r == Err::<(), ContractError>(ContractError::InvalidContractNameForMigration { expected: *name, actual: *stored_name }),
        migrate_spec(stored_name@, stored_version@, name@, previous@, configs@) == Some(MigrateRefusal::WrongVersion)
            ==> r == Err::<(), ContractError>(ContractError::InvalidContractVersionForUpgrade { upgrade_version: *version, expected: *previous, actual: *stored_version }),
        forall|e: ContractError| migrate_spec(stored_name@, stored_version@, name@, previous@, configs@) == Some(MigrateRefusal::BadConfig(e))
            ==> r == Err::<(), ContractError>(e),
{
    if !stored_name.eq(name) {
        return Err(ContractError::InvalidContractNameForMigration { expected: name.clone(), actual: stored_name.clone() });
    }
    if !stored_version.eq(previous) {
        return Err(ContractError::InvalidContractVersionForUpgrade {
            upgrade_version: version.clone(),
            expected: previous.clone(),
            actual: stored_version.clone(),
        });
    }
    check_pool_configs(configs)
}

} // verus!
