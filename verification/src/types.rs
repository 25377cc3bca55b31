//! Assets and the identifiers of the tokens they are made of.
use vstd::prelude::*;

verus! {

/// What an asset identifier stands for: a CW20 contract address or a native denom.
pub enum AssetKey {
    Token(Seq<char>),
    Native(Seq<char>),
}

/// Identifies a token: a CW20 contract or a native denom.
#[derive(Clone, Debug)]
pub enum AssetInfo {
    Token { contract_addr: String },
    NativeToken { denom: String },
}

impl View for AssetInfo {
    type V = AssetKey;

    open spec fn view(&self) -> AssetKey {
        match self {
            AssetInfo::Token { contract_addr } => AssetKey::Token(contract_addr@),
            AssetInfo::NativeToken { denom } => AssetKey::Native(denom@),
        }
    }
}

impl AssetInfo {
    /// The address or denom, whichever this identifier holds.
    pub open spec fn label(&self) -> Seq<char> {
        match self {
            AssetInfo::Token { contract_addr } => contract_addr@,
            AssetInfo::NativeToken { denom } => denom@,
        }
    }

    pub open spec fn is_native(&self) -> bool {
        self is NativeToken
    }

    /// The address or denom as a string.
    pub fn as_str(&self) -> (r: &String)
        ensures
            r@ == self.label(),
            *r == self.label_string(),
    {
        match self {
            AssetInfo::Token { contract_addr } => contract_addr,
            AssetInfo::NativeToken { denom } => denom,
        }
    }

    pub fn is_native_token(&self) -> (r: bool)
        ensures
            r == self.is_native(),
    {
        match self {
            AssetInfo::Token { .. } => false,
            AssetInfo::NativeToken { .. } => true,
        }
    }

    /// The address or denom, as the string it is held in.
    pub open spec fn label_string(&self) -> String {
        match self {
            AssetInfo::Token { contract_addr } => *contract_addr,
            AssetInfo::NativeToken { denom } => *denom,
        }
    }

    /// A copy of this identifier.
    pub fn copy(&self) -> (r: AssetInfo)
        ensures
            r == *self,
    {
        match self {
            AssetInfo::Token { contract_addr } => AssetInfo::Token { contract_addr: contract_addr.clone() },
            AssetInfo::NativeToken { denom } => AssetInfo::NativeToken { denom: denom.clone() },
        }
    }

    /// Equality of identifiers: same kind and same address or denom.
    pub fn same(&self, other: &AssetInfo) -> (r: bool)
        ensures
            r == (self@ == other@),
    {
        match self {
            AssetInfo::Token { contract_addr: a } => match other {
                AssetInfo::Token { contract_addr: b } => {
                    let r = a.eq(b);
                    r
                },
                AssetInfo::NativeToken { .. } => false,
            },
            AssetInfo::NativeToken { denom: a } => match other {
                AssetInfo::NativeToken { denom: b } => {
                    let r = a.eq(b);
                    r
                },
                AssetInfo::Token { .. } => false,
            },
        }
    }
}

/// An amount of a token.
#[derive(Clone, Debug)]
pub struct Asset {
    pub info: AssetInfo,
    pub amount: u128,
}

impl Asset {
    /// A copy of this asset.
    pub fn copy(&self) -> (r: Asset)
        ensures
            r == *self,
    {
        Asset { info: self.info.copy(), amount: self.amount }
    }
}

/// Native tokens sent along with a message.
#[derive(Clone, Debug)]
pub struct Coin {
    pub denom: String,
    pub amount: u128,
}

/// The amount of `denom` among `funds`: that of the first coin of that denom, or zero.
pub open spec fn sent_amount(funds: Seq<Coin>, denom: Seq<char>) -> nat
    decreases funds.len(),
{
    if funds.len() == 0 {
        0
    } else if funds[0].denom@ == denom {
        funds[0].amount as nat
    } else {
        sent_amount(funds.drop_first(), denom)
    }
}

/// The amount of `denom` sent along: that of the first coin of that denom, or zero.
pub fn find_sent_native_token_balance(funds: &Vec<Coin>, denom: &String) -> (r: u128)
    ensures
        r == sent_amount(funds@, denom@),
{
    let mut i: usize = 0;
    assert(funds@.skip(0) == funds@);
    while i < funds.len()
        invariant
            i <= funds.len(),
            sent_amount(funds@.skip(i as int), denom@) == sent_amount(funds@, denom@),
        decreases funds.len() - i,
    {
        assert(funds@.skip(i as int).drop_first() == funds@.skip(i as int + 1));
        if funds[i].denom.eq(denom) {
            return funds[i].amount;
        }
        i = i + 1;
    }
    assert(funds@.skip(funds.len() as int).len() == 0);
    0
}

/// The amounts of a sequence of assets.
pub open spec fn amounts_of(assets: Seq<Asset>) -> Seq<u128> {
    assets.map_values(|a: Asset| a.amount)
}

/// Copies the amounts out of a list of assets.
pub fn amounts(assets: &Vec<Asset>) -> (r: Vec<u128>)
    ensures
        r@ == amounts_of(assets@),
{
    let mut r: Vec<u128> = Vec::new();
    let mut i: usize = 0;
    while i < assets.len()
        invariant
            i <= assets.len(),
            r@ == amounts_of(assets@.take(i as int)),
        decreases assets.len() - i,
    {
        r.push(assets[i].amount);
        assert(amounts_of(assets@.take(i as int + 1)) == amounts_of(assets@.take(i as int)).push(assets@[i as int].amount));
        i = i + 1;
    }
    assert(assets@.take(assets.len() as int) == assets@);
    r
}

} // verus!
