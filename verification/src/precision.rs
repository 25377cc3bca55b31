//! Token precisions, proportional shares and fee splits.
use vstd::prelude::*;
use crate::wide::{pow10, pow10_u128, lemma_pow10_mono, decimal_fractional, u128_modulus,
    decimal_checked_from_ratio, uint128_mul_decimal};
use crate::stableswap::MathError;
use crate::types::{Asset, AssetInfo};

verus! {

/// `value` carried from `current` to `new` decimal places: multiplied or
/// divided (floored) by the power of ten between them; `None` when the product
/// overflows.
pub open spec fn adjust_precision_spec(value: u128, current: u8, new: u8) -> Option<nat> {
    if current == new {
        Some(value as nat)
    } else if current < new {
        let v = (value as nat) * pow10((new - current) as nat);
        if v < u128_modulus() { Some(v) } else { None }
    } else {
        Some((value as nat) / pow10((current - new) as nat))
    }
}

/// Returns `value`, given at `current` decimal places, at `new` decimal places.
pub fn adjust_precision(value: u128, current: u8, new: u8) -> (r: Result<u128, MathError>)
    requires
        current < new ==> new - current <= 38,
        current > new ==> current - new <= 38,
    ensures
        match r {
            Ok(v) => adjust_precision_spec(value, current, new) == Some(v as nat),
            Err(e) => e == MathError::Overflow && adjust_precision_spec(value, current, new) is None,
        },
{
    if current == new {
        Ok(value)
    } else if current < new {
        let f = pow10_u128((new - current) as u32);
        match value.checked_mul(f) {
            Some(v) => Ok(v),
            None => Err(MathError::Overflow),
        }
    } else {
        let f = pow10_u128((current - new) as u32);
        proof { lemma_pow10_mono(0, (current - new) as nat); }
        Ok(value / f)
    }
}

/// Raising the precision and lowering it back gives the value back.
pub proof fn law_adjust_precision_round_trip(value: u128, low: u8, high: u8)
    requires
        low <= high,
        adjust_precision_spec(value, low, high) is Some,
    ensures
        ({
            let up = adjust_precision_spec(value, low, high)->Some_0;
            adjust_precision_spec(up as u128, high, low) == Some(value as nat)
        }),
{
    if low < high {
        let p = pow10((high - low) as nat);
        lemma_pow10_mono(0, (high - low) as nat);
        assert((value as nat) * p / p == value as nat) by (nonlinear_arith)
            requires
                p >= 1,
        ;
    }
}

/// Each pool's part for `amount` of `total_share` LP tokens:
/// `balance * ratio / 10^18` with `ratio = amount * 10^18 / total_share`
/// (zero when nothing has been issued).
pub open spec fn share_ratio(amount: u128, total_share: u128) -> nat {
    if total_share == 0 {
        0
    } else {
        (amount as nat) * decimal_fractional() / (total_share as nat)
    }
}

pub open spec fn share_of(balance: u128, amount: u128, total_share: u128) -> nat {
    (balance as nat) * share_ratio(amount, total_share) / decimal_fractional()
}

/// The inputs on which computing the shares does not overflow.
pub open spec fn share_fits(pools: Seq<Asset>, amount: u128, total_share: u128) -> bool {
    &&& share_ratio(amount, total_share) < u128_modulus()
    &&& forall|i: int| 0 <= i < pools.len() ==> share_of(#[trigger] pools[i].amount, amount, total_share) < u128_modulus()
}

/// The assets that `amount` LP tokens out of `total_share` stand for.
pub fn get_share_in_assets(pools: &Vec<Asset>, amount: u128, total_share: u128) -> (r: Vec<Asset>)
    requires
        share_fits(pools@, amount, total_share),
    ensures
        r@.len() == pools@.len(),
        forall|i: int| 0 <= i < pools@.len() ==> (#[trigger] r@[i]).info@ == pools@[i].info@
            && r@[i].amount == share_of(pools@[i].amount, amount, total_share),
{
    let ratio: u128 = if total_share != 0 {
        match decimal_checked_from_ratio(amount, total_share) {
            Some(x) => x,
            None => { proof { assert(false); } 0 },
        }
    } else {
        0
    };
    let mut r: Vec<Asset> = Vec::new();
    let mut i: usize = 0;
    while i < pools.len()
        invariant
            i <= pools.len(),
            ratio == share_ratio(amount, total_share),
            share_fits(pools@, amount, total_share),
            r@.len() == i,
            forall|j: int| 0 <= j < i ==> (#[trigger] r@[j]).info@ == pools@[j].info@
                && r@[j].amount == share_of(pools@[j].amount, amount, total_share),
        decreases pools.len() - i,
    {
        assert(share_of(pools@[i as int].amount, amount, total_share) < u128_modulus());
        let amt = uint128_mul_decimal(pools[i].amount, ratio);
        r.push(Asset { info: pools[i].info.copy(), amount: amt });
        i = i + 1;
    }
    r
}

/// A holder of at most the whole supply never gets more than a pool holds.
pub proof fn law_share_at_most_balance(balance: u128, amount: u128, total_share: u128)
    requires
        amount <= total_share,
    ensures
        share_of(balance, amount, total_share) <= balance,
{
    let f = decimal_fractional();
    if total_share != 0 {
        assert((amount as nat) * f / (total_share as nat) <= f) by (nonlinear_arith)
            requires
                amount <= total_share,
                total_share > 0,
                f > 0,
        ;
        let q = (amount as nat) * f / (total_share as nat);
        assert((balance as nat) * q / f <= balance as nat) by (nonlinear_arith)
            requires
                q <= f,
                f > 0,
        ;
    }
}

/// The largest total fee a pool type or pool may charge, in basis points.
pub const MAX_TOTAL_FEE_BPS: u16 = 1_000;
/// The largest part of the total fee, in percent, that goes to the protocol.
pub const MAX_PROTOCOL_FEE_PERCENT: u16 = 50;

/// The fee settings of a pool or pool type.
#[derive(Clone, Copy, Debug)]
pub struct FeeInfo {
    pub total_fee_bps: u16,
    pub protocol_fee_percent: u16,
}

impl FeeInfo {
    pub open spec fn is_valid(&self) -> bool {
        self.total_fee_bps <= MAX_TOTAL_FEE_BPS && self.protocol_fee_percent <= MAX_PROTOCOL_FEE_PERCENT
    }

    /// Whether both fees are within their limits.
    pub fn valid_fee_info(&self) -> (r: bool)
        ensures
            r == self.is_valid(),
    {
        self.total_fee_bps <= MAX_TOTAL_FEE_BPS && self.protocol_fee_percent <= MAX_PROTOCOL_FEE_PERCENT
    }

    /// The protocol's part of `total_fee`: `total_fee * percent / 100`, floored.
    pub open spec fn protocol_fee(&self, total_fee: u128) -> nat {
        (total_fee as nat) * ((self.protocol_fee_percent as nat) * decimal_fractional() / 100) / decimal_fractional()
    }

    /// The protocol's part of `total_fee`, as `total_fee * Decimal::from_ratio(percent, 100)`.
    pub fn calculate_total_fee_breakup(&self, total_fee: u128) -> (r: u128)
        requires
            self.protocol_fee_percent <= 100,
        ensures
            r == self.protocol_fee(total_fee),
            r <= total_fee,
    {
        let ratio = match decimal_checked_from_ratio(self.protocol_fee_percent as u128, 100) {
            Some(x) => x,
            None => { proof { assert(false); } 0 },
        };
        proof {
            let f = decimal_fractional();
            assert(ratio <= f) by (nonlinear_arith)
                requires
                    ratio == (self.protocol_fee_percent as nat) * f / 100,
                    self.protocol_fee_percent <= 100,
                    f > 0,
            ;
            assert((total_fee as nat) * (ratio as nat) / f <= total_fee as nat) by (nonlinear_arith)
                requires
                    ratio <= f,
                    f > 0,
            ;
        }
        uint128_mul_decimal(total_fee, ratio)
    }
}

/// The protocol's part of a fee is exactly `total_fee * percent / 100`, floored.
pub proof fn law_protocol_fee_is_percentage(fee: FeeInfo, total_fee: u128)
    ensures
        fee.protocol_fee(total_fee) == (total_fee as nat) * (fee.protocol_fee_percent as nat) / 100,
{
    let f = decimal_fractional();
    let p = fee.protocol_fee_percent as nat;
    assert(p * f / 100 == p * 10_000_000_000_000_000) by (nonlinear_arith)
        requires
            f == 1_000_000_000_000_000_000nat,
    ;
    assert((total_fee as nat) * (p * 10_000_000_000_000_000) / f == (total_fee as nat) * p / 100) by (nonlinear_arith)
        requires
            f == 1_000_000_000_000_000_000nat,
    ;
}

} // verus!
