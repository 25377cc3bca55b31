//! Wide unsigned integers and fixed-point decimals.
//!
//! `U256` holds a 256-bit unsigned integer as 32 big-endian bytes. All
//! arithmetic on it is performed by `cosmwasm_std::Uint256` and
//! `cosmwasm_std::Decimal256` (18 decimal places) through the trusted
//! wrappers below; their contracts are stated over `U256::value`.
use vstd::prelude::*;
use cosmwasm_std::{Decimal, Decimal256, Uint128, Uint256};

verus! {

/// 2^256.
pub open spec fn u256_modulus() -> nat {
    115792089237316195423570985008687907853269984665640564039457584007913129639936nat
}

/// 2^128.
pub open spec fn u128_modulus() -> nat {
    340282366920938463463374607431768211456nat
}

/// 10^18, the scale of `Decimal` and `Decimal256`.
pub open spec fn decimal_fractional() -> nat {
    1_000_000_000_000_000_000nat
}

/// Big-endian value of a byte sequence.
pub open spec fn be_value(s: Seq<u8>) -> nat
    decreases s.len(),
{
    if s.len() == 0 {
        0
    } else {
        be_value(s.drop_last()) * 256 + s.last() as nat
    }
}

/// 256^k.
pub open spec fn pow256(k: nat) -> nat
    decreases k,
{
    if k == 0 {
        1
    } else {
        256 * pow256((k - 1) as nat)
    }
}

pub proof fn lemma_be_value_bound(s: Seq<u8>)
    ensures
        be_value(s) < pow256(s.len()),
    decreases s.len(),
{
    if s.len() > 0 {
        lemma_be_value_bound(s.drop_last());
        let p = pow256((s.len() - 1) as nat);
        let v = be_value(s.drop_last());
        let l = s.last() as nat;
        assert(v * 256 + l < 256 * p) by (nonlinear_arith)
            requires
                v < p,
                l < 256,
        ;
    }
}

proof fn lemma_pow256_32()
    ensures
        pow256(32) == u256_modulus(),
{
    reveal_with_fuel(pow256, 33);
}

/// A 256-bit unsigned integer, stored as 32 big-endian bytes.
#[derive(Clone, Copy, Debug)]
pub struct U256 {
    pub bytes: [u8; 32],
}

impl U256 {
    /// The integer that the bytes stand for.
    pub open spec fn value(&self) -> nat {
        be_value(self.bytes@)
    }
}

/// Every `U256` lies below 2^256.
pub proof fn lemma_u256_bound(x: U256)
    ensures
        x.value() < u256_modulus(),
{
    lemma_be_value_bound(x.bytes@);
    lemma_pow256_32();
}

/// `Uint256::from_u128`: the value is the argument.
#[verifier::external_body]
pub(crate) fn u256_from_u128(x: u128) -> (r: U256)
    ensures
        r.value() == x,
{
    U256 { bytes: Uint256::from_u128(x).to_be_bytes() }
}

/// `Uint128::try_from(Uint256)`: succeeds exactly when the value fits in 128 bits.
#[verifier::external_body]
pub(crate) fn u256_to_u128(x: U256) -> (r: Option<u128>)
    ensures
        match r {
            Some(v) => v == x.value(),
            None => x.value() >= u128_modulus(),
        },
{
    match Uint128::try_from(Uint256::new(x.bytes)) {
        Ok(v) => Some(v.u128()),
        Err(_) => None,
    }
}

/// `Uint256::is_zero`.
#[verifier::external_body]
pub(crate) fn u256_is_zero(x: U256) -> (r: bool)
    ensures
        r == (x.value() == 0),
{
    Uint256::new(x.bytes).is_zero()
}

/// `<` on `Uint256`.
#[verifier::external_body]
pub(crate) fn u256_lt(a: U256, b: U256) -> (r: bool)
    ensures
        r == (a.value() < b.value()),
{
    Uint256::new(a.bytes) < Uint256::new(b.bytes)
}

/// `Uint256::checked_add`: fails exactly on overflow.
#[verifier::external_body]
pub(crate) fn u256_checked_add(a: U256, b: U256) -> (r: Option<U256>)
    ensures
        match r {
            Some(c) => c.value() == a.value() + b.value(),
            None => a.value() + b.value() >= u256_modulus(),
        },
{
    match Uint256::new(a.bytes).checked_add(Uint256::new(b.bytes)) {
        Ok(c) => Some(U256 { bytes: c.to_be_bytes() }),
        Err(_) => None,
    }
}

/// `Uint256::checked_sub`: fails exactly on underflow.
#[verifier::external_body]
pub(crate) fn u256_checked_sub(a: U256, b: U256) -> (r: Option<U256>)
    ensures
        match r {
            Some(c) => a.value() >= b.value() && c.value() == a.value() - b.value(),
            None => a.value() < b.value(),
        },
{
    match Uint256::new(a.bytes).checked_sub(Uint256::new(b.bytes)) {
        Ok(c) => Some(U256 { bytes: c.to_be_bytes() }),
        Err(_) => None,
    }
}

/// `Uint256::checked_mul`: fails exactly on overflow.
#[verifier::external_body]
pub(crate) fn u256_checked_mul(a: U256, b: U256) -> (r: Option<U256>)
    ensures
        match r {
            Some(c) => c.value() == a.value() * b.value(),
            None => a.value() * b.value() >= u256_modulus(),
        },
{
    match Uint256::new(a.bytes).checked_mul(Uint256::new(b.bytes)) {
        Ok(c) => Some(U256 { bytes: c.to_be_bytes() }),
        Err(_) => None,
    }
}

/// `Uint256::checked_div`: floor division, fails exactly on a zero divisor.
#[verifier::external_body]
pub(crate) fn u256_checked_div(a: U256, b: U256) -> (r: Option<U256>)
    ensures
        match r {
            Some(c) => b.value() != 0 && c.value() == a.value() / b.value(),
            None => b.value() == 0,
        },
{
    match Uint256::new(a.bytes).checked_div(Uint256::new(b.bytes)) {
        Ok(c) => Some(U256 { bytes: c.to_be_bytes() }),
        Err(_) => None,
    }
}

/// `Uint256::checked_multiply_ratio`: `a * num / den` floored, computed without
/// intermediate overflow; fails exactly when `den` is zero or the result does not fit.
#[verifier::external_body]
pub(crate) fn u256_checked_multiply_ratio(a: U256, num: U256, den: U256) -> (r: Option<U256>)
    ensures
        match r {
            Some(c) => den.value() != 0 && c.value() == a.value() * num.value() / den.value(),
            None => den.value() == 0 || a.value() * num.value() / den.value() >= u256_modulus(),
        },
{
    match Uint256::new(a.bytes).checked_multiply_ratio(Uint256::new(num.bytes), Uint256::new(den.bytes)) {
        Ok(c) => Some(U256 { bytes: c.to_be_bytes() }),
        Err(_) => None,
    }
}

/// `Decimal256::checked_mul` on atomics: `a * b / 10^18` floored; fails exactly on overflow.
#[verifier::external_body]
pub(crate) fn dec256_checked_mul(a: U256, b: U256) -> (r: Option<U256>)
    ensures
        match r {
            Some(c) => c.value() == a.value() * b.value() / decimal_fractional(),
            None => a.value() * b.value() / decimal_fractional() >= u256_modulus(),
        },
{
    match Decimal256::new(Uint256::new(a.bytes)).checked_mul(Decimal256::new(Uint256::new(b.bytes))) {
        Ok(c) => Some(U256 { bytes: c.atomics().to_be_bytes() }),
        Err(_) => None,
    }
}

/// `Decimal256::checked_div` on atomics: `a * 10^18 / b` floored; fails exactly
/// when `b` is zero or the result does not fit.
#[verifier::external_body]
pub(crate) fn dec256_checked_div(a: U256, b: U256) -> (r: Option<U256>)
    ensures
        match r {
            Some(c) => b.value() != 0 && c.value() == a.value() * decimal_fractional() / b.value(),
            None => b.value() == 0 || a.value() * decimal_fractional() / b.value() >= u256_modulus(),
        },
{
    match Decimal256::new(Uint256::new(a.bytes)).checked_div(Decimal256::new(Uint256::new(b.bytes))) {
        Ok(c) => Some(U256 { bytes: c.atomics().to_be_bytes() }),
        Err(_) => None,
    }
}

/// 10^k.
pub open spec fn pow10(k: nat) -> nat
    decreases k,
{
    if k == 0 {
        1
    } else {
        10 * pow10((k - 1) as nat)
    }
}

/// `Decimal256::from_atomics`: the atomics of `x / 10^places` at 18 decimal
/// places, i.e. `x * 10^(18 - places)` (failing on overflow) when `places <= 18`
/// and `x / 10^(places - 18)` floored otherwise.
#[verifier::external_body]
pub(crate) fn dec256_from_atomics(x: U256, places: u32) -> (r: Option<U256>)
    ensures
        r is Some <==> (places > 18 || x.value() * pow10((18 - places) as nat) < u256_modulus()),
        r is Some && places <= 18 ==> r.unwrap().value() == x.value() * pow10((18 - places) as nat),
        r is Some && places > 18 ==> r.unwrap().value() == x.value() / pow10((places - 18) as nat),
{
    match Decimal256::from_atomics(Uint256::new(x.bytes), places) {
        Ok(c) => Some(U256 { bytes: c.atomics().to_be_bytes() }),
        Err(_) => None,
    }
}

/// `Decimal::checked_from_ratio` on atomics: `n * 10^18 / d` floored; fails exactly
/// when `d` is zero or the result does not fit in 128 bits.
#[verifier::external_body]
pub(crate) fn decimal_checked_from_ratio(n: u128, d: u128) -> (r: Option<u128>)
    ensures
        match r {
            Some(c) => d != 0 && c == (n as nat) * decimal_fractional() / (d as nat),
            None => d == 0 || (n as nat) * decimal_fractional() / (d as nat) >= u128_modulus(),
        },
{
    match Decimal::checked_from_ratio(n, d) {
        Ok(c) => Some(c.atomics().u128()),
        Err(_) => None,
    }
}

/// `Uint128 * Decimal`: `u * atomics / 10^18` floored; the operator panics when the
/// result does not fit in 128 bits, which `requires` rules out.
#[verifier::external_body]
pub(crate) fn uint128_mul_decimal(u: u128, atomics: u128) -> (r: u128)
    requires
        (u as nat) * (atomics as nat) / decimal_fractional() < u128_modulus(),
    ensures
        r == (u as nat) * (atomics as nat) / decimal_fractional(),
{
    (Uint128::new(u) * Decimal::new(Uint128::new(atomics))).u128()
}

/// `Decimal256::checked_from_ratio` on atomics: `n * 10^18 / d` floored; fails
/// exactly when `d` is zero or the result does not fit.
#[verifier::external_body]
pub(crate) fn dec256_checked_from_ratio(n: U256, d: U256) -> (r: Option<U256>)
    ensures
        match r {
            Some(c) => d.value() != 0 && c.value() == n.value() * decimal_fractional() / d.value(),
            None => d.value() == 0 || n.value() * decimal_fractional() / d.value() >= u256_modulus(),
        },
{
    match Decimal256::checked_from_ratio(Uint256::new(n.bytes), Uint256::new(d.bytes)) {
        Ok(c) => Some(U256 { bytes: c.atomics().to_be_bytes() }),
        Err(_) => None,
    }
}

pub proof fn lemma_pow10_le(k: nat)
    requires
        k <= 18,
    ensures
        1 <= pow10(k) <= decimal_fractional(),
    decreases k,
{
    reveal_with_fuel(pow10, 19);
    lemma_pow10_mono(k, 18);
}

pub proof fn lemma_pow10_mono(a: nat, b: nat)
    requires
        a <= b,
    ensures
        pow10(a) <= pow10(b),
        pow10(a) >= 1,
    decreases b,
{
    if b > 0 {
        if a < b {
            lemma_pow10_mono(a, (b - 1) as nat);
        } else {
            lemma_pow10_mono((a - 1) as nat, (b - 1) as nat);
        }
    }
}

proof fn lemma_pow10_38()
    ensures
        pow10(38) == 100_000_000_000_000_000_000_000_000_000_000_000_000nat,
{
    reveal_with_fuel(pow10, 39);
}

/// 10^k as a `u128`.
pub fn pow10_u128(k: u32) -> (r: u128)
    requires
        k <= 38,
    ensures
        r == pow10(k as nat),
{
    let mut r: u128 = 1;
    let mut i: u32 = 0;
    while i < k
        invariant
            i <= k <= 38,
            r == pow10(i as nat),
        decreases k - i,
    {
        proof {
            lemma_pow10_mono(i as nat + 1, 38);
            lemma_pow10_38();
            assert(pow10(i as nat + 1) == 10 * pow10(i as nat));
        }
        r = r * 10;
        i = i + 1;
    }
    r
}

/// The integer part of a decimal scaled to `prec` decimal places:
/// `atomics / 10^(18 - prec)`.
pub open spec fn scaled_down(x: nat, prec: u8) -> nat {
    x / pow10((18 - prec) as nat)
}

/// `Decimal256` to an integer at precision `prec` (at most 18).
pub fn dec_to_uint256_with_precision(x: U256, prec: u8) -> (r: U256)
    requires
        prec <= 18,
    ensures
        r.value() == scaled_down(x.value(), prec),
{
    proof { lemma_pow10_le((18 - prec) as nat); }
    let f = u256_from_u128(pow10_u128((18 - prec) as u32));
    match u256_checked_div(x, f) {
        Some(v) => v,
        None => { proof { assert(false); } x },
    }
}

/// `Decimal256` to a `Uint128` at precision `prec` (at most 18): `None` when
/// the integer does not fit in 128 bits.
pub fn dec_to_uint128_with_precision(x: U256, prec: u8) -> (r: Option<u128>)
    requires
        prec <= 18,
    ensures
        match r {
            Some(v) => v == scaled_down(x.value(), prec),
            None => scaled_down(x.value(), prec) >= u128_modulus(),
        },
{
    u256_to_u128(dec_to_uint256_with_precision(x, prec))
}

/// `Uint128::multiply_ratio`: `a * num / den` floored through a 256-bit
/// product; it panics on a zero denominator or a result above 128 bits, which
/// `requires` rules out.
#[verifier::external_body]
pub(crate) fn u128_multiply_ratio(a: u128, num: u128, den: u128) -> (r: u128)
    requires
        den != 0,
        (a as nat) * (num as nat) / (den as nat) < u128_modulus(),
    ensures
        r == (a as nat) * (num as nat) / (den as nat),
{
    Uint128::new(a).multiply_ratio(num, den).u128()
}

} // verus!
