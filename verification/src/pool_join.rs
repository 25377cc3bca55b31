//! The stableswap pool's answers to joins and imbalanced exits: the LP
//! tokens a deposit is worth and the LP tokens an exact withdrawal costs, with
//! a fee on the part of a deposit or withdrawal that moves the pool off balance.
use vstd::prelude::*;
use crate::types::{Asset, AssetInfo, AssetKey};
use crate::order::text_lt;
use crate::stableswap::{MathError, Outcome, compute_d, compute_d_spec};
use crate::amp::{MathConfig, compute_current_amp, current_amp_spec};
use crate::precision::{adjust_precision, adjust_precision_spec};
use crate::wide::{
    U256, u128_modulus, u256_modulus, decimal_fractional, pow10, pow10_u128, lemma_pow10_le, lemma_pow10_mono, lemma_u256_bound,
    u256_from_u128, u256_to_u128, u256_checked_mul, u256_checked_multiply_ratio, decimal_checked_from_ratio,
};
use crate::pool::{checked_mul_uint128, checked_mul_uint128_spec};
use crate::vault::join::{AfterJoinResponse, PoolResponse};
use crate::vault::exit::AfterExitResponse;
use crate::precision::{get_share_in_assets, share_fits, share_of};

verus! {

/// The lowercase form of a string.
pub uninterp spec fn lowercase(s: Seq<char>) -> Seq<char>;

/// `str::to_lowercase`. Trusted: the result is the named lowercase form of
/// the argument; the Unicode case mapping is not stated.
#[verifier::external_body]
pub(crate) fn to_lowercase(s: &String) -> (r: String)
    ensures
        r@ == lowercase(s@),
{
    s.to_lowercase()
}

/// The key an asset is sorted by in a join: its address or denom, in lowercase.
pub open spec fn lc_key(a: Asset) -> Seq<char> {
    lowercase(a.info.label())
}

/// Where `x` goes in `s`: before the first element whose key is above its key.
pub open spec fn lc_insert_pos(s: Seq<Asset>, x: Asset) -> nat
    decreases s.len(),
{
    if s.len() == 0 {
        0
    } else if text_lt(lc_key(x), lc_key(s[0])) {
        0
    } else {
        1 + lc_insert_pos(s.drop_first(), x)
    }
}

/// The assets sorted by their lowercase address or denom, assets with equal
/// keys keeping their order.
pub open spec fn lc_sort(s: Seq<Asset>) -> Seq<Asset>
    decreases s.len(),
{
    if s.len() == 0 {
        s
    } else {
        let r = lc_sort(s.drop_last());
        r.insert(lc_insert_pos(r, s.last()) as int, s.last())
    }
}

proof fn lemma_lc_insert_pos_first(s: Seq<Asset>, x: Asset, j: int)
    requires
        0 <= j <= s.len(),
        forall|k: int| 0 <= k < j ==> !text_lt(lc_key(x), lc_key(#[trigger] s[k])),
        j < s.len() ==> text_lt(lc_key(x), lc_key(s[j])),
    ensures
        lc_insert_pos(s, x) == j,
    decreases s.len(),
{
    if s.len() > 0 && j > 0 {
        assert(!text_lt(lc_key(x), lc_key(s[0])));
        assert forall|k: int| 0 <= k < j - 1 implies !text_lt(lc_key(x), lc_key(#[trigger] s.drop_first()[k])) by {
            assert(s.drop_first()[k] == s[k + 1]);
        }
        lemma_lc_insert_pos_first(s.drop_first(), x, j - 1);
    }
}

/// Sorts assets by their lowercase address or denom, keeping the order of
/// assets with equal keys.
pub fn sort_by_lowercase(v: &Vec<Asset>) -> (r: Vec<Asset>)
    ensures
        r@ == lc_sort(v@),
{
    let mut r: Vec<Asset> = Vec::new();
    let mut keys: Vec<String> = Vec::new();
    let mut i: usize = 0;
    assert(v@.take(0) =~= Seq::<Asset>::empty());
    while i < v.len()
        invariant
            i <= v.len(),
            r@ == lc_sort(v@.take(i as int)),
            keys@.len() == r@.len(),
            forall|k: int| 0 <= k < keys@.len() ==> (#[trigger] keys@[k])@ == lc_key(r@[k]),
        decreases v.len() - i,
    {
        let x = &v[i];
        let kx = to_lowercase(x.info.as_str());
        let mut j: usize = 0;
        while j < r.len() && !crate::order::text_less(&kx, &keys[j])
            invariant
                j <= r.len(),
                keys@.len() == r@.len(),
                kx@ == lc_key(*x),
                forall|k: int| 0 <= k < keys@.len() ==> (#[trigger] keys@[k])@ == lc_key(r@[k]),
                forall|k: int| 0 <= k < j ==> !text_lt(lc_key(*x), lc_key(#[trigger] r@[k])),
            decreases r.len() - j,
        {
            j = j + 1;
        }
        let ghost before = r@;
        let ghost before_keys = keys@;
        proof {
            lemma_lc_insert_pos_first(before, *x, j as int);
            assert(v@.take(i as int + 1).drop_last() =~= v@.take(i as int));
            assert(v@.take(i as int + 1).last() == *x);
        }
        r.insert(j, x.copy());
        keys.insert(j, kx);
        assert forall|k: int| 0 <= k < keys@.len() implies (#[trigger] keys@[k])@ == lc_key(r@[k]) by {
            if k < j {
                assert(keys@[k] == before_keys[k] && r@[k] == before[k]);
            } else if k > j {
                assert(keys@[k] == before_keys[k - 1] && r@[k] == before[k - 1]);
            }
        }
        i = i + 1;
    }
    assert(v@.take(v.len() as int) =~= v@);
    r
}


/// A token in a join or an exit: the amount moved, the pool's balance and the
/// token's decimals.
pub struct Entry {
    pub asset: Asset,
    pub balance: u128,
    pub precision: u8,
}

/// The balance and decimals of token `key` among the first `n` tokens of the
/// pool: those of its last entry.
pub open spec fn pool_entry(pools: Seq<Asset>, precisions: Seq<u8>, key: AssetKey, n: nat) -> Option<(u128, u8)>
    decreases n,
{
    if n == 0 {
        None
    } else if pools[n - 1].info@ == key {
        Some((pools[n - 1].amount, precisions[n - 1]))
    } else {
        pool_entry(pools, precisions, key, (n - 1) as nat)
    }
}

/// Whether one of `moved` is of token `key`.
pub open spec fn moves(moved: Seq<Asset>, key: AssetKey) -> bool {
    exists|i: int| 0 <= i < moved.len() && (#[trigger] moved[i]).info@ == key
}

/// The entries of the first `i` assets moved, each with the pool's balance:
/// `None` when one is not a token of the pool.
pub open spec fn moved_entries(moved: Seq<Asset>, pools: Seq<Asset>, precisions: Seq<u8>, i: nat) -> Option<Seq<Entry>>
    decreases i,
{
    if i == 0 {
        Some(seq![])
    } else {
        match moved_entries(moved, pools, precisions, (i - 1) as nat) {
            None => None,
            Some(es) => match pool_entry(pools, precisions, moved[i - 1].info@, pools.len()) {
                None => None,
                Some((b, p)) => Some(es.push(Entry { asset: moved[i - 1], balance: b, precision: p })),
            },
        }
    }
}

/// Entries with nothing moved for the first `i` tokens of the pool that are not moved.
pub open spec fn kept_entries(moved: Seq<Asset>, pools: Seq<Asset>, precisions: Seq<u8>, i: nat) -> Seq<Entry>
    decreases i,
{
    if i == 0 {
        seq![]
    } else {
        let es = kept_entries(moved, pools, precisions, (i - 1) as nat);
        if moves(moved, pools[i - 1].info@) {
            es
        } else {
            es.push(Entry { asset: Asset { info: pools[i - 1].info, amount: 0 }, balance: pools[i - 1].amount, precision: precisions[i - 1] })
        }
    }
}

/// The entries of a join or an exit: the tokens moved, in their order, then
/// the pool's other tokens with nothing moved; `None` when a moved token is
/// not one of the pool's.
pub open spec fn entries_spec(moved: Seq<Asset>, pools: Seq<Asset>, precisions: Seq<u8>) -> Option<Seq<Entry>> {
    match moved_entries(moved, pools, precisions, moved.len()) {
        None => None,
        Some(es) => Some(es + kept_entries(moved, pools, precisions, pools.len())),
    }
}

fn find_entry(pools: &Vec<Asset>, precisions: &Vec<u8>, info: &AssetInfo) -> (r: Option<(u128, u8)>)
    requires
        precisions@.len() == pools@.len(),
    ensures
        r == pool_entry(pools@, precisions@, info@, pools@.len()),
{
    let mut i: usize = pools.len();
    while i > 0
        invariant
            i <= pools.len(),
            precisions@.len() == pools@.len(),
            pool_entry(pools@, precisions@, info@, pools@.len()) == pool_entry(pools@, precisions@, info@, i as nat),
        decreases i,
    {
        if pools[i - 1].info.same(info) {
            return Some((pools[i - 1].amount, precisions[i - 1]));
        }
        i = i - 1;
    }
    None
}

fn is_moved(moved: &Vec<Asset>, info: &AssetInfo) -> (r: bool)
    ensures
        r == moves(moved@, info@),
{
    let mut i: usize = 0;
    while i < moved.len()
        invariant
            i <= moved.len(),
            forall|j: int| 0 <= j < i ==> (#[trigger] moved@[j]).info@ != info@,
        decreases moved.len() - i,
    {
        if moved[i].info.same(info) {
            return true;
        }
        i = i + 1;
    }
    false
}

/// The entries of a join or an exit moving `moved` out of or into `pools`,
/// whose tokens have `precisions` decimals.
pub fn collect_entries(moved: &Vec<Asset>, pools: &Vec<Asset>, precisions: &Vec<u8>) -> (r: Option<Vec<Entry>>)
    requires
        precisions@.len() == pools@.len(),
    ensures
        match r {
            Some(v) => entries_spec(moved@, pools@, precisions@) == Some(v@),
            None => entries_spec(moved@, pools@, precisions@) is None,
        },
{
    let mut out: Vec<Entry> = Vec::new();
    let mut i: usize = 0;
    while i < moved.len()
        invariant
            i <= moved.len(),
            precisions@.len() == pools@.len(),
            moved_entries(moved@, pools@, precisions@, i as nat) == Some(out@),
        decreases moved.len() - i,
    {
        match find_entry(pools, precisions, &moved[i].info) {
            None => {
                proof { lemma_moved_entries_none(moved@, pools@, precisions@, i as nat + 1, moved@.len()); }
                return None;
            },
            Some((b, p)) => {
                out.push(Entry { asset: moved[i].copy(), balance: b, precision: p });
            },
        }
        i = i + 1;
    }
    let ghost first = out@;
    let mut k: usize = 0;
    while k < pools.len()
        invariant
            k <= pools.len(),
            precisions@.len() == pools@.len(),
            moved_entries(moved@, pools@, precisions@, moved@.len()) == Some(first),
            out@ == first + kept_entries(moved@, pools@, precisions@, k as nat),
        decreases pools.len() - k,
    {
        if !is_moved(moved, &pools[k].info) {
            out.push(Entry { asset: Asset { info: pools[k].info.copy(), amount: 0 }, balance: pools[k].amount, precision: precisions[k] });
        }
        k = k + 1;
    }
    Some(out)
}

proof fn lemma_moved_entries_none(moved: Seq<Asset>, pools: Seq<Asset>, precisions: Seq<u8>, i: nat, j: nat)
    requires
        i <= j,
        moved_entries(moved, pools, precisions, i) is None,
    ensures
        moved_entries(moved, pools, precisions, j) is None,
    decreases j - i,
{
    if i < j {
        lemma_moved_entries_none(moved, pools, precisions, i, (j - 1) as nat);
    }
}

/// What a join computation gives: LP tokens, the pool's refusal, an error,
/// or a panic of a plain operator.
pub enum JoinMath {
    Shares(nat),
    Failure,
    Fail(MathError),
    Panic,
}

/// Whether the precision change from `from` to `to` decimals can be made (a
/// power of ten in 128 bits).
pub open spec fn precision_step_ok(from: u8, to: u8) -> bool {
    (from <= to ==> to - from <= 38) && (from > to ==> from - to <= 38)
}

/// The pool's balances and the deposits of the first `i` entries at `greatest`
/// decimals; an entry with no deposit into an empty pool is refused.
pub open spec fn join_adjust(es: Seq<Entry>, greatest: u8, i: nat) -> Result<(Seq<u128>, Seq<u128>), JoinMath>
    decreases i,
{
    if i == 0 {
        Ok((seq![], seq![]))
    } else {
        match join_adjust(es, greatest, (i - 1) as nat) {
            Err(e) => Err(e),
            Ok((old, dep)) => {
                let e = es[i - 1];
                if e.asset.amount == 0 && e.balance == 0 {
                    Err(JoinMath::Failure)
                } else if !precision_step_ok(e.precision, greatest) {
                    Err(JoinMath::Panic)
                } else {
                    match (adjust_precision_spec(e.asset.amount, e.precision, greatest), adjust_precision_spec(e.balance, e.precision, greatest)) {
                        (Some(d), Some(b)) => Ok((old.push(b as u128), dep.push(d as u128))),
                        _ => Err(JoinMath::Fail(MathError::Overflow)),
                    }
                }
            },
        }
    }
}

proof fn lemma_join_adjust_err(es: Seq<Entry>, greatest: u8, i: nat, j: nat)
    requires
        i <= j,
        join_adjust(es, greatest, i) is Err,
    ensures
        join_adjust(es, greatest, j) == join_adjust(es, greatest, i),
    decreases j - i,
{
    if i < j {
        lemma_join_adjust_err(es, greatest, i, (j - 1) as nat);
    }
}

/// A join carries every deposit, as it carries the pool's balance of the same
/// token, from the token's own decimals to `greatest` decimals: multiplied by
/// `10^(greatest - precision)` where `greatest` is higher, divided (floored) by
/// `10^(precision - greatest)` where it is lower.
pub proof fn law_join_scales_deposits_like_balances(es: Seq<Entry>, greatest: u8, i: nat)
    requires
        i <= es.len(),
        join_adjust(es, greatest, i) is Ok,
    ensures
        ({
            let old = join_adjust(es, greatest, i)->Ok_0.0;
            let dep = join_adjust(es, greatest, i)->Ok_0.1;
            &&& old.len() == i
            &&& dep.len() == i
            &&& forall|k: int| #![trigger es[k]] 0 <= k < i ==> {
                let up = pow10((greatest - es[k].precision) as nat);
                let down = pow10((es[k].precision - greatest) as nat);
                &&& (es[k].precision <= greatest ==> dep[k] == (es[k].asset.amount as nat) * up && old[k] == (es[k].balance as nat) * up)
                &&& (es[k].precision > greatest ==> dep[k] == (es[k].asset.amount as nat) / down && old[k] == (es[k].balance as nat) / down)
            }
        }),
    decreases i,
{
    if i > 0 {
        let j = (i - 1) as nat;
        law_join_scales_deposits_like_balances(es, greatest, j);
        let e = es[j as int];
        if e.precision == greatest {
            assert(pow10(0) == 1);
            assert(e.asset.amount * pow10(0) == e.asset.amount && e.balance * pow10(0) == e.balance) by (nonlinear_arith)
                requires pow10(0) == 1;
        }
        let old = join_adjust(es, greatest, i)->Ok_0.0;
        let dep = join_adjust(es, greatest, i)->Ok_0.1;
        let old0 = join_adjust(es, greatest, j)->Ok_0.0;
        let dep0 = join_adjust(es, greatest, j)->Ok_0.1;
        assert(old == old0.push(old[j as int]));
        assert(dep == dep0.push(dep[j as int]));
        assert forall|k: int| #![trigger es[k]] 0 <= k < i implies {
            let up = pow10((greatest - es[k].precision) as nat);
            let down = pow10((es[k].precision - greatest) as nat);
            &&& (es[k].precision <= greatest ==> dep[k] == (es[k].asset.amount as nat) * up && old[k] == (es[k].balance as nat) * up)
            &&& (es[k].precision > greatest ==> dep[k] == (es[k].asset.amount as nat) / down && old[k] == (es[k].balance as nat) / down)
        } by {
            if k < j {
                assert(old[k] == old0[k] && dep[k] == dep0[k]);
            } else if e.precision > greatest {
                let down = pow10((e.precision - greatest) as nat);
                lemma_pow10_mono((e.precision - greatest) as nat, (e.precision - greatest) as nat);
                assert((e.asset.amount as nat) / down <= e.asset.amount && (e.balance as nat) / down <= e.balance) by (nonlinear_arith)
                    requires down >= 1;
            }
        }
    }
}

/// The balances and deposits of a join at `greatest` decimals.
fn adjust_join_entries(es: &Vec<Entry>, greatest: u8) -> (r: Result<(Vec<u128>, Vec<u128>), Option<MathError>>)
    requires
        !(join_adjust(es@, greatest, es@.len()) matches Err(JoinMath::Panic)),
    ensures
        match r {
            Ok((old, dep)) => join_adjust(es@, greatest, es@.len()) == Ok::<(Seq<u128>, Seq<u128>), JoinMath>((old@, dep@)),
            Err(None) => join_adjust(es@, greatest, es@.len()) == Err::<(Seq<u128>, Seq<u128>), JoinMath>(JoinMath::Failure),
            Err(Some(e)) => join_adjust(es@, greatest, es@.len()) == Err::<(Seq<u128>, Seq<u128>), JoinMath>(JoinMath::Fail(e)),
        },
{
    let mut old: Vec<u128> = Vec::new();
    let mut dep: Vec<u128> = Vec::new();
    let mut i: usize = 0;
    while i < es.len()
        invariant
            i <= es.len(),
            !(join_adjust(es@, greatest, es@.len()) matches Err(JoinMath::Panic)),
            join_adjust(es@, greatest, i as nat) == Ok::<(Seq<u128>, Seq<u128>), JoinMath>((old@, dep@)),
        decreases es.len() - i,
    {
        let e = &es[i];
        proof {
            if join_adjust(es@, greatest, i as nat + 1) is Err {
                lemma_join_adjust_err(es@, greatest, i as nat + 1, es@.len());
            }
        }
        if e.asset.amount == 0 && e.balance == 0 {
            return Err(None);
        }
        if (e.precision <= greatest && greatest - e.precision > 38) || (e.precision > greatest && e.precision - greatest > 38) {
            proof { assert(false); }
            return Err(None);
        }
        let d = match adjust_precision(e.asset.amount, e.precision, greatest) {
            Ok(v) => v,
            Err(x) => return Err(Some(x)),
        };
        let b = match adjust_precision(e.balance, e.precision, greatest) {
            Ok(v) => v,
            Err(x) => return Err(Some(x)),
        };
        old.push(b);
        dep.push(d);
        i = i + 1;
    }
    Ok((old, dep))
}

/// The balances after the deposits, if none overflows.
pub open spec fn add_all(old: Seq<u128>, dep: Seq<u128>) -> Option<Seq<u128>> {
    if exists|i: int| 0 <= i < old.len() && (#[trigger] old[i]) + dep[i] > u128::MAX {
        None
    } else {
        Some(Seq::new(old.len(), |i: int| (old[i] + dep[i]) as u128))
    }
}

/// The fee rate, in atomics, on the off-balance part of a join or an exit with
/// `n` tokens and a total fee of `bps`: `bps / 10000 * n / (4 * (n - 1))`;
/// `None` where the ratio cannot be formed (fewer than two tokens, or more than 64).
pub open spec fn imbalance_fee(bps: u16, n: nat) -> Option<nat> {
    if n < 2 || 4 * (n - 1) > 255 {
        None
    } else {
        let rate = (bps as nat) * decimal_fractional() / 10000;
        let share = n * decimal_fractional() / (4 * (n - 1) as nat);
        Some(rate * share / decimal_fractional())
    }
}

/// The balances after charging the fee `fee` on how far each of the first `i`
/// of `new` is from its ideal share `d_new * old_i / d_old`; a charge above a
/// balance is an error when `checked`, a panic otherwise.
pub open spec fn charge_prefix(new: Seq<u128>, old: Seq<u128>, d_new: nat, d_old: nat, fee: nat, checked: bool, i: nat) -> Result<Seq<u128>, JoinMath>
    decreases i,
{
    if i == 0 {
        Ok(new)
    } else {
        match charge_prefix(new, old, d_new, d_old, fee, checked, (i - 1) as nat) {
            Err(e) => Err(e),
            Ok(bal) => {
                let k = i - 1;
                if d_old == 0 {
                    Err(JoinMath::Fail(MathError::MultiplyRatio))
                } else if d_new * (old[k] as nat) / d_old > u128::MAX {
                    Err(JoinMath::Fail(MathError::MultiplyRatio))
                } else {
                    let ideal = d_new * (old[k] as nat) / d_old;
                    let cur = bal[k] as nat;
                    let diff = if ideal > cur { (ideal - cur) as nat } else { (cur - ideal) as nat };
                    let charged = diff * fee / decimal_fractional();
                    if charged > u128::MAX {
                        Err(JoinMath::Fail(MathError::Overflow))
                    } else if cur < charged {
                        if checked { Err(JoinMath::Fail(MathError::Overflow)) } else { Err(JoinMath::Panic) }
                    } else {
                        Ok(bal.update(k, (cur - charged) as u128))
                    }
                }
            },
        }
    }
}

proof fn lemma_charge_err(new: Seq<u128>, old: Seq<u128>, d_new: nat, d_old: nat, fee: nat, checked: bool, i: nat, j: nat)
    requires
        i <= j,
        charge_prefix(new, old, d_new, d_old, fee, checked, i) is Err,
    ensures
        charge_prefix(new, old, d_new, d_old, fee, checked, j) == charge_prefix(new, old, d_new, d_old, fee, checked, i),
    decreases j - i,
{
    if i < j {
        lemma_charge_err(new, old, d_new, d_old, fee, checked, i, (j - 1) as nat);
    }
}

/// The LP tokens minted for a join, in the LP token's units at `greatest`
/// decimals: on an empty pool the invariant after the deposit; otherwise the
/// supply `total_share` times the relative growth of the invariant once the
/// off-balance part of the deposit is charged. No LP tokens is a refusal.
pub open spec fn join_mint_spec(old: Seq<u128>, dep: Seq<u128>, an: u64, total_share: u128, bps: u16, n: nat, greatest: u8) -> JoinMath {
    match compute_d_spec(an, old) {
        Outcome::Panic => JoinMath::Panic,
        Outcome::Fail(e) => JoinMath::Fail(e),
        Outcome::Value(d_old) => match add_all(old, dep) {
            None => JoinMath::Fail(MathError::Overflow),
            Some(new) => match compute_d_spec(an, new) {
                Outcome::Panic => JoinMath::Panic,
                Outcome::Fail(e) => JoinMath::Fail(e),
                Outcome::Value(d_new) => {
                    let minted: JoinMath = if total_share == 0 {
                        JoinMath::Shares(d_new)
                    } else {
                        match imbalance_fee(bps, n) {
                            None => JoinMath::Panic,
                            Some(fee) => if n > new.len() {
                                JoinMath::Panic
                            } else {
                                match charge_prefix(new, old, d_new, d_old, fee, false, n) {
                                    Err(e) => e,
                                    Ok(charged) => match compute_d_spec(an, charged) {
                                        Outcome::Panic => JoinMath::Panic,
                                        Outcome::Fail(e) => JoinMath::Fail(e),
                                        Outcome::Value(d_after) => if d_old == 0 {
                                            JoinMath::Fail(MathError::MultiplyRatio)
                                        } else {
                                            let gain = if d_after > d_old { (d_after - d_old) as nat } else { 0 };
                                            JoinMath::Shares((total_share as nat) * gain / d_old)
                                        },
                                    },
                                }
                            },
                        }
                    };
                    match minted {
                        JoinMath::Shares(m) => if greatest > 18 {
                            JoinMath::Panic
                        } else if m * pow10((18 - greatest) as nat) >= u256_modulus() {
                            JoinMath::Fail(MathError::MultiplyRatio)
                        } else if m >= u128_modulus() {
                            JoinMath::Fail(MathError::ConversionOverflow)
                        } else if m == 0 {
                            JoinMath::Failure
                        } else {
                            JoinMath::Shares(m)
                        },
                        other => other,
                    }
                },
            },
        },
    }
}

fn add_balances(old: &Vec<u128>, dep: &Vec<u128>) -> (r: Option<Vec<u128>>)
    requires
        old@.len() == dep@.len(),
    ensures
        match r {
            Some(v) => add_all(old@, dep@) == Some(v@),
            None => add_all(old@, dep@) is None,
        },
{
    let mut out: Vec<u128> = Vec::new();
    let mut i: usize = 0;
    while i < old.len()
        invariant
            i <= old.len(),
            old@.len() == dep@.len(),
            out@.len() == i,
            forall|k: int| 0 <= k < i ==> (#[trigger] out@[k]) == old@[k] + dep@[k],
        decreases old.len() - i,
    {
        if old[i] > u128::MAX - dep[i] {
            assert(old@[i as int] + dep@[i as int] > u128::MAX);
            return None;
        }
        out.push(old[i] + dep[i]);
        i = i + 1;
    }
    assert(out@ =~= Seq::new(old@.len(), |k: int| (old@[k] + dep@[k]) as u128));
    assert forall|k: int| 0 <= k < old@.len() implies (#[trigger] old@[k]) + dep@[k] <= u128::MAX by {
        assert(out@[k] == old@[k] + dep@[k]);
    }
    Some(out)
}

/// The fee rate on the off-balance part of a join or an exit with `n` tokens.
fn imbalance_fee_exec(bps: u16, n: u8) -> (r: u128)
    requires
        imbalance_fee(bps, n as nat) is Some,
    ensures
        r == imbalance_fee(bps, n as nat)->Some_0,
{
    let rate = match decimal_checked_from_ratio(bps as u128, 10000) {
        Some(x) => x,
        None => {
            proof {
                assert((bps as nat) * decimal_fractional() / 10000 < u128_modulus()) by (nonlinear_arith)
                    requires bps < 65536, decimal_fractional() == 1_000_000_000_000_000_000nat, u128_modulus() > 1_000_000_000_000_000_000_000_000_000nat;
            }
            0
        },
    };
    let den: u128 = 4 * ((n - 1) as u128);
    let share = match decimal_checked_from_ratio(n as u128, den) {
        Some(x) => x,
        None => {
            proof {
                assert((n as nat) * decimal_fractional() / (den as nat) < u128_modulus()) by (nonlinear_arith)
                    requires n < 256, den >= 4, decimal_fractional() == 1_000_000_000_000_000_000nat, u128_modulus() > 1_000_000_000_000_000_000_000_000_000nat;
            }
            0
        },
    };
    proof {
        assert((rate as nat) <= 65535 * decimal_fractional() / 10000) by (nonlinear_arith)
            requires rate == (bps as nat) * decimal_fractional() / 10000, bps <= 65535;
        assert((share as nat) <= decimal_fractional() / 2) by (nonlinear_arith)
            requires share == (n as nat) * decimal_fractional() / (den as nat), den == 4 * ((n - 1) as nat), n >= 2,
                decimal_fractional() == 1_000_000_000_000_000_000nat;
        assert((rate as nat) * (share as nat) <= (65535 * decimal_fractional() / 10000) * (decimal_fractional() / 2)) by (nonlinear_arith)
            requires (rate as nat) <= 65535 * decimal_fractional() / 10000, (share as nat) <= decimal_fractional() / 2;
        assert((65535 * 1_000_000_000_000_000_000nat / 10000) * (1_000_000_000_000_000_000nat / 2) <= 0xffff_ffff_ffff_ffff_ffff_ffff_ffff_ffffnat);
    }
    rate * share / 1_000_000_000_000_000_000
}

/// The balances once the off-balance part of a join or an exit is charged.
fn charge_balances(new: &Vec<u128>, old: &Vec<u128>, d_new: u128, d_old: u128, fee: u128, checked: bool, n: usize) -> (r: Result<Vec<u128>, MathError>)
    requires
        n <= new@.len(),
        n <= old@.len(),
        !(charge_prefix(new@, old@, d_new as nat, d_old as nat, fee as nat, checked, n as nat) matches Err(JoinMath::Panic)),
    ensures
        match r {
            Ok(v) => charge_prefix(new@, old@, d_new as nat, d_old as nat, fee as nat, checked, n as nat) == Ok::<Seq<u128>, JoinMath>(v@),
            Err(e) => charge_prefix(new@, old@, d_new as nat, d_old as nat, fee as nat, checked, n as nat) == Err::<Seq<u128>, JoinMath>(JoinMath::Fail(e)),
        },
{
    let mut bal: Vec<u128> = new.clone();
    assert(bal@ =~= new@);
    let mut k: usize = 0;
    while k < n
        invariant
            k <= n,
            n <= new@.len(),
            n <= old@.len(),
            bal@.len() == new@.len(),
            !(charge_prefix(new@, old@, d_new as nat, d_old as nat, fee as nat, checked, n as nat) matches Err(JoinMath::Panic)),
            charge_prefix(new@, old@, d_new as nat, d_old as nat, fee as nat, checked, k as nat) == Ok::<Seq<u128>, JoinMath>(bal@),
        decreases n - k,
    {
        proof {
            if charge_prefix(new@, old@, d_new as nat, d_old as nat, fee as nat, checked, k as nat + 1) is Err {
                lemma_charge_err(new@, old@, d_new as nat, d_old as nat, fee as nat, checked, k as nat + 1, n as nat);
            }
        }
        if d_old == 0 {
            return Err(MathError::MultiplyRatio);
        }
        let ideal = match u256_checked_multiply_ratio(u256_from_u128(d_new), u256_from_u128(old[k]), u256_from_u128(d_old)) {
            Some(x) => match u256_to_u128(x) {
                Some(v) => v,
                None => return Err(MathError::MultiplyRatio),
            },
            None => {
                proof {
                    assert((d_new as nat) * (old@[k as int] as nat) / (d_old as nat) < u256_modulus()) by (nonlinear_arith)
                        requires d_new < u128_modulus(), old@[k as int] < u128_modulus(), d_old >= 1, u256_modulus() == u128_modulus() * u128_modulus();
                }
                return Err(MathError::MultiplyRatio);
            },
        };
        let cur = bal[k];
        let diff = if ideal > cur { ideal - cur } else { cur - ideal };
        let charged = match checked_mul_uint128(fee, diff) {
            Some(c) => c,
            None => return Err(MathError::Overflow),
        };
        if cur < charged {
            return Err(MathError::Overflow);
        }
        bal.set(k, cur - charged);
        k = k + 1;
    }
    Ok(bal)
}

/// The LP tokens minted for a join; `None` when the pool refuses it.
fn join_mint(old: &Vec<u128>, dep: &Vec<u128>, an: u64, total_share: u128, bps: u16, n: u8, greatest: u8) -> (r: Result<Option<u128>, MathError>)
    requires
        old@.len() == dep@.len(),
        !(join_mint_spec(old@, dep@, an, total_share, bps, n as nat, greatest) is Panic),
    ensures
        match r {
            Ok(Some(m)) => join_mint_spec(old@, dep@, an, total_share, bps, n as nat, greatest) == JoinMath::Shares(m as nat),
            Ok(None) => join_mint_spec(old@, dep@, an, total_share, bps, n as nat, greatest) == JoinMath::Failure,
            Err(e) => join_mint_spec(old@, dep@, an, total_share, bps, n as nat, greatest) == JoinMath::Fail(e),
        },
{
    let d_old = compute_d(an, old)?;
    let new = match add_balances(old, dep) {
        Some(v) => v,
        None => return Err(MathError::Overflow),
    };
    let d_new = compute_d(an, &new)?;
    let minted: u128 = if total_share == 0 {
        d_new
    } else {
        if n < 2 || n > 64 {
            proof { assert(false); }
            return Err(MathError::Overflow);
        }
        let fee = imbalance_fee_exec(bps, n);
        if n as usize > new.len() {
            proof { assert(false); }
            return Err(MathError::Overflow);
        }
        let charged = charge_balances(&new, old, d_new, d_old, fee, false, n as usize)?;
        let d_after = compute_d(an, &charged)?;
        if d_old == 0 {
            return Err(MathError::MultiplyRatio);
        }
        let gain = if d_after > d_old { d_after - d_old } else { 0 };
        let m = match u256_checked_multiply_ratio(u256_from_u128(total_share), u256_from_u128(gain), u256_from_u128(d_old)) {
            Some(x) => x,
            None => {
                proof {
                    assert((total_share as nat) * (gain as nat) / (d_old as nat) < u256_modulus()) by (nonlinear_arith)
                        requires total_share < u128_modulus(), gain < u128_modulus(), d_old >= 1, u256_modulus() == u128_modulus() * u128_modulus();
                }
                return Err(MathError::MultiplyRatio);
            },
        };
        if greatest > 18 {
            proof { assert(false); }
            return Err(MathError::Overflow);
        }
        proof { lemma_pow10_le((18 - greatest) as nat); }
        match u256_checked_mul(m, u256_from_u128(pow10_u128((18 - greatest) as u32))) {
            None => return Err(MathError::MultiplyRatio),
            Some(p) => {
                proof { lemma_u256_bound(p); }
            },
        }
        match u256_to_u128(m) {
            Some(v) => v,
            None => return Err(MathError::ConversionOverflow),
        }
    };
    if greatest > 18 {
        proof { assert(false); }
        return Err(MathError::Overflow);
    }
    proof {
        lemma_pow10_le((18 - greatest) as nat);
        assert((minted as nat) * pow10((18 - greatest) as nat) < u256_modulus()) by (nonlinear_arith)
            requires minted < u128_modulus(), pow10((18 - greatest) as nat) <= decimal_fractional(),
                decimal_fractional() == 1_000_000_000_000_000_000nat, u256_modulus() == u128_modulus() * u128_modulus(),
                u128_modulus() > 1_000_000_000_000_000_000_000nat;
    }
    if minted == 0 {
        return Ok(None);
    }
    Ok(Some(minted))
}

/// Some asset is deposited in a positive amount.
pub open spec fn some_deposit(assets: Seq<Asset>) -> bool {
    exists|i: int| 0 <= i < assets.len() && (#[trigger] assets[i]).amount > 0
}

/// The pool's answer to a join with `assets_in`, the pool holding `pools`
/// (whose tokens have `precisions` decimals), `total_share` LP tokens out, a
/// total fee of `bps`, balances compared at `greatest` decimals, and the
/// amplification `amp`.
pub open spec fn query_join_spec(
    assets_in: Option<Seq<Asset>>,
    pools: Seq<Asset>,
    precisions: Seq<u8>,
    amp: Result<u64, MathError>,
    total_share: u128,
    bps: u16,
    greatest: u8,
) -> JoinMath {
    match assets_in {
        None => JoinMath::Failure,
        Some(a) => {
            let sorted = lc_sort(a);
            match entries_spec(sorted, pools, precisions) {
                None => JoinMath::Failure,
                Some(es) => if !some_deposit(sorted) {
                    JoinMath::Failure
                } else {
                    match join_adjust(es, greatest, es.len()) {
                        Err(e) => e,
                        Ok((old, dep)) => match amp {
                            Err(e) => JoinMath::Fail(e),
                            Ok(x) => {
                                let n = pools.len() % 256;
                                if x * n > u64::MAX || x * n == 0 {
                                    JoinMath::Failure
                                } else {
                                    join_mint_spec(old, dep, (x * n) as u64, total_share, bps, n, greatest)
                                }
                            },
                        },
                    }
                },
            }
        },
    }
}

fn has_deposit(assets: &Vec<Asset>) -> (r: bool)
    ensures
        r == some_deposit(assets@),
{
    let mut i: usize = 0;
    while i < assets.len()
        invariant
            i <= assets.len(),
            forall|k: int| 0 <= k < i ==> (#[trigger] assets@[k]).amount == 0,
        decreases assets.len() - i,
    {
        if assets[i].amount > 0 {
            return true;
        }
        i = i + 1;
    }
    false
}

/// The pool's refusal of a join.
fn join_failure() -> (r: AfterJoinResponse)
    ensures
        r.response is Failure,
        r.new_shares == 0,
        r.provided_assets@.len() == 0,
        r.fee is None,
{
    AfterJoinResponse { provided_assets: Vec::new(), new_shares: 0, response: PoolResponse::Failure(String::new()), fee: None }
}

/// The pool's answer to a join with `assets_in` at block time `t`: the LP
/// tokens to mint and the assets, sorted by lowercase address or denom, or a
/// refusal. The pool holds `pools`, whose tokens have `precisions` decimals;
/// `total_share` LP tokens are out; `bps` is the total fee; balances are
/// compared at `greatest` decimals.
pub fn query_on_join_pool(
    assets_in: Option<Vec<Asset>>,
    pools: &Vec<Asset>,
    precisions: &Vec<u8>,
    math_config: &MathConfig,
    t: u64,
    total_share: u128,
    bps: u16,
    greatest: u8,
) -> (r: Result<AfterJoinResponse, MathError>)
    requires
        precisions@.len() == pools@.len(),
        !(query_join_spec(match assets_in { Some(a) => Some(a@), None => None }, pools@, precisions@,
            current_amp_spec(*math_config, t), total_share, bps, greatest) is Panic),
    ensures
        match query_join_spec(match assets_in { Some(a) => Some(a@), None => None }, pools@, precisions@,
            current_amp_spec(*math_config, t), total_share, bps, greatest) {
            JoinMath::Shares(m) => r matches Ok(resp) && resp.new_shares == m && resp.response is Success
                && resp.provided_assets@ == lc_sort(assets_in->Some_0@) && resp.fee is None,
            JoinMath::Failure => r matches Ok(resp) && resp.response is Failure && resp.new_shares == 0
                && resp.provided_assets@.len() == 0 && resp.fee is None,
            JoinMath::Fail(e) => r == Err::<AfterJoinResponse, MathError>(e),
            JoinMath::Panic => false,
        },
{
    let assets = match assets_in {
        None => return Ok(join_failure()),
        Some(a) => a,
    };
    let sorted = sort_by_lowercase(&assets);
    let es = match collect_entries(&sorted, pools, precisions) {
        None => return Ok(join_failure()),
        Some(es) => es,
    };
    if !has_deposit(&sorted) {
        return Ok(join_failure());
    }
    let (old, dep) = match adjust_join_entries(&es, greatest) {
        Ok(p) => p,
        Err(None) => return Ok(join_failure()),
        Err(Some(e)) => return Err(e),
    };
    let a = compute_current_amp(math_config, t)?;
    let n: u8 = (pools.len() % 256) as u8;
    let an = match a.checked_mul(n as u64) {
        Some(x) => x,
        None => 0,
    };
    if an == 0 {
        return Ok(join_failure());
    }
    proof {
        assert(join_adjust(es@, greatest, es@.len()) == Ok::<(Seq<u128>, Seq<u128>), JoinMath>((old@, dep@)));
        lemma_join_adjust_len(es@, greatest, es@.len());
    }
    match join_mint(&old, &dep, an, total_share, bps, n, greatest)? {
        None => Ok(join_failure()),
        Some(m) => Ok(AfterJoinResponse { provided_assets: sorted, new_shares: m, response: PoolResponse::Success, fee: None }),
    }
}

proof fn lemma_join_adjust_len(es: Seq<Entry>, greatest: u8, i: nat)
    requires
        join_adjust(es, greatest, i) is Ok,
    ensures
        join_adjust(es, greatest, i)->Ok_0.0.len() == join_adjust(es, greatest, i)->Ok_0.1.len(),
    decreases i,
{
    if i > 0 {
        lemma_join_adjust_len(es, greatest, (i - 1) as nat);
    }
}

/// The precision of the LP token.
pub const LP_TOKEN_PRECISION: u8 = 6;

/// Why the pool refused an exit.
#[derive(Clone, Debug)]
pub enum PoolError {
    Math(MathError),
    /// A token is named twice.
    DoublingAssets,
    InvalidNumberOfAssets,
    /// The amplification is zero or above `MAX_AMP`.
    IncorrectAmp,
    /// The reply of the LP token's instantiation could not be decoded.
    ReplyParseFailed,
    /// The price accumulators could not be brought forward.
    PricesUpdateFailed,
    /// The pair of tokens asked for is not the pool's.
    AssetMismatch,
    /// The token, named by its address or denom, is not one of the pool's.
    InvalidAsset(String),
    /// The withdrawal needs `needed` LP tokens, more than were provided.
    NotEnoughLpTokens { needed: u128 },
    Unauthorized,
}

/// No two assets are of the same token.
pub open spec fn distinct_tokens(assets: Seq<Asset>) -> bool {
    forall|i: int, j: int| 0 <= i < j < assets.len() ==> (#[trigger] assets[i]).info@ != (#[trigger] assets[j]).info@
}

fn check_distinct_tokens(assets: &Vec<Asset>) -> (r: bool)
    ensures
        r == distinct_tokens(assets@),
{
    let mut i: usize = 0;
    while i < assets.len()
        invariant
            i <= assets.len(),
            forall|a: int, b: int| 0 <= a < b < assets.len() && a < i ==> (#[trigger] assets@[a]).info@ != (#[trigger] assets@[b]).info@,
        decreases assets.len() - i,
    {
        let mut j: usize = i + 1;
        while j < assets.len()
            invariant
                i < j <= assets.len(),
                forall|a: int, b: int| 0 <= a < b < assets.len() && a < i ==> (#[trigger] assets@[a]).info@ != (#[trigger] assets@[b]).info@,
                forall|b: int| i < b < j ==> assets@[i as int].info@ != (#[trigger] assets@[b]).info@,
            decreases assets.len() - j,
        {
            if assets[i].info.same(&assets[j].info) {
                return false;
            }
            j = j + 1;
        }
        i = i + 1;
    }
    true
}

/// The balances (at `greatest` decimals) and withdrawals of the first `i`
/// tokens withdrawn, each looked up in the pool; `None` stands for a panic.
pub open spec fn withdraw_moved(assets: Seq<Asset>, pools: Seq<Asset>, precisions: Seq<u8>, greatest: u8, i: nat) -> Result<(Seq<u128>, Seq<u128>), Option<PoolError>>
    decreases i,
{
    if i == 0 {
        Ok((seq![], seq![]))
    } else {
        match withdraw_moved(assets, pools, precisions, greatest, (i - 1) as nat) {
            Err(e) => Err(e),
            Ok((old, out)) => {
                let a = assets[i - 1];
                match pool_entry(pools, precisions, a.info@, pools.len()) {
                    None => Err(Some(PoolError::InvalidAsset(a.info.label_string()))),
                    Some((b, p)) => if !precision_step_ok(p, greatest) {
                        Err(None)
                    } else {
                        match adjust_precision_spec(b, p, greatest) {
                            None => Err(Some(PoolError::Math(MathError::Overflow))),
                            Some(b2) => Ok((old.push(b2 as u128), out.push(a.amount))),
                        }
                    },
                }
            },
        }
    }
}

proof fn lemma_withdraw_moved_err(assets: Seq<Asset>, pools: Seq<Asset>, precisions: Seq<u8>, greatest: u8, i: nat, j: nat)
    requires
        i <= j,
        withdraw_moved(assets, pools, precisions, greatest, i) is Err,
    ensures
        withdraw_moved(assets, pools, precisions, greatest, j) == withdraw_moved(assets, pools, precisions, greatest, i),
    decreases j - i,
{
    if i < j {
        lemma_withdraw_moved_err(assets, pools, precisions, greatest, i, (j - 1) as nat);
    }
}

proof fn lemma_withdraw_moved_len(assets: Seq<Asset>, pools: Seq<Asset>, precisions: Seq<u8>, greatest: u8, i: nat)
    requires
        withdraw_moved(assets, pools, precisions, greatest, i) is Ok,
    ensures
        withdraw_moved(assets, pools, precisions, greatest, i)->Ok_0.0.len() == i,
        withdraw_moved(assets, pools, precisions, greatest, i)->Ok_0.1.len() == i,
    decreases i,
{
    if i > 0 {
        lemma_withdraw_moved_len(assets, pools, precisions, greatest, (i - 1) as nat);
    }
}

/// The balances, as they are, of the pool's tokens not withdrawn.
pub open spec fn kept_balances(assets: Seq<Asset>, pools: Seq<Asset>, precisions: Seq<u8>) -> Seq<u128> {
    kept_entries(assets, pools, precisions, pools.len()).map_values(|e: Entry| e.balance)
}

/// The balances after the withdrawals, if none exceeds its balance.
pub open spec fn sub_all(old: Seq<u128>, out: Seq<u128>) -> Option<Seq<u128>> {
    if exists|i: int| 0 <= i < old.len() && (#[trigger] old[i]) < out[i] {
        None
    } else {
        Some(Seq::new(old.len(), |i: int| (old[i] - out[i]) as u128))
    }
}

/// The LP tokens burnt for an exact withdrawal of `assets`, from which
/// `provided` LP tokens were sent: the supply times the relative fall of the
/// invariant once the off-balance part is charged, plus one, in the LP token's
/// units.
pub open spec fn withdraw_spec(
    assets: Seq<Asset>,
    pools: Seq<Asset>,
    precisions: Seq<u8>,
    amp: Result<u64, MathError>,
    total_share: u128,
    bps: u16,
    greatest: u8,
    provided: u128,
) -> Result<nat, Option<PoolError>> {
    if !distinct_tokens(assets) {
        Err(Some(PoolError::DoublingAssets))
    } else if assets.len() > pools.len() {
        Err(Some(PoolError::InvalidNumberOfAssets))
    } else {
        match withdraw_moved(assets, pools, precisions, greatest, assets.len()) {
            Err(e) => Err(e),
            Ok((moved_old, moved_out)) => {
                let kept = kept_balances(assets, pools, precisions);
                let old = moved_old + kept;
                let out = moved_out + Seq::new(kept.len(), |k: int| 0u128);
                {
                        let n = pools.len() % 256;
                        match amp {
                            Err(e) => Err(Some(PoolError::Math(e))),
                            Ok(x) => if x * n > u64::MAX {
                                Err(Some(PoolError::Math(MathError::Overflow)))
                            } else {
                                let an = (x * n) as u64;
                                match compute_d_spec(an, old) {
                                    Outcome::Panic => Err(None),
                                    Outcome::Fail(e) => Err(Some(PoolError::Math(e))),
                                    Outcome::Value(d_old) => match sub_all(old, out) {
                                        None => Err(Some(PoolError::Math(MathError::Overflow))),
                                        Some(new) => match compute_d_spec(an, new) {
                                            Outcome::Panic => Err(None),
                                            Outcome::Fail(e) => Err(Some(PoolError::Math(e))),
                                            Outcome::Value(d_new) => match imbalance_fee(bps, n) {
                                                None => Err(None),
                                                Some(fee) => if n > new.len() {
                                                    Err(None)
                                                } else {
                                                    match charge_prefix(new, old, d_new, d_old, fee, true, n) {
                                                        Err(JoinMath::Fail(e)) => Err(Some(PoolError::Math(e))),
                                                        Err(_) => Err(None),
                                                        Ok(charged) => match compute_d_spec(an, charged) {
                                                            Outcome::Panic => Err(None),
                                                            Outcome::Fail(e) => Err(Some(PoolError::Math(e))),
                                                            Outcome::Value(d_after) => if d_old < d_after {
                                                                Err(None)
                                                            } else if d_old == 0 || (total_share as nat) * ((d_old - d_after) as nat) / d_old > u128::MAX {
                                                                Err(Some(PoolError::Math(MathError::MultiplyRatio)))
                                                            } else {
                                                                let burn = (total_share as nat) * ((d_old - d_after) as nat) / d_old + 1;
                                                                if burn > u128::MAX {
                                                                    Err(Some(PoolError::Math(MathError::Overflow)))
                                                                } else if !precision_step_ok(greatest, LP_TOKEN_PRECISION) {
                                                                    Err(None)
                                                                } else {
                                                                    match adjust_precision_spec(burn as u128, greatest, LP_TOKEN_PRECISION) {
                                                                        None => Err(Some(PoolError::Math(MathError::Overflow))),
                                                                        Some(b) => if b > provided {
                                                                            Err(Some(PoolError::NotEnoughLpTokens { needed: b as u128 }))
                                                                        } else {
                                                                            Ok(b)
                                                                        },
                                                                    }
                                                                }
                                                            },
                                                        },
                                                    }
                                                },
                                            },
                                        },
                                    },
                                }
                            },
                        }
                }
            },
        }
    }
}

fn sub_balances(old: &Vec<u128>, out: &Vec<u128>) -> (r: Option<Vec<u128>>)
    requires
        old@.len() == out@.len(),
    ensures
        match r {
            Some(v) => sub_all(old@, out@) == Some(v@),
            None => sub_all(old@, out@) is None,
        },
{
    let mut res: Vec<u128> = Vec::new();
    let mut i: usize = 0;
    while i < old.len()
        invariant
            i <= old.len(),
            old@.len() == out@.len(),
            forall|k: int| 0 <= k < i ==> (#[trigger] old@[k]) >= out@[k],
            res@ == Seq::new(i as nat, |k: int| (old@[k] - out@[k]) as u128),
        decreases old.len() - i,
    {
        if old[i] < out[i] {
            return None;
        }
        let ghost before = res@;
        res.push(old[i] - out[i]);
        assert(res@ =~= Seq::new(i as nat + 1, |k: int| (old@[k] - out@[k]) as u128));
        i = i + 1;
    }
    assert(res@ =~= Seq::new(old@.len(), |k: int| (old@[k] - out@[k]) as u128));
    Some(res)
}

/// The LP tokens to burn for withdrawing exactly `assets` at block time `t`,
/// of which `provided` were sent; the pool holds `pools` (with `precisions`
/// decimals) and `total_share` LP tokens are out.
pub fn imbalanced_withdraw(
    assets: &Vec<Asset>,
    pools: &Vec<Asset>,
    precisions: &Vec<u8>,
    math_config: &MathConfig,
    t: u64,
    total_share: u128,
    bps: u16,
    greatest: u8,
    provided: u128,
) -> (r: Result<u128, PoolError>)
    requires
        precisions@.len() == pools@.len(),
        !(withdraw_spec(assets@, pools@, precisions@, current_amp_spec(*math_config, t), total_share, bps, greatest, provided) matches Err(None)),
    ensures
        match r {
            Ok(b) => withdraw_spec(assets@, pools@, precisions@, current_amp_spec(*math_config, t), total_share, bps, greatest, provided)
                == Ok::<nat, Option<PoolError>>(b as nat),
            Err(e) => withdraw_spec(assets@, pools@, precisions@, current_amp_spec(*math_config, t), total_share, bps, greatest, provided)
                == Err::<nat, Option<PoolError>>(Some(e)),
        },
{
    if !check_distinct_tokens(assets) {
        return Err(PoolError::DoublingAssets);
    }
    if assets.len() > pools.len() {
        return Err(PoolError::InvalidNumberOfAssets);
    }
    let ghost spec_total = withdraw_spec(assets@, pools@, precisions@, current_amp_spec(*math_config, t), total_share, bps, greatest, provided);
    let mut old: Vec<u128> = Vec::new();
    let mut out: Vec<u128> = Vec::new();
    let mut i: usize = 0;
    while i < assets.len()
        invariant
            i <= assets.len(),
            precisions@.len() == pools@.len(),
            distinct_tokens(assets@),
            assets@.len() <= pools@.len(),
            spec_total == withdraw_spec(assets@, pools@, precisions@, current_amp_spec(*math_config, t), total_share, bps, greatest, provided),
            !(spec_total matches Err(None)),
            withdraw_moved(assets@, pools@, precisions@, greatest, i as nat) == Ok::<(Seq<u128>, Seq<u128>), Option<PoolError>>((old@, out@)),
        decreases assets.len() - i,
    {
        let a = &assets[i];
        proof {
            if withdraw_moved(assets@, pools@, precisions@, greatest, i as nat + 1) is Err {
                lemma_withdraw_moved_err(assets@, pools@, precisions@, greatest, i as nat + 1, assets@.len());
            }
        }
        let (b, p) = match find_entry(pools, precisions, &a.info) {
            None => return Err(PoolError::InvalidAsset(a.info.as_str().clone())),
            Some(x) => x,
        };
        if (p <= greatest && greatest - p > 38) || (p > greatest && p - greatest > 38) {
            proof { assert(false); }
            return Err(PoolError::Math(MathError::Overflow));
        }
        let b2 = match adjust_precision(b, p, greatest) {
            Ok(v) => v,
            Err(_) => return Err(PoolError::Math(MathError::Overflow)),
        };
        old.push(b2);
        out.push(a.amount);
        i = i + 1;
    }
    proof { lemma_withdraw_moved_len(assets@, pools@, precisions@, greatest, assets@.len()); }
    let ghost moved_old = old@;
    let ghost moved_out = out@;
    assert(kept_entries(assets@, pools@, precisions@, 0).map_values(|e: Entry| e.balance) =~= Seq::<u128>::empty());
    assert(old@ =~= moved_old + Seq::<u128>::empty());
    assert(out@ =~= moved_out + Seq::new(0, |j: int| 0u128));
    let mut k: usize = 0;
    while k < pools.len()
        invariant
            k <= pools.len(),
            precisions@.len() == pools@.len(),
            old@ == moved_old + kept_entries(assets@, pools@, precisions@, k as nat).map_values(|e: Entry| e.balance),
            out@ == moved_out + Seq::new(kept_entries(assets@, pools@, precisions@, k as nat).len(), |j: int| 0u128),
        decreases pools.len() - k,
    {
        let ghost ke = kept_entries(assets@, pools@, precisions@, k as nat);
        let ghost old_before = old@;
        let ghost out_before = out@;
        if !is_moved(assets, &pools[k].info) {
            old.push(pools[k].amount);
            out.push(0);
            let ghost ke2 = kept_entries(assets@, pools@, precisions@, k as nat + 1);
            assert(ke2.map_values(|e: Entry| e.balance) =~= ke.map_values(|e: Entry| e.balance).push(pools@[k as int].amount));
            assert(Seq::new(ke2.len(), |j: int| 0u128) =~= Seq::new(ke.len(), |j: int| 0u128).push(0u128));
            assert(old@ =~= old_before.push(pools@[k as int].amount));
            assert(out@ =~= out_before.push(0u128));
        }
        k = k + 1;
    }
    assert(old@ == moved_old + kept_balances(assets@, pools@, precisions@));
    let n: u8 = (pools.len() % 256) as u8;
    let x = match compute_current_amp(math_config, t) {
        Ok(v) => v,
        Err(e) => return Err(PoolError::Math(e)),
    };
    let an = match x.checked_mul(n as u64) {
        Some(v) => v,
        None => return Err(PoolError::Math(MathError::Overflow)),
    };
    let d_old = match compute_d(an, &old) {
        Ok(v) => v,
        Err(e) => return Err(PoolError::Math(e)),
    };
    let new = match sub_balances(&old, &out) {
        Some(v) => v,
        None => return Err(PoolError::Math(MathError::Overflow)),
    };
    let d_new = match compute_d(an, &new) {
        Ok(v) => v,
        Err(e) => return Err(PoolError::Math(e)),
    };
    if n < 2 || n > 64 {
        proof { assert(false); }
        return Err(PoolError::Math(MathError::Overflow));
    }
    let fee = imbalance_fee_exec(bps, n);
    if n as usize > new.len() {
        proof { assert(false); }
        return Err(PoolError::Math(MathError::Overflow));
    }
    let charged = match charge_balances(&new, &old, d_new, d_old, fee, true, n as usize) {
        Ok(v) => v,
        Err(e) => return Err(PoolError::Math(e)),
    };
    let d_after = match compute_d(an, &charged) {
        Ok(v) => v,
        Err(e) => return Err(PoolError::Math(e)),
    };
    if d_old < d_after {
        proof { assert(false); }
        return Err(PoolError::Math(MathError::Overflow));
    }
    if d_old == 0 {
        return Err(PoolError::Math(MathError::MultiplyRatio));
    }
    let diff: u128 = d_old - d_after;
    let share = match u256_checked_multiply_ratio(u256_from_u128(total_share), u256_from_u128(diff), u256_from_u128(d_old)) {
        Some(v) => match u256_to_u128(v) {
            Some(s) => s,
            None => return Err(PoolError::Math(MathError::MultiplyRatio)),
        },
        None => {
            proof {
                assert((total_share as nat) * (diff as nat) / (d_old as nat) < u256_modulus()) by (nonlinear_arith)
                    requires total_share < u128_modulus(), diff < u128_modulus(), d_old >= 1, u256_modulus() == u128_modulus() * u128_modulus();
            }
            return Err(PoolError::Math(MathError::MultiplyRatio));
        },
    };
    if share == u128::MAX {
        return Err(PoolError::Math(MathError::Overflow));
    }
    let burn = share + 1;
    let b = match adjust_precision(burn, greatest, LP_TOKEN_PRECISION) {
        Ok(v) => v,
        Err(_) => return Err(PoolError::Math(MathError::Overflow)),
    };
    if b > provided {
        return Err(PoolError::NotEnoughLpTokens { needed: b });
    }
    Ok(b)
}

/// The pool's answer to an exit at block time `t`: with no assets named, the
/// share of every balance that `burn_amount` LP tokens stand for; with
/// `assets_out` named, those assets for the LP tokens their withdrawal costs
/// (none where it cannot be computed).
pub fn query_on_exit_pool(
    assets_out: Option<Vec<Asset>>,
    burn_amount: Option<u128>,
    pools: &Vec<Asset>,
    precisions: &Vec<u8>,
    math_config: &MathConfig,
    t: u64,
    total_share: u128,
    bps: u16,
    greatest: u8,
) -> (r: AfterExitResponse)
    requires
        precisions@.len() == pools@.len(),
        assets_out is None ==> share_fits(pools@, burn_amount.unwrap_or(0), total_share),
        assets_out is Some ==> !(withdraw_spec(assets_out->Some_0@, pools@, precisions@, current_amp_spec(*math_config, t), total_share,
            bps, greatest, burn_amount.unwrap_or(0)) matches Err(None)),
    ensures
        r.response is Success,
        r.fee is None,
        assets_out is None ==> r.burn_shares == burn_amount.unwrap_or(0) && r.assets_out@.len() == pools@.len()
            && forall|i: int| 0 <= i < pools@.len() ==> (#[trigger] r.assets_out@[i]).info@ == pools@[i].info@
                && r.assets_out@[i].amount == share_of(pools@[i].amount, burn_amount.unwrap_or(0), total_share),
        assets_out is Some ==> r.assets_out@ == assets_out->Some_0@
            && r.burn_shares == match withdraw_spec(assets_out->Some_0@, pools@, precisions@, current_amp_spec(*math_config, t), total_share,
                bps, greatest, burn_amount.unwrap_or(0)) {
                Ok(b) => b,
                Err(_) => 0,
            },
{
    let provided = match burn_amount {
        Some(b) => b,
        None => 0,
    };
    match assets_out {
        None => {
            let refund = get_share_in_assets(pools, provided, total_share);
            AfterExitResponse { assets_out: refund, burn_shares: provided, response: PoolResponse::Success, fee: None }
        },
        Some(out) => {
            let burn = match imbalanced_withdraw(&out, pools, precisions, math_config, t, total_share, bps, greatest, provided) {
                Ok(b) => b,
                Err(_) => 0,
            };
            AfterExitResponse { assets_out: out, burn_shares: burn, response: PoolResponse::Success, fee: None }
        },
    }
}
} // verus!
