use dexter_core::amp::{compute_current_amp, start_changing_amp, stop_changing_amp, AmpError, MathConfig};
use dexter_core::precision::{adjust_precision, get_share_in_assets, FeeInfo};
use dexter_core::stableswap::{calc_y, compute_d, MathError, AMP_PRECISION};
use dexter_core::stableswap_dec::{calc_y_dec, compute_d_dec, DecimalAsset};
use dexter_core::types::{Asset, AssetInfo};
use dexter_core::wide::U256;

const ONE: u128 = 1_000_000_000_000_000_000;

fn wide(x: u128) -> U256 {
    let mut bytes = [0u8; 32];
    bytes[16..].copy_from_slice(&x.to_be_bytes());
    U256 { bytes }
}

fn narrow(x: U256) -> u128 {
    assert!(x.bytes[..16].iter().all(|b| *b == 0));
    let mut low = [0u8; 16];
    low.copy_from_slice(&x.bytes[16..]);
    u128::from_be_bytes(low)
}

fn native(denom: &str, amount: u128) -> Asset {
    Asset { info: AssetInfo::NativeToken { denom: denom.to_string() }, amount }
}

fn decimal(denom: &str, amount: u128, precision: u32) -> DecimalAsset {
    DecimalAsset {
        info: AssetInfo::NativeToken { denom: denom.to_string() },
        amount: wide(amount * 10u128.pow(18 - precision)),
    }
}

#[test]
fn math_test_compute_d() {
    let d = compute_d(100, &vec![100_000, 100_000, 100_000]).unwrap();
    assert_eq!(d, 300_000);
}

#[test]
fn math_test_compute_y() {
    let pool = 100_000_000000u128;
    let pools = vec![native("test1", pool), native("test2", pool), native("test3", pool)];
    let offer_amount = 100_000000u128;
    let y = calc_y(&pools[0].info, &pools[1].info, pools[0].amount + offer_amount, &pools, 100 * AMP_PRECISION).unwrap();
    assert_eq!(y, 99900000990);
}

#[test]
fn test_compute_d() {
    let d = compute_d_dec(100, &vec![wide(100_000 * ONE), wide(100_000 * ONE), wide(100_000 * ONE)], 6).unwrap();
    assert_eq!(narrow(d) / ONE, 300_000);

    let d = compute_d_dec(100, &vec![wide(1242_000000 * ONE), wide(1542_000000 * ONE), wide(1456_000000 * ONE)], 6).unwrap();
    assert_eq!(narrow(d) / ONE, 4231267933);
}

#[test]
fn test_compute_y() {
    let pool = 100_000_000000u128;
    let pools = vec![decimal("test1", pool, 6), decimal("test2", pool, 6), decimal("test3", pool, 6)];
    let amp = 100 * AMP_PRECISION;

    let y = calc_y_dec(&pools[0].info, &pools[1].info, wide((pool + 100_000000) * 1_000_000_000_000), &pools, amp, 6).unwrap();
    assert_eq!(y, 99900000990);

    let y = calc_y_dec(&pools[0].info, &pools[1].info, wide((pool + 673_000000) * 1_000_000_000_000), &pools, amp, 6).unwrap();
    assert_eq!(y, 99327044843);

    let y = calc_y_dec(&pools[1].info, &pools[0].info, wide((pool + 5744_000000) * 1_000_000_000_000), &pools, amp, 6).unwrap();
    assert_eq!(y, 94259275411);
}

#[test]
fn compute_d_of_empty_pool_is_zero() {
    assert_eq!(compute_d(100, &vec![0, 0, 0]).unwrap(), 0);
}

#[test]
fn calc_y_dec_refuses_same_asset() {
    let pools = vec![decimal("a", 1000, 6), decimal("b", 1000, 6)];
    assert_eq!(calc_y_dec(&pools[0].info, &pools[0].info, wide(1100 * 1_000_000_000_000), &pools, 10_000, 6), Err(MathError::SameAssets));
}

#[test]
fn calc_y_keeps_balanced_pool_without_trade() {
    let pools = vec![native("a", 1_000_000), native("b", 1_000_000)];
    let y = calc_y(&pools[0].info, &pools[1].info, 1_000_000, &pools, 10_000).unwrap();
    assert!(y == 1_000_000 || y == 999_999 || y == 1_000_001);
}

#[test]
fn adjust_precision_up_and_down() {
    assert_eq!(adjust_precision(1234, 6, 18).unwrap(), 1234_000_000_000_000);
    assert_eq!(adjust_precision(1_234_567, 6, 3).unwrap(), 1234);
    assert_eq!(adjust_precision(77, 9, 9).unwrap(), 77);
    assert_eq!(adjust_precision(u128::MAX, 0, 1), Err(MathError::Overflow));
}

#[test]
fn adjust_precision_round_trip() {
    let up = adjust_precision(98765, 2, 12).unwrap();
    assert_eq!(adjust_precision(up, 12, 2).unwrap(), 98765);
}

#[test]
fn share_in_assets_is_proportional() {
    let pools = vec![native("a", 1000), native("b", 3000)];
    let share = get_share_in_assets(&pools, 25, 100);
    assert_eq!(share[0].amount, 250);
    assert_eq!(share[1].amount, 750);
    let none = get_share_in_assets(&pools, 25, 0);
    assert_eq!(none[0].amount, 0);
    assert_eq!(none[1].amount, 0);
}

#[test]
fn protocol_fee_is_a_percentage_of_the_fee() {
    let fee = FeeInfo { total_fee_bps: 30, protocol_fee_percent: 40 };
    assert!(fee.valid_fee_info());
    assert_eq!(fee.calculate_total_fee_breakup(1001), 400);
    assert_eq!(fee.calculate_total_fee_breakup(0), 0);
    let bad = FeeInfo { total_fee_bps: 1001, protocol_fee_percent: 40 };
    assert!(!bad.valid_fee_info());
    let bad = FeeInfo { total_fee_bps: 30, protocol_fee_percent: 51 };
    assert!(!bad.valid_fee_info());
}

#[test]
fn amp_ramps_linearly() {
    let c = MathConfig { init_amp: 100, init_amp_time: 1000, next_amp: 300, next_amp_time: 2000 };
    assert_eq!(compute_current_amp(&c, 1000).unwrap(), 100);
    assert_eq!(compute_current_amp(&c, 1500).unwrap(), 200);
    assert_eq!(compute_current_amp(&c, 2000).unwrap(), 300);
    assert_eq!(compute_current_amp(&c, 5000).unwrap(), 300);
    let down = MathConfig { init_amp: 300, init_amp_time: 1000, next_amp: 100, next_amp_time: 2000 };
    assert_eq!(compute_current_amp(&down, 1250).unwrap(), 250);
}

#[test]
fn stopping_the_ramp_freezes_amp() {
    let c = MathConfig { init_amp: 100, init_amp_time: 1000, next_amp: 300, next_amp_time: 2000 };
    let stopped = stop_changing_amp(&c, 1500).unwrap();
    assert_eq!(compute_current_amp(&stopped, 1500).unwrap(), 200);
    assert_eq!(compute_current_amp(&stopped, 9999).unwrap(), 200);
}

#[test]
fn starting_a_ramp_checks_limits() {
    let c = MathConfig { init_amp: 10_000, init_amp_time: 0, next_amp: 10_000, next_amp_time: 0 };
    assert!(matches!(start_changing_amp(&c, 100_000, 0, 300_000), Err(AmpError::IncorrectAmp)));
    assert!(matches!(start_changing_amp(&c, 100_000, 1001, 300_000), Err(AmpError::MaxAmpChangeAssertion)));
    assert!(matches!(start_changing_amp(&c, 100_000, 200, 100_001), Err(AmpError::MinAmpChangingTimeAssertion)));
    assert!(matches!(start_changing_amp(&c, 10, 200, 300_000), Err(AmpError::MinAmpChangingTimeAssertion)));
    let started = start_changing_amp(&c, 100_000, 200, 300_000).unwrap();
    assert_eq!(started.init_amp, 10_000);
    assert_eq!(started.next_amp, 20_000);
    assert_eq!(compute_current_amp(&started, 100_000).unwrap(), 10_000);
    assert_eq!(compute_current_amp(&started, 300_000).unwrap(), 20_000);
}
