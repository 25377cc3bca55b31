//! The amplification schedule of a stableswap pool: the current amplification
//! moves linearly from `init_amp` at `init_amp_time` to `next_amp` at
//! `next_amp_time`, and the owner may start or stop such a ramp.
use vstd::prelude::*;
use crate::stableswap::{MathError, MAX_AMP, MAX_AMP_CHANGE, MIN_AMP_CHANGING_TIME, AMP_PRECISION};

verus! {

/// The math configuration of a stableswap pool.
#[derive(Clone, Copy, Debug)]
pub struct MathConfig {
    /// The amplification at `init_amp_time` (with `AMP_PRECISION`).
    pub init_amp: u64,
    /// The time when the current ramp started.
    pub init_amp_time: u64,
    /// The amplification to reach at `next_amp_time`.
    pub next_amp: u64,
    /// The time when the ramp ends.
    pub next_amp_time: u64,
}

/// The amplification at time `t`: `next_amp` once the ramp is over, otherwise
/// `init_amp` moved towards `next_amp` by the elapsed share of the ramp,
/// rounded towards `init_amp`; an error when `t` precedes the ramp's start.
pub open spec fn current_amp_spec(c: MathConfig, t: u64) -> Result<u64, MathError> {
    if t < c.next_amp_time {
        if t < c.init_amp_time {
            Err(MathError::Overflow)
        } else {
            let elapsed = (t - c.init_amp_time) as nat;
            let range = (c.next_amp_time - c.init_amp_time) as nat;
            if c.next_amp > c.init_amp {
                Ok((c.init_amp + ((c.next_amp - c.init_amp) as nat) * elapsed / range) as u64)
            } else {
                Ok((c.init_amp - ((c.init_amp - c.next_amp) as nat) * elapsed / range) as u64)
            }
        }
    } else {
        Ok(c.next_amp)
    }
}

proof fn lemma_ramp_step(delta: nat, elapsed: nat, range: nat)
    requires
        elapsed < range,
    ensures
        delta * elapsed / range <= delta,
{
    assert(delta * elapsed <= delta * range) by (nonlinear_arith)
        requires
            elapsed < range,
    ;
    assert(delta * elapsed / range <= delta * range / range) by (nonlinear_arith)
        requires
            delta * elapsed <= delta * range,
            range > 0,
    ;
    assert(delta * range / range == delta) by (nonlinear_arith)
        requires
            range > 0,
    ;
}

/// The current amplification coefficient of a pool at block time `t`.
pub fn compute_current_amp(c: &MathConfig, t: u64) -> (r: Result<u64, MathError>)
    ensures
        r == current_amp_spec(*c, t),
{
    if t < c.next_amp_time {
        if t < c.init_amp_time {
            return Err(MathError::Overflow);
        }
        let elapsed: u128 = (t - c.init_amp_time) as u128;
        let range: u128 = (c.next_amp_time - c.init_amp_time) as u128;
        if c.next_amp > c.init_amp {
            let amp_range: u128 = (c.next_amp - c.init_amp) as u128;
            assert(amp_range * elapsed <= 0xffff_ffff_ffff_ffff * 0xffff_ffff_ffff_ffffnat) by (nonlinear_arith)
                requires
                    amp_range <= 0xffff_ffff_ffff_ffffnat,
                    elapsed <= 0xffff_ffff_ffff_ffffnat,
            ;
            let step: u128 = (amp_range * elapsed) / range;
            proof { lemma_ramp_step(amp_range as nat, elapsed as nat, range as nat); }
            let res: u128 = c.init_amp as u128 + step;
            Ok(res as u64)
        } else {
            let amp_range: u128 = (c.init_amp - c.next_amp) as u128;
            assert(amp_range * elapsed <= 0xffff_ffff_ffff_ffff * 0xffff_ffff_ffff_ffffnat) by (nonlinear_arith)
                requires
                    amp_range <= 0xffff_ffff_ffff_ffffnat,
                    elapsed <= 0xffff_ffff_ffff_ffffnat,
            ;
            let step: u128 = (amp_range * elapsed) / range;
            proof { lemma_ramp_step(amp_range as nat, elapsed as nat, range as nat); }
            let res: u128 = c.init_amp as u128 - step;
            Ok(res as u64)
        }
    } else {
        Ok(c.next_amp)
    }
}

/// The amplification always lies between the two ends of the ramp.
pub proof fn law_current_amp_between_ends(c: MathConfig, t: u64)
    requires
        current_amp_spec(c, t) is Ok,
    ensures
        ({
            let a = current_amp_spec(c, t)->Ok_0;
            (c.init_amp <= a <= c.next_amp) || (c.next_amp <= a <= c.init_amp)
        }),
{
    if t < c.next_amp_time {
        let elapsed = (t - c.init_amp_time) as nat;
        let range = (c.next_amp_time - c.init_amp_time) as nat;
        if c.next_amp > c.init_amp {
            lemma_ramp_step((c.next_amp - c.init_amp) as nat, elapsed, range);
        } else {
            lemma_ramp_step((c.init_amp - c.next_amp) as nat, elapsed, range);
        }
    }
}

/// Why a change of the amplification schedule was refused.
#[derive(Clone, Copy, Debug, PartialEq, Eq)]
pub enum AmpError {
    /// The new amplification is zero or above `MAX_AMP`.
    IncorrectAmp,
    /// The new amplification is more than `MAX_AMP_CHANGE` times away from the current one.
    MaxAmpChangeAssertion,
    /// The previous change is too recent, or the ramp is too short.
    MinAmpChangingTimeAssertion,
    /// The current amplification could not be computed.
    Math(MathError),
}

/// The schedule after starting a ramp at time `t` to `next_amp` (without
/// precision) reached at `next_amp_time`, or the reason it is refused.
pub open spec fn start_changing_amp_spec(c: MathConfig, t: u64, next_amp: u64, next_amp_time: u64) -> Result<MathConfig, AmpError> {
    if next_amp == 0 || next_amp > MAX_AMP {
        Err(AmpError::IncorrectAmp)
    } else {
        match current_amp_spec(c, t) {
            Err(e) => Err(AmpError::Math(e)),
            Ok(current) => {
                let next_p = next_amp * AMP_PRECISION;
                if next_p * MAX_AMP_CHANGE < current || next_p > current * MAX_AMP_CHANGE {
                    Err(AmpError::MaxAmpChangeAssertion)
                } else if t < c.init_amp_time + MIN_AMP_CHANGING_TIME || next_amp_time < t + MIN_AMP_CHANGING_TIME {
                    Err(AmpError::MinAmpChangingTimeAssertion)
                } else {
                    Ok(MathConfig {
                        init_amp: current,
                        init_amp_time: t,
                        next_amp: next_p as u64,
                        next_amp_time,
                    })
                }
            },
        }
    }
}

/// Starts ramping the amplification at block time `t` towards `next_amp`
/// (given without `AMP_PRECISION`), to be reached at `next_amp_time`.
pub fn start_changing_amp(c: &MathConfig, t: u64, next_amp: u64, next_amp_time: u64) -> (r: Result<MathConfig, AmpError>)
    requires
        c.init_amp_time + MIN_AMP_CHANGING_TIME <= u64::MAX,
        t >= c.init_amp_time + MIN_AMP_CHANGING_TIME ==> t + MIN_AMP_CHANGING_TIME <= u64::MAX,
    ensures
        r == start_changing_amp_spec(*c, t, next_amp, next_amp_time),
{
    if next_amp == 0 || next_amp > MAX_AMP {
        return Err(AmpError::IncorrectAmp);
    }
    let current = match compute_current_amp(c, t) {
        Ok(a) => a,
        Err(e) => return Err(AmpError::Math(e)),
    };
    let next_p = next_amp * AMP_PRECISION;
    if next_p * MAX_AMP_CHANGE < current || next_p > current * MAX_AMP_CHANGE {
        return Err(AmpError::MaxAmpChangeAssertion);
    }
    if t < c.init_amp_time + MIN_AMP_CHANGING_TIME || next_amp_time < t + MIN_AMP_CHANGING_TIME {
        return Err(AmpError::MinAmpChangingTimeAssertion);
    }
    Ok(MathConfig { init_amp: current, init_amp_time: t, next_amp: next_p, next_amp_time })
}

/// The schedule after stopping at time `t`: the current amplification, held from `t` on.
pub open spec fn stop_changing_amp_spec(c: MathConfig, t: u64) -> Result<MathConfig, MathError> {
    match current_amp_spec(c, t) {
        Err(e) => Err(e),
        Ok(current) => Ok(MathConfig { init_amp: current, init_amp_time: t, next_amp: current, next_amp_time: t }),
    }
}

/// Stops any ramp at block time `t`, freezing the current amplification.
pub fn stop_changing_amp(c: &MathConfig, t: u64) -> (r: Result<MathConfig, MathError>)
    ensures
        r == stop_changing_amp_spec(*c, t),
{
    let current = compute_current_amp(c, t)?;
    Ok(MathConfig { init_amp: current, init_amp_time: t, next_amp: current, next_amp_time: t })
}

/// After a stop, the amplification stays at the value it had when stopped.
pub proof fn law_stop_freezes_amp(c: MathConfig, t: u64, later: u64)
    requires
        stop_changing_amp_spec(c, t) is Ok,
        t <= later,
    ensures
        current_amp_spec(stop_changing_amp_spec(c, t)->Ok_0, later) == current_amp_spec(c, t),
{
}

/// Starting a ramp does not move the amplification at the moment it starts.
pub proof fn law_start_is_continuous(c: MathConfig, t: u64, next_amp: u64, next_amp_time: u64)
    requires
        start_changing_amp_spec(c, t, next_amp, next_amp_time) is Ok,
    ensures
        current_amp_spec(start_changing_amp_spec(c, t, next_amp, next_amp_time)->Ok_0, t) == current_amp_spec(c, t),
{
    let c2 = start_changing_amp_spec(c, t, next_amp, next_amp_time)->Ok_0;
    if t < c2.next_amp_time {
        assert((c2.next_amp - c2.init_amp) as nat * 0 == 0);
        assert((c2.init_amp - c2.next_amp) as nat * 0 == 0);
    }
}

/// At the end of a ramp the amplification is the target.
pub proof fn law_ramp_reaches_target(c: MathConfig, t: u64)
    requires
        t >= c.next_amp_time,
    ensures
        current_amp_spec(c, t) == Ok::<u64, MathError>(c.next_amp),
{
}

/// A ramp that is accepted starts from the current amplification and aims at
/// most `MAX_AMP_CHANGE` times above or below it: the target (with precision)
/// is `next_amp * AMP_PRECISION`, between `current / MAX_AMP_CHANGE` and
/// `current * MAX_AMP_CHANGE`. It also lasts at least `MIN_AMP_CHANGING_TIME`
/// and starts at least that long after the previous ramp began.
pub proof fn law_start_bounds_the_change(c: MathConfig, t: u64, next_amp: u64, next_amp_time: u64)
    requires
        start_changing_amp_spec(c, t, next_amp, next_amp_time) is Ok,
    ensures
        ({
            let c2 = start_changing_amp_spec(c, t, next_amp, next_amp_time)->Ok_0;
            &&& current_amp_spec(c, t) == Ok::<u64, MathError>(c2.init_amp)
            &&& 1 <= next_amp <= MAX_AMP
            &&& c2.next_amp == next_amp * AMP_PRECISION
            &&& c2.init_amp <= c2.next_amp * MAX_AMP_CHANGE
            &&& c2.next_amp <= c2.init_amp * MAX_AMP_CHANGE
            &&& c2.init_amp_time == t
            &&& c2.next_amp_time == next_amp_time
            &&& t >= c.init_amp_time + MIN_AMP_CHANGING_TIME
            &&& next_amp_time >= t + MIN_AMP_CHANGING_TIME
        }),
{
}

} // verus!
