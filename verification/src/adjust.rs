//! The clock-adjustment decision: dry-run, privilege gate, and the choice
//! between slewing (gradual correction) and stepping (immediate set).
//!
//! The decision is a pure function from the gated median offset and the run's
//! configuration to an action; the caller performs the chosen syscall and
//! reports its outcome.

use vstd::prelude::*;
use crate::aggregate::{div_toward_zero, MAX_ABS_NS};
use crate::errors::TsqError;
use crate::measure::abs_of;

verus! {

/// Configuration of one sync run, as the command line sets it.
pub struct AdjTimeConfig {
    /// Hostnames to query.
    pub servers: Vec<String>,
    /// Server port.
    pub port: u16,
    /// Probes per server.
    pub queries: usize,
    /// Largest median offset, in milliseconds, that may be applied at all.
    pub max_offset_ms: u64,
    /// Largest offset magnitude, in milliseconds, corrected by slewing;
    /// anything greater steps the clock.
    pub slew_threshold_ms: u64,
    /// Log the intended adjustment and leave the clock alone.
    pub dry_run: bool,
    /// Chattier logging.
    pub verbose: bool,
}

impl AdjTimeConfig {
    /// Bundles the run's settings.
    pub fn new(
        servers: Vec<String>,
        port: u16,
        queries: usize,
        max_offset_ms: u64,
        slew_threshold_ms: u64,
        dry_run: bool,
        verbose: bool,
    ) -> (c: AdjTimeConfig)
        ensures
            c.servers == servers,
            c.port == port,
            c.queries == queries,
            c.max_offset_ms == max_offset_ms,
            c.slew_threshold_ms == slew_threshold_ms,
            c.dry_run == dry_run,
            c.verbose == verbose,
    {
        AdjTimeConfig { servers, port, queries, max_offset_ms, slew_threshold_ms, dry_run, verbose }
    }
}

/// The clock interface the build targets: the kernel frequency-adjust call,
/// the POSIX gradual-adjustment call, or neither.
#[derive(Clone, Copy, Debug, PartialEq, Eq, Structural)]
pub enum Platform {
    /// A frequency-adjust syscall taking a mode bitmask and a microsecond
    /// offset.
    LinuxFreqAdjust,
    /// A gradual-adjustment call taking a (seconds, microseconds) delta.
    PosixGradual,
    /// No gradual-adjustment interface.
    Unsupported,
}

/// What the caller is to do with the clock.
#[derive(Clone, Copy, Debug, PartialEq, Eq, Structural)]
pub enum AdjustDecision {
    /// Log the intended adjustment; touch nothing.
    DryRun { offset_ns: i64 },
    /// Hand the offset, in microseconds, to the frequency-adjust interface.
    Slew { offset_us: i64 },
    /// Hand a (seconds, microseconds) delta to the gradual-adjustment
    /// interface.
    SlewGradual { delta_sec: i64, delta_usec: i64 },
    /// Read the wall clock, add the offset, and set it back.
    Step { offset_ns: i64 },
    /// Do nothing; the run fails with this error.
    Refuse { err: TsqError },
}

/// Division toward zero of a sample by a positive constant.
fn div_tz(x: i64, d: i64) -> (r: i64)
    requires
        d > 0,
        x > i64::MIN,
    ensures
        r == div_toward_zero(x as int, d as int),
{
    if x >= 0 {
        ((x as u64) / (d as u64)) as i64
    } else {
        -((((-x) as u64) / (d as u64)) as i64)
    }
}

/// Decides how the clock is adjusted for a gated median offset: dry-run
/// reports only; without root privileges nothing is touched; an offset within
/// the slew threshold is slewed by the platform's gradual interface, or
/// refused where there is none; a larger offset is stepped.
pub fn decide_adjustment(
    offset_ns: i64,
    slew_threshold_ms: u64,
    dry_run: bool,
    euid_is_root: bool,
    platform: Platform,
) -> (d: AdjustDecision)
    requires
        abs_of(offset_ns as int) <= MAX_ABS_NS as int,
        slew_threshold_ms <= 1_000_000_000_000,
    ensures
        match d {
            AdjustDecision::DryRun { offset_ns: o } => dry_run && o == offset_ns,
            AdjustDecision::Refuse { err } => {
                &&& !dry_run
                &&& (err == TsqError::PermissionDenied && !euid_is_root) || (err
                    == TsqError::UnsupportedPlatform && euid_is_root && abs_of(offset_ns as int)
                    <= slew_threshold_ms * 1_000_000 && platform == Platform::Unsupported)
            },
            AdjustDecision::Slew { offset_us } => {
                &&& !dry_run
                &&& euid_is_root
                &&& abs_of(offset_ns as int) <= slew_threshold_ms * 1_000_000
                &&& platform == Platform::LinuxFreqAdjust
                &&& offset_us == div_toward_zero(offset_ns as int, 1000)
            },
            AdjustDecision::SlewGradual { delta_sec, delta_usec } => {
                &&& !dry_run
                &&& euid_is_root
                &&& abs_of(offset_ns as int) <= slew_threshold_ms * 1_000_000
                &&& platform == Platform::PosixGradual
                &&& delta_sec == div_toward_zero(offset_ns as int, 1_000_000_000)
                &&& delta_usec == div_toward_zero(
                    offset_ns - 1_000_000_000 * div_toward_zero(offset_ns as int, 1_000_000_000),
                    1000,
                )
                &&& delta_sec * 1_000_000 + delta_usec == div_toward_zero(offset_ns as int, 1000)
            },
            AdjustDecision::Step { offset_ns: o } => {
                &&& !dry_run
                &&& euid_is_root
                &&& abs_of(offset_ns as int) > slew_threshold_ms * 1_000_000
                &&& o == offset_ns
            },
        },
{
    if dry_run {
        return AdjustDecision::DryRun { offset_ns };
    }
    if !euid_is_root {
        return AdjustDecision::Refuse { err: TsqError::PermissionDenied };
    }
    let mag: i64 = if offset_ns >= 0 {
        offset_ns
    } else {
        -offset_ns
    };
    let threshold: u64 = slew_threshold_ms * 1_000_000;
    if (mag as u64) <= threshold {
        match platform {
            Platform::LinuxFreqAdjust => {
                let offset_us: i64 = div_tz(offset_ns, 1000);
                AdjustDecision::Slew { offset_us }
            },
            Platform::PosixGradual => {
                let delta_sec: i64 = div_tz(offset_ns, 1_000_000_000);
                let rem: i64 = offset_ns - delta_sec * 1_000_000_000;
                let delta_usec: i64 = div_tz(rem, 1000);
                proof {
                    assert(abs_of(delta_sec as int) <= MAX_ABS_NS as int);
                    let o: int = offset_ns as int;
                    if o >= 0 {
                        vstd::arithmetic::div_mod::lemma_fundamental_div_mod(o, 1_000_000_000);
                        vstd::arithmetic::div_mod::lemma_hoist_over_denominator(
                            rem as int,
                            delta_sec * 1_000_000,
                            1000,
                        );
                    } else {
                        vstd::arithmetic::div_mod::lemma_fundamental_div_mod(-o, 1_000_000_000);
                        vstd::arithmetic::div_mod::lemma_hoist_over_denominator(
                            -rem as int,
                            (-delta_sec) * 1_000_000,
                            1000,
                        );
                    }
                }
                AdjustDecision::SlewGradual { delta_sec, delta_usec }
            },
            Platform::Unsupported => AdjustDecision::Refuse {
                err: TsqError::UnsupportedPlatform,
            },
        }
    } else {
        AdjustDecision::Step { offset_ns }
    }
}

/// The new wall-clock value for a step: the current (seconds, microseconds)
/// reading plus the offset taken to whole microseconds, with the microsecond
/// field normalized into [0, 10^6) by carrying into the seconds field.
pub fn step_target(now_sec: i64, now_usec: i64, offset_ns: i64) -> (r: (i64, i64))
    requires
        abs_of(now_sec as int) <= 0x100_0000_0000,
        0 <= now_usec < 1_000_000,
        abs_of(offset_ns as int) <= MAX_ABS_NS as int,
    ensures
        0 <= r.1 < 1_000_000,
        r.0 * 1_000_000 + r.1 == now_sec * 1_000_000 + now_usec + div_toward_zero(
            offset_ns as int,
            1000,
        ),
{
    let offset_us: i64 = div_tz(offset_ns, 1000);
    let total_us: i64 = now_sec * 1_000_000 + now_usec + offset_us;
    if total_us >= 0 {
        let sec: i64 = ((total_us as u64) / 1_000_000) as i64;
        let usec: i64 = ((total_us as u64) % 1_000_000) as i64;
        proof {
            vstd::arithmetic::div_mod::lemma_fundamental_div_mod(total_us as int, 1_000_000);
        }
        (sec, usec)
    } else {
        let mag: u64 = (-total_us) as u64;
        let q: u64 = mag / 1_000_000;
        let r0: u64 = mag % 1_000_000;
        proof {
            vstd::arithmetic::div_mod::lemma_fundamental_div_mod(mag as int, 1_000_000);
        }
        if r0 == 0 {
            (-(q as i64), 0)
        } else {
            (-(q as i64) - 1, 1_000_000 - (r0 as i64))
        }
    }
}

} // verus!
