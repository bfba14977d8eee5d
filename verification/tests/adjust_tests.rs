use tsq::adjust::{decide_adjustment, step_target, AdjTimeConfig, AdjustDecision, Platform};
use tsq::errors::TsqError;

const MS: i64 = 1_000_000;

#[test]
fn dry_run_never_reaches_a_syscall() {
    // Whatever the offset, privileges or platform, dry-run only reports.
    let offsets: [i64; 4] = [0, 125 * MS, -125 * MS, 900_000 * MS];
    for &o in offsets.iter() {
        let d = decide_adjustment(o, 500, true, false, Platform::Unsupported);
        assert_eq!(d, AdjustDecision::DryRun { offset_ns: o });
    }
}

#[test]
fn non_root_is_refused() {
    let d = decide_adjustment(125 * MS, 500, false, false, Platform::LinuxFreqAdjust);
    assert_eq!(d, AdjustDecision::Refuse { err: TsqError::PermissionDenied });
}

#[test]
fn small_offset_slews_on_linux() {
    // 125 ms <= 500 ms: the slew branch, offset handed over in microseconds.
    let d = decide_adjustment(125 * MS, 500, false, true, Platform::LinuxFreqAdjust);
    assert_eq!(d, AdjustDecision::Slew { offset_us: 125_000 });
    let d = decide_adjustment(-125 * MS, 500, false, true, Platform::LinuxFreqAdjust);
    assert_eq!(d, AdjustDecision::Slew { offset_us: -125_000 });
}

#[test]
fn small_offset_slews_gradually_on_posix() {
    let d = decide_adjustment(1_500 * MS, 2_000, false, true, Platform::PosixGradual);
    assert_eq!(d, AdjustDecision::SlewGradual { delta_sec: 1, delta_usec: 500_000 });
    let d = decide_adjustment(-1_500 * MS, 2_000, false, true, Platform::PosixGradual);
    assert_eq!(d, AdjustDecision::SlewGradual { delta_sec: -1, delta_usec: -500_000 });
}

#[test]
fn small_offset_on_unknown_platform_is_refused() {
    let d = decide_adjustment(125 * MS, 500, false, true, Platform::Unsupported);
    assert_eq!(d, AdjustDecision::Refuse { err: TsqError::UnsupportedPlatform });
}

#[test]
fn large_offset_steps() {
    let d = decide_adjustment(700 * MS, 500, false, true, Platform::LinuxFreqAdjust);
    assert_eq!(d, AdjustDecision::Step { offset_ns: 700 * MS });
}

#[test]
fn step_target_normalizes_the_microsecond_field() {
    // A positive carry into the seconds field.
    let (sec, usec) = step_target(100, 999_999, 1_500_000);
    assert_eq!((sec, usec), (101, 1_499));
    // A negative offset borrows from the seconds field.
    let (sec, usec) = step_target(100, 100, -1_000_000);
    assert_eq!((sec, usec), (99, 999_100));
    // No carry.
    let (sec, usec) = step_target(100, 100, 5_000);
    assert_eq!((sec, usec), (100, 105));
    // The field always lands in [0, 10^6).
    let cases: [(i64, i64, i64); 4] =
        [(0, 0, -1_000), (0, 0, -999_999_000), (5, 0, -6_000_000_000), (-3, 17, 12_345_678_000)];
    for &(s, u, o) in cases.iter() {
        let (rs, ru) = step_target(s, u, o);
        assert!(0 <= ru && ru < 1_000_000);
        assert_eq!(rs * 1_000_000 + ru, s * 1_000_000 + u + o / 1_000);
    }
}

#[test]
fn config_keeps_its_settings() {
    let c = AdjTimeConfig::new(
        vec!["a.example".to_string(), "b.example".to_string()],
        443,
        5,
        1000,
        500,
        false,
        true,
    );
    assert_eq!(c.servers.len(), 2);
    assert_eq!(c.port, 443);
    assert_eq!(c.queries, 5);
    assert_eq!(c.max_offset_ms, 1000);
    assert_eq!(c.slew_threshold_ms, 500);
    assert!(!c.dry_run);
    assert!(c.verbose);
}
