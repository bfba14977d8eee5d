//! The error taxonomy of the protocol.

use vstd::prelude::*;

verus! {

/// Every way a sync run can fail. Per-probe kinds (`Timeout`, `DecodeError`,
/// `NonceMismatch`, `TransportError`) are local: the run continues with the
/// next probe. The rest are fatal for the run.
#[derive(Clone, Copy, Debug, PartialEq, Eq, Structural)]
pub enum TsqError {
    /// A QUIC call failed.
    TransportError,
    /// Hostname lookup failed.
    ResolveError,
    /// The UDP socket could not be bound.
    BindError,
    /// No response arrived before the probe deadline.
    Timeout,
    /// A malformed response or request.
    DecodeError,
    /// The echoed nonce differs from the one sent.
    NonceMismatch,
    /// Zero successful probes in a sync run.
    NoMeasurements,
    /// The median offset exceeds the configured maximum.
    OffsetTooLarge,
    /// Clock adjustment attempted without root privileges.
    PermissionDenied,
    /// The OS refused to step the clock.
    StepFailed,
    /// The OS refused to slew the clock.
    SlewFailed,
    /// No gradual-adjustment interface exists on this platform.
    UnsupportedPlatform,
}

} // verus!
