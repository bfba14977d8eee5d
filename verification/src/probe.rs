//! The client's probe engine: one request/response exchange yielding one
//! Measurement.
//!
//! A probe is strictly sequential: the request is built and sent once, T1 is
//! recorded right after the send returns, and T4 at the first sight of the
//! response datagram. The session type tracks those steps so that they can
//! only happen in order; the caller drives the transport and the clock.

use vstd::prelude::*;
use crate::errors::TsqError;
use crate::measure::{
    compute_measurement, offset_formula, rtt_formula, Measurement, TS_LIMIT_NS,
};
use crate::tlv::{lemma_response_ts_bounded, response_ts, tlv_encoding, T_NONCE};

verus! {

/// Relies on ring::rand::SystemRandom::new and SecureRandom::fill: `fill`
/// either fills the whole 16-byte buffer with bytes from the operating
/// system's CSPRNG and returns Ok, or fails. Nothing is assumed of the bytes'
/// values.
#[verifier::external_body]
fn fill_random_16() -> (r: Option<Vec<u8>>)
    ensures
        match r {
            Some(v) => v@.len() == 16,
            None => true,
        },
{
    let mut nonce = vec![0u8; 16];
    match ring::rand::SecureRandom::fill(&ring::rand::SystemRandom::new(), &mut nonce) {
        Ok(()) => Some(nonce),
        Err(_) => None,
    }
}

/// Builds the request frame for a nonce: the one record [type 1, length 16,
/// nonce], 18 bytes.
pub fn build_request(nonce: &[u8]) -> (r: Vec<u8>)
    requires
        nonce@.len() == 16,
    ensures
        r@ == tlv_encoding(T_NONCE, nonce@),
        r@.len() == 18,
{
    crate::tlv::encode_tlv(T_NONCE, nonce)
}

/// Where one probe stands.
#[derive(Clone, Copy, Debug, PartialEq, Eq, Structural)]
pub enum ProbePhase {
    /// Nothing sent yet; waiting for the connection.
    Idle,
    /// The request was handed to the transport; T1 not yet recorded.
    Sent,
    /// T1 recorded; waiting for the response datagram.
    Timed,
    /// The probe ended, in a Measurement or an error.
    Done,
}

/// One probe over an established connection.
pub struct ProbeSession {
    /// Where the probe stands.
    pub phase: ProbePhase,
    /// The nonce the request carries.
    pub nonce: Vec<u8>,
    /// T1, recorded right after the send call returned.
    pub t1_ns: u64,
}

/// What holds of a session in every phase after `Idle`.
pub open spec fn session_wf(s: ProbeSession) -> bool {
    &&& (s.phase != ProbePhase::Idle ==> s.nonce@.len() == 16)
    &&& (s.phase == ProbePhase::Timed || s.phase == ProbePhase::Done ==> s.t1_ns < TS_LIMIT_NS)
}

/// Whether the response's leading nonce record differs from the one sent.
/// A mismatch marks a stale or reordered datagram.
pub open spec fn nonce_mismatch(data: Seq<u8>, nonce: Seq<u8>) -> bool {
    data.len() >= 18 && data[0] == T_NONCE && data[1] == 16 && data.subrange(2, 18) != nonce
}

impl ProbeSession {
    /// A fresh probe, before the connection is ready.
    pub fn new() -> (s: ProbeSession)
        ensures
            s.phase == ProbePhase::Idle,
            session_wf(s),
    {
        ProbeSession { phase: ProbePhase::Idle, nonce: Vec::new(), t1_ns: 0 }
    }

    /// Draws a fresh nonce and builds the request frame, once the connection
    /// is established. The caller hands the frame to the transport and then
    /// records T1. Fails only when the system's random source does.
    pub fn start(&mut self) -> (r: Result<Vec<u8>, TsqError>)
        requires
            old(self).phase == ProbePhase::Idle,
        ensures
            session_wf(*final(self)),
            match r {
                Ok(req) => {
                    &&& final(self).phase == ProbePhase::Sent
                    &&& final(self).nonce@.len() == 16
                    &&& req@ == tlv_encoding(T_NONCE, final(self).nonce@)
                },
                Err(e) => e == TsqError::TransportError && final(self).phase == ProbePhase::Idle,
            },
    {
        match fill_random_16() {
            Some(nonce) => {
                let req: Vec<u8> = build_request(nonce.as_slice());
                self.nonce = nonce;
                self.phase = ProbePhase::Sent;
                Ok(req)
            },
            None => Err(TsqError::TransportError),
        }
    }

    /// Records T1, read from the wall clock right after the send returned.
    pub fn record_t1(&mut self, t1_ns: u64)
        requires
            old(self).phase == ProbePhase::Sent,
            session_wf(*old(self)),
            t1_ns < TS_LIMIT_NS,
        ensures
            session_wf(*final(self)),
            final(self).phase == ProbePhase::Timed,
            final(self).t1_ns == t1_ns,
            final(self).nonce == old(self).nonce,
    {
        self.t1_ns = t1_ns;
        self.phase = ProbePhase::Timed;
    }

    /// Ends the probe with the response datagram and T4, read at its first
    /// observation: discards it as `NonceMismatch` when the echoed nonce
    /// differs, fails with `DecodeError` exactly when the frame denotes no
    /// timestamp pair, and otherwise computes the Measurement.
    pub fn finish(&mut self, payload: &[u8], t4_ns: u64) -> (r: Result<Measurement, TsqError>)
        requires
            old(self).phase == ProbePhase::Timed,
            session_wf(*old(self)),
            t4_ns < TS_LIMIT_NS,
        ensures
            final(self).phase == ProbePhase::Done,
            final(self).t1_ns == old(self).t1_ns,
            session_wf(*final(self)),
            match r {
                Ok(m) => {
                    &&& !nonce_mismatch(payload@, old(self).nonce@)
                    &&& match response_ts(payload@) {
                        Some(p) => m.offset_ns == offset_formula(
                            old(self).t1_ns as int,
                            p.0,
                            p.1,
                            t4_ns as int,
                        ) && m.rtt_ns == rtt_formula(
                            old(self).t1_ns as int,
                            p.0,
                            p.1,
                            t4_ns as int,
                        ),
                        None => false,
                    }
                },
                Err(e) => {
                    ||| (e == TsqError::NonceMismatch && nonce_mismatch(
                        payload@,
                        old(self).nonce@,
                    ))
                    ||| (e == TsqError::DecodeError && !nonce_mismatch(payload@, old(self).nonce@)
                        && response_ts(payload@) is None)
                },
            },
    {
        self.phase = ProbePhase::Done;
        if payload.len() >= 18 && payload[0] == T_NONCE && payload[1] == 16 {
            let mut k: usize = 0;
            let mut same: bool = true;
            proof {
                assert(payload@.subrange(2, 2) =~= self.nonce@.subrange(0, 0));
            }
            while k < 16
                invariant
                    k <= 16,
                    payload@.len() >= 18,
                    self.nonce@.len() == 16,
                    same <==> payload@.subrange(2, 2 + k) == self.nonce@.subrange(0, k as int),
                decreases 16 - k,
            {
                let ghost prev: bool = same;
                if payload[2 + k] != self.nonce[k] {
                    same = false;
                }
                k = k + 1;
                proof {
                    let pk: Seq<u8> = payload@.subrange(2, 2 + k);
                    let nk: Seq<u8> = self.nonce@.subrange(0, k as int);
                    let pk1: Seq<u8> = payload@.subrange(2, 2 + (k - 1));
                    let nk1: Seq<u8> = self.nonce@.subrange(0, k - 1);
                    assert(pk1 =~= pk.subrange(0, k - 1));
                    assert(nk1 =~= nk.subrange(0, k - 1));
                    assert(pk[k - 1] == payload@[2 + (k - 1)]);
                    assert(nk[k - 1] == self.nonce@[k - 1]);
                    if prev && payload@[2 + (k - 1)] == self.nonce@[k - 1] {
                        assert(pk =~= pk1 + seq![payload@[2 + (k - 1)]]);
                        assert(nk =~= nk1 + seq![self.nonce@[k - 1]]);
                        assert(pk == nk);
                    } else {
                        assert(pk != nk);
                    }
                }
            }
            proof {
                assert(self.nonce@.subrange(0, 16) =~= self.nonce@);
            }
            if !same {
                return Err(TsqError::NonceMismatch);
            }
        }
        proof {
            lemma_response_ts_bounded(payload@);
        }
        match crate::tlv::parse_response(payload) {
            Ok((t2_ns, t3_ns)) => Ok(compute_measurement(self.t1_ns, t2_ns, t3_ns, t4_ns)),
            Err(e) => Err(e),
        }
    }
}

} // verus!
