//! One entry point over both backends: parameters tagged with their backend,
//! from which receivers and senders of the matching backend are made.

use vstd::prelude::*;
use crate::domain::{MAX_LOG_SIZE, domain_len};
use crate::error::{ConfigError, LotError};
use crate::ot::{Choice, LaconicOTRecv, LaconicOTSender, TrinityCom};
use crate::params::{CommitmentKey, KZGType, LaconicParams};
use crate::wire::{laconic_params_bytes, parse_laconic_params};

verus! {

/// Full parameters (for the receiver) or the sender's part of them.
#[derive(Clone, Debug)]
pub enum TrinityInnerParams {
    Full(CommitmentKey),
    Sender(LaconicParams),
}

/// Parameters of one backend.
#[derive(Clone, Debug)]
pub struct Trinity {
    pub mode: KZGType,
    pub params: TrinityInnerParams,
}

impl Trinity {
    pub open spec fn wf(&self) -> bool {
        match self.params {
            TrinityInnerParams::Full(p) => p.wf() && p.backend == self.mode,
            TrinityInnerParams::Sender(s) => s.wf() && s.backend == self.mode,
        }
    }

    /// The sender's part: backend, log-size, `g0`, `g2`, `s g2`.
    pub open spec fn sender_view(&self) -> (KZGType, u32, Seq<u8>, Seq<u8>, Seq<u8>) {
        match self.params {
            TrinityInnerParams::Full(p) => (p.backend, p.k, p.powers@[0].enc@, p.g2.enc@, p.s_g2.enc@),
            TrinityInnerParams::Sender(s) => s.view(),
        }
    }

    /// Fresh full parameters of backend `mode` for a domain of `2^k` points.
    pub fn setup(mode: KZGType, k: u32) -> (r: Result<Trinity, LotError>)
        ensures
            k > MAX_LOG_SIZE <==> r == Err::<Trinity, LotError>(
                LotError::Configuration(ConfigError::DomainTooLarge { k }),
            ),
            k <= MAX_LOG_SIZE ==> r is Ok,
            r matches Ok(t) ==> t.wf() && t.mode == mode && t.params is Full && match t.params {
                TrinityInnerParams::Full(p) => p.k == k,
                _ => false,
            },
    {
        match CommitmentKey::setup(mode, k) {
            Ok(p) => Ok(Trinity { mode, params: TrinityInnerParams::Full(p) }),
            Err(e) => Err(e),
        }
    }

    /// Parameters that hold only the sender's part.
    pub fn setup_for_garbler(sender_params: LaconicParams) -> (t: Trinity)
        requires
            sender_params.wf(),
        ensures
            t.wf(),
            t.mode == sender_params.backend,
            t.sender_view() == sender_params.view(),
            t.params is Sender,
    {
        Trinity { mode: sender_params.backend, params: TrinityInnerParams::Sender(sender_params) }
    }

    /// The sender's part of the parameters.
    pub fn to_sender_params(&self) -> (s: LaconicParams)
        requires
            self.wf(),
        ensures
            s.wf(),
            s.view() == self.sender_view(),
    {
        match &self.params {
            TrinityInnerParams::Full(p) => p.to_sender_params(),
            TrinityInnerParams::Sender(s) => LaconicParams {
                backend: s.backend,
                k: s.k,
                g0: s.g0.duplicate(),
                g2: s.g2.duplicate(),
                s_g2: s.s_g2.duplicate(),
            },
        }
    }

    /// The encoding of the sender's part, for transfer to a sender.
    pub fn to_sender_bytes(&self) -> (r: Vec<u8>)
        requires
            self.wf(),
        ensures
            r@ == laconic_params_bytes(
                self.sender_view().0,
                self.sender_view().1,
                self.sender_view().2,
                self.sender_view().3,
                self.sender_view().4,
            ),
    {
        let s = self.to_sender_params();
        s.to_bytes()
    }

    /// Sender-only parameters read from their encoding.
    pub fn from_sender_bytes(bytes: &[u8]) -> (r: Result<Trinity, LotError>)
        ensures
            match parse_laconic_params(bytes@) {
                Ok(v) => r matches Ok(t) && t.wf() && t.sender_view() == v && t.params is Sender,
                Err(e) => r == Err::<Trinity, LotError>(LotError::Decode(e)),
            },
    {
        match LaconicParams::from_bytes(bytes) {
            Ok(s) => Ok(Trinity::setup_for_garbler(s)),
            Err(e) => Err(e),
        }
    }

    /// A receiver for `bits` of this backend. For the circuit-certified backend
    /// `certificate` is what the proving system produced for `bits`; the plain
    /// backend does not use it.
    pub fn create_ot_receiver(&self, bits: &[Choice], certificate: Vec<u8>) -> (r: Result<
        LaconicOTRecv,
        LotError,
    >)
        requires
            self.wf(),
        ensures
            match self.params {
                TrinityInnerParams::Sender(_) => r == Err::<LaconicOTRecv, LotError>(
                    LotError::Configuration(ConfigError::SenderOnlyParams),
                ),
                TrinityInnerParams::Full(p) => {
                    &&& bits@.len() > domain_len(p.k as nat) ==> r == Err::<LaconicOTRecv, LotError>(
                        LotError::Configuration(
                            ConfigError::TooManyBits {
                                capacity: domain_len(p.k as nat) as usize,
                                got: bits@.len() as usize,
                            },
                        ),
                    )
                    &&& bits@.len() <= domain_len(p.k as nat) ==> (r matches Ok(rc) && rc.built_from(
                        &p,
                        bits@,
                    ) && rc.wf() && rc.kind() == self.mode && rc.size() == domain_len(p.k as nat) && (
                    self.mode == KZGType::Halo2 ==> rc.certificate_view() == certificate@))
                },
            },
    {
        match &self.params {
            TrinityInnerParams::Sender(_) => Err(
                LotError::Configuration(ConfigError::SenderOnlyParams),
            ),
            TrinityInnerParams::Full(p) => match self.mode {
                KZGType::Plain => LaconicOTRecv::new(p, bits),
                KZGType::Halo2 => LaconicOTRecv::new_halo2(p, bits, certificate),
            },
        }
    }

    /// A sender for the commitment `com`. For the circuit-certified backend
    /// `certificate_accepted` is the proving system's verdict on the
    /// commitment's certificate.
    pub fn create_ot_sender(&self, com: &TrinityCom, certificate_accepted: bool) -> (r: Result<
        LaconicOTSender,
        LotError,
    >)
        requires
            self.wf(),
            com.point.wf(),
        ensures
            self.mode != com.backend ==> r == Err::<LaconicOTSender, LotError>(
                LotError::Configuration(ConfigError::BackendMismatch),
            ),
            self.mode == com.backend && com.backend == KZGType::Halo2 && !certificate_accepted ==> r
                == Err::<LaconicOTSender, LotError>(LotError::VerificationFailure),
            self.mode == com.backend && (com.backend == KZGType::Plain || certificate_accepted) ==> (
            r matches Ok(s) && {
                &&& s.wf()
                &&& s.backend == self.mode
                &&& s.k == self.sender_view().1
                &&& s.g1.enc@ == self.sender_view().2
                &&& s.g2.enc@ == self.sender_view().3
                &&& s.s_g2.enc@ == self.sender_view().4
                &&& s.com.enc@ == com.point.enc@
            }),
    {
        let s = self.to_sender_params();
        LaconicOTSender::new(&s, com, certificate_accepted)
    }
}

} // verus!
