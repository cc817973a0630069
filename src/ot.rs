//! The laconic oblivious transfer: a receiver commits to its choice bits in one
//! group element; a sender then masks two messages per index so that the
//! receiver can unmask only the one its bit selects.

use vstd::prelude::*;
use crate::domain::{MAX_LOG_SIZE, domain_elem, domain_element, domain_len, domain_size};
use crate::error::{ConfigError, LotError};
use crate::field::{Scalar, all_wf, random_scalar, scalar_vals};
use crate::fk::{all_openings_fk, fk_openings};
use crate::group::{
    G1Elem, G2Elem, all_g1_ok, g1_encs, g1_minus, g1_msm, g1_mul, g1_scale, g1_sub, g2_minus,
    g2_mul, g2_scale, g2_sub, msm, pairing, pairing_bytes,
};
use crate::params::{KZGType, CommitmentKey, LaconicParams};

verus! {

/// Length of the messages transferred.
pub const MSG_SIZE: usize = 16;

/// A receiver's choice bit.
#[derive(Clone, Copy, Debug, PartialEq, Eq, Structural)]
pub enum Choice {
    Zero,
    One,
}

impl Choice {
    pub open spec fn bit(self) -> nat {
        match self {
            Choice::Zero => 0,
            Choice::One => 1,
        }
    }

    /// The bit as a scalar field element.
    pub fn to_fr(&self) -> (r: Scalar)
        ensures
            r.wf(),
            r.val() == self.bit(),
    {
        match self {
            Choice::Zero => Scalar::zero(),
            Choice::One => Scalar::one(),
        }
    }

    pub fn from_bool(b: bool) -> (r: Choice)
        ensures
            r.bit() == (if b { 1nat } else { 0nat }),
    {
        if b {
            Choice::One
        } else {
            Choice::Zero
        }
    }

    /// A choice drawn at random.
    pub fn random() -> (r: Choice) {
        Choice::from_bool(random_bool())
    }
}

/// Relies on rand::random::<bool>: some bool.
#[verifier::external_body]
fn random_bool() -> (r: bool) {
    rand::random::<bool>()
}

/// The choices extended with `Zero` to length `n`.
pub open spec fn padded(bits: Seq<Choice>, n: nat) -> Seq<Choice> {
    Seq::new(n, |i: int| if i < bits.len() { bits[i] } else { Choice::Zero })
}

/// The choices as field values.
pub open spec fn choice_vals(bits: Seq<Choice>) -> Seq<nat> {
    bits.map_values(|c: Choice| c.bit())
}

/// The first sixteen bytes of the blake3 extendable output of `pad`.
pub uninterp spec fn keystream16(pad: Seq<u8>) -> Seq<u8>;

/// Relies on blake3's Hasher: the extendable output of `pad`, of which the
/// first sixteen bytes are read.
#[verifier::external_body]
fn keystream(pad: &Vec<u8>) -> (r: [u8; 16])
    ensures
        r@ == keystream16(pad@),
{
    let mut hasher = blake3::Hasher::new();
    hasher.update(&pad[..]);
    let mut out = [0u8; 16];
    hasher.finalize_xof().fill(&mut out);
    out
}

/// Bytewise exclusive or of two sixteen-byte strings.
pub open spec fn xor16(a: Seq<u8>, b: Seq<u8>) -> Seq<u8> {
    Seq::new(16, |i: int| a[i] ^ b[i])
}

/// Masks `msg` with the keystream of `pad`.
pub fn encrypt(pad: &Vec<u8>, msg: &[u8; MSG_SIZE]) -> (r: [u8; MSG_SIZE])
    ensures
        r@ == xor16(keystream16(pad@), msg@),
{
    let ks = keystream(pad);
    let mut res = [0u8; MSG_SIZE];
    let mut i: usize = 0;
    while i < MSG_SIZE
        invariant
            i <= MSG_SIZE,
            ks@ == keystream16(pad@),
            res@.len() == MSG_SIZE,
            forall|j: int| 0 <= j < i ==> res@[j] == (#[trigger] ks@[j]) ^ msg@[j],
        decreases MSG_SIZE - i,
    {
        res[i] = ks[i] ^ msg[i];
        i = i + 1;
    }
    assert(res@ =~= xor16(keystream16(pad@), msg@));
    res
}

/// Unmasks `ct` with the keystream of `pad`.
pub fn decrypt(pad: &Vec<u8>, ct: &[u8; MSG_SIZE]) -> (r: [u8; MSG_SIZE])
    ensures
        r@ == xor16(keystream16(pad@), ct@),
{
    encrypt(pad, ct)
}

/// Masking twice with one keystream gives the message back.
pub proof fn lemma_unmask_masked(ks: Seq<u8>, m: Seq<u8>)
    requires
        m.len() == 16,
    ensures
        xor16(ks, xor16(ks, m)) == m,
{
    assert forall|i: int| 0 <= i < 16 implies #[trigger] xor16(ks, xor16(ks, m))[i] == m[i] by {
        let a = ks[i];
        let b = m[i];
        assert(a ^ (a ^ b) == b) by (bit_vector);
    }
    assert(xor16(ks, xor16(ks, m)) =~= m);
}

/// The commitment to the choices, zero-padded to the `n` points of the domain.
pub open spec fn commit_spec(lagranges: Seq<Seq<u8>>, bits: Seq<Choice>, n: nat) -> Seq<u8> {
    g1_msm(lagranges, choice_vals(padded(bits, n)))
}

/// A commitment as it is handed to senders.
#[derive(Clone, Debug, PartialEq, Eq)]
pub struct TrinityCom {
    pub backend: KZGType,
    pub point: G1Elem,
    /// Empty for the plain backend.
    pub certificate: Vec<u8>,
}

/// The two masked messages for one index.
#[derive(Clone, Debug, PartialEq, Eq)]
pub struct Msg {
    pub backend: KZGType,
    pub h0: G2Elem,
    pub c0: [u8; MSG_SIZE],
    pub h1: G2Elem,
    pub c1: [u8; MSG_SIZE],
}

impl Msg {
    pub open spec fn wf(&self) -> bool {
        self.h0.wf() && self.h1.wf()
    }
}

/// The commitment to `bits` against the Lagrange basis of `params`.
pub fn commit(params: &CommitmentKey, bits: &[Choice]) -> (r: Result<G1Elem, LotError>)
    requires
        params.wf(),
    ensures
        bits@.len() > domain_len(params.k as nat) <==> r == Err::<G1Elem, LotError>(
            LotError::Configuration(
                ConfigError::TooManyBits {
                    capacity: domain_len(params.k as nat) as usize,
                    got: bits@.len() as usize,
                },
            ),
        ),
        bits@.len() <= domain_len(params.k as nat) ==> r is Ok,
        r matches Ok(c) ==> c.wf() && c.enc@ == commit_spec(
            g1_encs(params.lagranges@),
            bits@,
            domain_len(params.k as nat),
        ),
{
    let n = domain_size(params.k);
    if bits.len() > n {
        return Err(LotError::Configuration(ConfigError::TooManyBits { capacity: n, got: bits.len() }));
    }
    let evals = choice_evals(bits, n);
    Ok(msm(&params.lagranges, &evals))
}

/// The choices as field elements, zero-padded to `n`.
fn choice_evals(bits: &[Choice], n: usize) -> (r: Vec<Scalar>)
    requires
        bits@.len() <= n,
    ensures
        r@.len() == n,
        all_wf(r@),
        scalar_vals(r@) == choice_vals(padded(bits@, n as nat)),
{
    let mut evals: Vec<Scalar> = Vec::new();
    let mut i: usize = 0;
    while i < n
        invariant
            i <= n,
            bits@.len() <= n,
            evals@.len() == i,
            all_wf(evals@),
            forall|j: int|
                0 <= j < i ==> (#[trigger] evals@[j]).val() == padded(bits@, n as nat)[j].bit(),
        decreases n - i,
    {
        let e = if i < bits.len() {
            bits[i].to_fr()
        } else {
            Scalar::zero()
        };
        evals.push(e);
        i = i + 1;
    }
    assert(scalar_vals(evals@) =~= choice_vals(padded(bits@, n as nat)));
    evals
}

/// The holder of the choice bits, with its commitment and every opening.
#[derive(Clone, Debug)]
pub struct LaconicOTRecv {
    backend: KZGType,
    k: u32,
    /// The choices, padded with `Zero` to the domain size; never sent.
    bits: Vec<Choice>,
    /// The opening at every point of the domain; never sent.
    openings: Vec<G1Elem>,
    com: G1Elem,
    certificate: Vec<u8>,
}

impl LaconicOTRecv {
    pub closed spec fn kind(&self) -> KZGType {
        self.backend
    }

    /// The number of indices, the domain size.
    pub closed spec fn size(&self) -> nat {
        self.bits@.len()
    }

    pub closed spec fn choice_at(&self, i: int) -> Choice {
        self.bits@[i]
    }

    pub closed spec fn opening_at(&self, i: int) -> Seq<u8> {
        self.openings@[i].enc@
    }

    pub closed spec fn com_view(&self) -> Seq<u8> {
        self.com.enc@
    }

    pub closed spec fn certificate_view(&self) -> Seq<u8> {
        self.certificate@
    }

    pub closed spec fn wf(&self) -> bool {
        &&& self.k <= MAX_LOG_SIZE
        &&& self.bits@.len() == domain_len(self.k as nat)
        &&& self.openings@.len() == domain_len(self.k as nat)
        &&& all_g1_ok(self.openings@)
        &&& self.com.wf()
    }

    /// The log-size of the receiver's domain.
    pub closed spec fn log_size(&self) -> u32 {
        self.k
    }

    /// What the receiver built from `params` and `bits` holds: its backend and
    /// domain are those of `params`, its choices are `bits` padded with `Zero`,
    /// its commitment is the Lagrange commitment to them, and its openings are
    /// the batch openings of their values.
    pub open spec fn built_from(&self, params: &CommitmentKey, bits: Seq<Choice>) -> bool {
        let n = domain_len(params.k as nat);
        let fk = fk_openings(params.k as nat, g1_encs(params.y@), choice_vals(padded(bits, n)));
        &&& self.wf()
        &&& self.kind() == params.backend
        &&& self.log_size() == params.k
        &&& self.size() == n
        &&& self.com_view() == commit_spec(g1_encs(params.lagranges@), bits, n)
        &&& forall|i: int| 0 <= i < n ==> #[trigger] self.choice_at(i) == padded(bits, n)[i]
        &&& forall|i: int| 0 <= i < n ==> #[trigger] self.opening_at(i) == fk[i]
    }

    fn build(params: &CommitmentKey, bits: &[Choice], certificate: Vec<u8>) -> (r: Result<LaconicOTRecv, LotError>)
        requires
            params.wf(),
        ensures
            bits@.len() > domain_len(params.k as nat) ==> r == Err::<LaconicOTRecv, LotError>(
                LotError::Configuration(
                    ConfigError::TooManyBits {
                        capacity: domain_len(params.k as nat) as usize,
                        got: bits@.len() as usize,
                    },
                ),
            ),
            bits@.len() <= domain_len(params.k as nat) ==> (r matches Ok(rc) && rc.built_from(
                params,
                bits@,
            ) && rc.certificate_view() == certificate@),
    {
        let n = domain_size(params.k);
        if bits.len() > n {
            return Err(LotError::Configuration(ConfigError::TooManyBits { capacity: n, got: bits.len() }));
        }
        let evals = choice_evals(bits, n);
        let com = msm(&params.lagranges, &evals);
        let opened = all_openings_fk(&params.y, params.k, &evals);
        match opened {
            Ok(openings) => {
                let mut padded_bits: Vec<Choice> = Vec::new();
                let mut i: usize = 0;
                while i < n
                    invariant
                        i <= n,
                        bits@.len() <= n,
                        padded_bits@.len() == i,
                        forall|j: int|
                            0 <= j < i ==> (#[trigger] padded_bits@[j]) == padded(bits@, n as nat)[j],
                    decreases n - i,
                {
                    let c = if i < bits.len() {
                        bits[i]
                    } else {
                        Choice::Zero
                    };
                    padded_bits.push(c);
                    i = i + 1;
                }
                assert(padded_bits@ =~= padded(bits@, n as nat));
                let rc = LaconicOTRecv {
                    backend: params.backend,
                    k: params.k,
                    bits: padded_bits,
                    openings,
                    com,
                    certificate,
                };
                assert forall|i: int| 0 <= i < n implies #[trigger] rc.opening_at(i) == fk_openings(
                    params.k as nat,
                    g1_encs(params.y@),
                    choice_vals(padded(bits@, n as nat)),
                )[i] by {
                    assert(g1_encs(rc.openings@)[i] == rc.openings@[i].enc@);
                }
                Ok(rc)
            },
            Err(e) => Err(e),
        }
    }

    /// A receiver of the plain backend for `bits`.
    pub fn new(params: &CommitmentKey, bits: &[Choice]) -> (r: Result<LaconicOTRecv, LotError>)
        requires
            params.wf(),
        ensures
            params.backend != KZGType::Plain ==> r == Err::<LaconicOTRecv, LotError>(
                LotError::Configuration(ConfigError::BackendMismatch),
            ),
            params.backend == KZGType::Plain && bits@.len() > domain_len(params.k as nat) ==> r
                == Err::<LaconicOTRecv, LotError>(
                LotError::Configuration(
                    ConfigError::TooManyBits {
                        capacity: domain_len(params.k as nat) as usize,
                        got: bits@.len() as usize,
                    },
                ),
            ),
            params.backend == KZGType::Plain && bits@.len() <= domain_len(params.k as nat) ==> (r matches Ok(
                rc,
            ) && rc.built_from(params, bits@) && rc.wf() && rc.kind() == params.backend && rc.size()
                == domain_len(params.k as nat) && rc.certificate_view().len() == 0),
    {
        if params.backend != KZGType::Plain {
            return Err(LotError::Configuration(ConfigError::BackendMismatch));
        }
        LaconicOTRecv::build(params, bits, Vec::new())
    }

    /// A receiver of the certified backend for `bits`, carrying the certificate
    /// that the proving system produced for them.
    pub fn new_halo2(params: &CommitmentKey, bits: &[Choice], certificate: Vec<u8>) -> (r: Result<
        LaconicOTRecv,
        LotError,
    >)
        requires
            params.wf(),
        ensures
            params.backend != KZGType::Halo2 ==> r == Err::<LaconicOTRecv, LotError>(
                LotError::Configuration(ConfigError::BackendMismatch),
            ),
            params.backend == KZGType::Halo2 && bits@.len() > domain_len(params.k as nat) ==> r
                == Err::<LaconicOTRecv, LotError>(
                LotError::Configuration(
                    ConfigError::TooManyBits {
                        capacity: domain_len(params.k as nat) as usize,
                        got: bits@.len() as usize,
                    },
                ),
            ),
            params.backend == KZGType::Halo2 && bits@.len() <= domain_len(params.k as nat) ==> (r matches Ok(
                rc,
            ) && rc.built_from(params, bits@) && rc.wf() && rc.kind() == params.backend && rc.size()
                == domain_len(params.k as nat) && rc.certificate_view() == certificate@),
    {
        if params.backend != KZGType::Halo2 {
            return Err(LotError::Configuration(ConfigError::BackendMismatch));
        }
        LaconicOTRecv::build(params, bits, certificate)
    }

    /// The commitment, the one message sent before any transfer.
    pub fn commitment(&self) -> (c: TrinityCom)
        ensures
            c.backend == self.kind(),
            c.point.enc@ == self.com_view(),
            c.certificate@ == self.certificate_view(),
            self.wf() ==> c.point.wf(),
    {
        let mut cert: Vec<u8> = Vec::new();
        let mut i: usize = 0;
        while i < self.certificate.len()
            invariant
                i <= self.certificate@.len(),
                cert@ == self.certificate@.subrange(0, i as int),
            decreases self.certificate@.len() - i,
        {
            cert.push(self.certificate[i]);
            i = i + 1;
            assert(cert@ =~= self.certificate@.subrange(0, i as int));
        }
        assert(cert@ =~= self.certificate@);
        TrinityCom { backend: self.backend, point: self.com.duplicate(), certificate: cert }
    }

    /// Unmasks the message of index `i` that the choice bit `i` selects.
    pub fn recv(&self, i: usize, msg: &Msg) -> (r: Result<[u8; MSG_SIZE], LotError>)
        requires
            self.wf(),
            msg.wf(),
        ensures
            i >= self.size() ==> r == Err::<[u8; MSG_SIZE], LotError>(
                LotError::Usage { index: i, size: self.size() as usize },
            ),
            i < self.size() && msg.backend != self.kind() ==> r == Err::<
                [u8; MSG_SIZE],
                LotError,
            >(LotError::Configuration(ConfigError::BackendMismatch)),
            i < self.size() && msg.backend == self.kind() ==> (r matches Ok(m) && m@ == recv_spec(
                self.opening_at(i as int),
                self.choice_at(i as int),
                msg,
            )),
    {
        if i >= self.bits.len() {
            return Err(LotError::Usage { index: i, size: self.bits.len() });
        }
        if msg.backend != self.backend {
            return Err(LotError::Configuration(ConfigError::BackendMismatch));
        }
        assert(self.openings@[i as int].wf());
        let q = &self.openings[i];
        let out = match self.bits[i] {
            Choice::Zero => {
                let pad = pairing(q, &msg.h0);
                decrypt(&pad, &msg.c0)
            },
            Choice::One => {
                let pad = pairing(q, &msg.h1);
                decrypt(&pad, &msg.c1)
            },
        };
        Ok(out)
    }
}

/// What the receiver recovers from `msg` with opening `q` and choice `b`.
pub open spec fn recv_spec(q: Seq<u8>, b: Choice, msg: &Msg) -> Seq<u8> {
    match b {
        Choice::Zero => xor16(keystream16(pairing_bytes(q, msg.h0.enc@)), msg.c0@),
        Choice::One => xor16(keystream16(pairing_bytes(q, msg.h1.enc@)), msg.c1@),
    }
}

/// `(s g2 - x g2) r`: the label of a branch masked with randomizer `r` at the point `x`.
pub open spec fn label_spec(g2: Seq<u8>, s_g2: Seq<u8>, x: nat, r: nat) -> Seq<u8> {
    g2_scale(g2_sub(s_g2, g2_scale(g2, x)), r)
}

/// The pad of branch 0: the pairing of `com r0` with `g2`.
pub open spec fn pad0_spec(com: Seq<u8>, g2: Seq<u8>, r0: nat) -> Seq<u8> {
    pairing_bytes(g1_scale(com, r0), g2)
}

/// The pad of branch 1: the pairing of `(com - g1) r1` with `g2`.
pub open spec fn pad1_spec(com: Seq<u8>, g1: Seq<u8>, g2: Seq<u8>, r1: nat) -> Seq<u8> {
    pairing_bytes(g1_scale(g1_sub(com, g1), r1), g2)
}

/// The holder of the messages, with the receiver's commitment.
#[derive(Clone, Debug)]
pub struct LaconicOTSender {
    pub backend: KZGType,
    pub k: u32,
    pub g1: G1Elem,
    pub g2: G2Elem,
    pub s_g2: G2Elem,
    pub com: G1Elem,
}

impl LaconicOTSender {
    pub open spec fn wf(&self) -> bool {
        &&& self.k <= MAX_LOG_SIZE
        &&& self.g1.wf()
        &&& self.g2.wf()
        &&& self.s_g2.wf()
        &&& self.com.wf()
    }

    /// A sender for the commitment `com`. For the certified backend,
    /// `certificate_accepted` is the proving system's verdict on the
    /// commitment's certificate.
    pub fn new(params: &LaconicParams, com: &TrinityCom, certificate_accepted: bool) -> (r: Result<
        LaconicOTSender,
        LotError,
    >)
        requires
            params.wf(),
            com.point.wf(),
        ensures
            params.backend != com.backend ==> r == Err::<LaconicOTSender, LotError>(
                LotError::Configuration(ConfigError::BackendMismatch),
            ),
            params.backend == com.backend && com.backend == KZGType::Halo2
                && !certificate_accepted ==> r == Err::<LaconicOTSender, LotError>(
                LotError::VerificationFailure,
            ),
            params.backend == com.backend && (com.backend == KZGType::Plain || certificate_accepted)
                ==> (r matches Ok(s) && {
                &&& s.wf()
                &&& s.backend == params.backend
                &&& s.k == params.k
                &&& s.g1.enc@ == params.g0.enc@
                &&& s.g2.enc@ == params.g2.enc@
                &&& s.s_g2.enc@ == params.s_g2.enc@
                &&& s.com.enc@ == com.point.enc@
            }),
    {
        if params.backend != com.backend {
            return Err(LotError::Configuration(ConfigError::BackendMismatch));
        }
        if com.backend == KZGType::Halo2 && !certificate_accepted {
            return Err(LotError::VerificationFailure);
        }
        Ok(LaconicOTSender {
            backend: params.backend,
            k: params.k,
            g1: params.g0.duplicate(),
            g2: params.g2.duplicate(),
            s_g2: params.s_g2.duplicate(),
            com: com.point.duplicate(),
        })
    }

    /// Masks `m0` and `m1` for index `i` with the randomizers `r0` and `r1`.
    pub fn send_with(&self, i: usize, m0: &[u8; MSG_SIZE], m1: &[u8; MSG_SIZE], r0: &Scalar, r1: &Scalar) -> (r: Result<Msg, LotError>)
        requires
            self.wf(),
            r0.wf(),
            r1.wf(),
        ensures
            i >= domain_len(self.k as nat) ==> r == Err::<Msg, LotError>(
                LotError::Usage { index: i, size: domain_len(self.k as nat) as usize },
            ),
            i < domain_len(self.k as nat) ==> (r matches Ok(msg) && {
                let x = domain_elem(self.k as nat, i as nat);
                &&& msg.wf()
                &&& msg.backend == self.backend
                &&& msg.h0.enc@ == label_spec(self.g2.enc@, self.s_g2.enc@, x, r0.val())
                &&& msg.h1.enc@ == label_spec(self.g2.enc@, self.s_g2.enc@, x, r1.val())
                &&& msg.c0@ == xor16(keystream16(pad0_spec(self.com.enc@, self.g2.enc@, r0.val())), m0@)
                &&& msg.c1@ == xor16(
                    keystream16(pad1_spec(self.com.enc@, self.g1.enc@, self.g2.enc@, r1.val())),
                    m1@,
                )
            }),
    {
        let n = domain_size(self.k);
        if i >= n {
            return Err(LotError::Usage { index: i, size: n });
        }
        let x = domain_element(self.k, i);
        let l0 = g1_mul(&self.com, r0);
        let diff = g1_minus(&self.com, &self.g1);
        let l1 = g1_mul(&diff, r1);
        let pad0 = pairing(&l0, &self.g2);
        let pad1 = pairing(&l1, &self.g2);
        let xg2 = g2_mul(&self.g2, &x);
        let cm = g2_minus(&self.s_g2, &xg2);
        let h0 = g2_mul(&cm, r0);
        let h1 = g2_mul(&cm, r1);
        let c0 = encrypt(&pad0, m0);
        let c1 = encrypt(&pad1, m1);
        Ok(Msg { backend: self.backend, h0, c0, h1, c1 })
    }

    /// Masks `m0` and `m1` for index `i` with fresh randomizers.
    pub fn send(&self, i: usize, m0: &[u8; MSG_SIZE], m1: &[u8; MSG_SIZE]) -> (r: Result<Msg, LotError>)
        requires
            self.wf(),
        ensures
            i >= domain_len(self.k as nat) ==> r == Err::<Msg, LotError>(
                LotError::Usage { index: i, size: domain_len(self.k as nat) as usize },
            ),
            i < domain_len(self.k as nat) ==> (r matches Ok(msg) && {
                let x = domain_elem(self.k as nat, i as nat);
                exists|r0: nat, r1: nat|
                    {
                        &&& msg.wf()
                        &&& msg.backend == self.backend
                        &&& msg.h0.enc@ == label_spec(self.g2.enc@, self.s_g2.enc@, x, r0)
                        &&& msg.h1.enc@ == label_spec(self.g2.enc@, self.s_g2.enc@, x, r1)
                        &&& msg.c0@ == xor16(keystream16(pad0_spec(self.com.enc@, self.g2.enc@, r0)), m0@)
                        &&& msg.c1@ == xor16(
                            keystream16(pad1_spec(self.com.enc@, self.g1.enc@, self.g2.enc@, r1)),
                            m1@,
                        )
                    }
            }),
    {
        let r0 = random_scalar();
        let r1 = random_scalar();
        self.send_with(i, m0, m1, &r0, &r1)
    }
}

/// Committing is a function of the parameters and the bits alone: two
/// commitments to the same bits under the same parameters are equal.
pub proof fn lemma_commit_deterministic(params: &CommitmentKey, bits: Seq<Choice>, a: Seq<u8>, b: Seq<u8>)
    requires
        params.wf(),
        a == commit_spec(g1_encs(params.lagranges@), bits, domain_len(params.k as nat)),
        b == commit_spec(g1_encs(params.lagranges@), bits, domain_len(params.k as nat)),
    ensures
        a == b,
{
}

/// Commitments carry no blinding: two receivers built from the same parameters
/// and bits hold the same commitment and the same openings.
pub proof fn lemma_receivers_agree(
    params: &CommitmentKey,
    bits: Seq<Choice>,
    a: &LaconicOTRecv,
    b: &LaconicOTRecv,
)
    requires
        params.wf(),
        a.built_from(params, bits),
        b.built_from(params, bits),
    ensures
        a.com_view() == b.com_view(),
        a.size() == b.size(),
        forall|i: int| 0 <= i < a.size() ==> #[trigger] a.opening_at(i) == b.opening_at(i) && a.choice_at(i) == b.choice_at(i),
{
}

/// The two backends commit alike: parameters that differ only in their backend
/// give receivers with the same commitment, openings and padded bits.
pub proof fn lemma_backends_commit_alike(
    plain: &CommitmentKey,
    certified: &CommitmentKey,
    bits: Seq<Choice>,
    a: &LaconicOTRecv,
    b: &LaconicOTRecv,
)
    requires
        plain.wf(),
        certified.wf(),
        plain.k == certified.k,
        g1_encs(plain.lagranges@) == g1_encs(certified.lagranges@),
        g1_encs(plain.y@) == g1_encs(certified.y@),
        a.built_from(plain, bits),
        b.built_from(certified, bits),
    ensures
        a.com_view() == b.com_view(),
        a.size() == b.size(),
        forall|i: int| 0 <= i < a.size() ==> #[trigger] a.opening_at(i) == b.opening_at(i) && a.choice_at(i) == b.choice_at(i),
{
}

/// The unmasking step of a transfer: when the pairing of the receiver's opening
/// with the label of the chosen branch equals the sender's pad of that branch
/// (the KZG verification identity, which is not proved here), the receiver
/// recovers exactly the chosen message.
pub proof fn lemma_transfer_unmasks_chosen(
    q: Seq<u8>,
    b: Choice,
    msg: &Msg,
    com: Seq<u8>,
    g1: Seq<u8>,
    g2: Seq<u8>,
    s_g2: Seq<u8>,
    x: nat,
    r0: nat,
    r1: nat,
    m0: Seq<u8>,
    m1: Seq<u8>,
)
    requires
        m0.len() == MSG_SIZE,
        m1.len() == MSG_SIZE,
        msg.h0.enc@ == label_spec(g2, s_g2, x, r0),
        msg.h1.enc@ == label_spec(g2, s_g2, x, r1),
        msg.c0@ == xor16(keystream16(pad0_spec(com, g2, r0)), m0),
        msg.c1@ == xor16(keystream16(pad1_spec(com, g1, g2, r1)), m1),
        b == Choice::Zero ==> pairing_bytes(q, label_spec(g2, s_g2, x, r0)) == pad0_spec(com, g2, r0),
        b == Choice::One ==> pairing_bytes(q, label_spec(g2, s_g2, x, r1)) == pad1_spec(
            com,
            g1,
            g2,
            r1,
        ),
    ensures
        recv_spec(q, b, msg) == (if b == Choice::Zero { m0 } else { m1 }),
{
    match b {
        Choice::Zero => lemma_unmask_masked(keystream16(pad0_spec(com, g2, r0)), m0),
        Choice::One => lemma_unmask_masked(keystream16(pad1_spec(com, g1, g2, r1)), m1),
    }
}

/// A transfer at index `i` between a receiver built from `params` and `bits`
/// and a message masked as `send_with` masks it: when the pairing of the
/// receiver's opening `i` with the label of the branch its bit selects equals
/// that branch's pad (the KZG verification identity, which is not proved here),
/// the receiver recovers `m1` if bit `i` is `One` and `m0` otherwise, bits past
/// the end counting as `Zero`.
pub proof fn lemma_transfer_delivers_chosen(
    params: &CommitmentKey,
    bits: Seq<Choice>,
    rc: &LaconicOTRecv,
    i: int,
    msg: &Msg,
    com: Seq<u8>,
    g1: Seq<u8>,
    g2: Seq<u8>,
    s_g2: Seq<u8>,
    r0: nat,
    r1: nat,
    m0: Seq<u8>,
    m1: Seq<u8>,
)
    requires
        params.wf(),
        rc.built_from(params, bits),
        0 <= i < rc.size(),
        m0.len() == MSG_SIZE,
        m1.len() == MSG_SIZE,
        msg.h0.enc@ == label_spec(g2, s_g2, domain_elem(params.k as nat, i as nat), r0),
        msg.h1.enc@ == label_spec(g2, s_g2, domain_elem(params.k as nat, i as nat), r1),
        msg.c0@ == xor16(keystream16(pad0_spec(com, g2, r0)), m0),
        msg.c1@ == xor16(keystream16(pad1_spec(com, g1, g2, r1)), m1),
        rc.choice_at(i) == Choice::Zero ==> pairing_bytes(
            rc.opening_at(i),
            label_spec(g2, s_g2, domain_elem(params.k as nat, i as nat), r0),
        ) == pad0_spec(com, g2, r0),
        rc.choice_at(i) == Choice::One ==> pairing_bytes(
            rc.opening_at(i),
            label_spec(g2, s_g2, domain_elem(params.k as nat, i as nat), r1),
        ) == pad1_spec(com, g1, g2, r1),
    ensures
        recv_spec(rc.opening_at(i), rc.choice_at(i), msg) == (if i < bits.len() && bits[i]
            == Choice::One {
            m1
        } else {
            m0
        }),
{
    let n = domain_len(params.k as nat);
    assert(rc.choice_at(i) == padded(bits, n)[i]);
    lemma_transfer_unmasks_chosen(
        rc.opening_at(i),
        rc.choice_at(i),
        msg,
        com,
        g1,
        g2,
        s_g2,
        domain_elem(params.k as nat, i as nat),
        r0,
        r1,
        m0,
        m1,
    );
}

} // verus!
