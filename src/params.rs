//! The structured reference string: powers of a secret in G1, its Lagrange-basis
//! form, the table of batch openings, and the G2 elements a sender needs.

use vstd::prelude::*;
use crate::domain::{MAX_LOG_SIZE, domain_len, domain_size, g1_ifft, g1_ifft_of};
use crate::error::{ConfigError, LotError};
use crate::field::{Scalar, fr_mul, pow_mod, random_scalar};
use crate::fk::{precompute_y, precomputed_y};
use crate::group::{
    G1Elem, G2Elem, all_g1_ok, g1_encs, g1_generator, g1_mul, g1_scale, g2_generator, g2_mul,
    g2_scale,
};

verus! {

/// Which commitment backend a set of parameters, a commitment or a message belongs to.
#[derive(Clone, Copy, Debug, PartialEq, Eq, Structural)]
pub enum KZGType {
    /// Commitments computed directly from the polynomial.
    Plain,
    /// Circuit-certified: commitments that come with a zero-knowledge certificate
    /// that every committed value is a bit.
    Halo2,
}

/// `g1 * tau^i` for `i < n`.
pub open spec fn srs_powers(g1: Seq<u8>, tau: nat, n: nat) -> Seq<Seq<u8>> {
    Seq::new(n, |i: int| g1_scale(g1, pow_mod(tau, i as nat)))
}

/// Full parameters: what a receiver needs.
#[derive(Clone, Debug)]
pub struct CommitmentKey {
    pub backend: KZGType,
    /// The domain has `2^k` points.
    pub k: u32,
    /// `g1 * s^i` for `i < 2^k`.
    pub powers: Vec<G1Elem>,
    /// The same powers in the Lagrange basis of the domain.
    pub lagranges: Vec<G1Elem>,
    /// The table of batch openings.
    pub y: Vec<G1Elem>,
    pub g2: G2Elem,
    /// `g2 * s`.
    pub s_g2: G2Elem,
}

/// What a sender needs.
#[derive(Clone, Debug)]
pub struct LaconicParams {
    pub backend: KZGType,
    pub k: u32,
    pub g0: G1Elem,
    pub g2: G2Elem,
    pub s_g2: G2Elem,
}

impl CommitmentKey {
    /// Sizes agree with the domain, every point is valid, and the Lagrange form
    /// and the table are those of the powers.
    pub open spec fn wf(&self) -> bool {
        &&& self.k <= MAX_LOG_SIZE
        &&& self.powers@.len() == domain_len(self.k as nat)
        &&& all_g1_ok(self.powers@)
        &&& self.lagranges@.len() == domain_len(self.k as nat)
        &&& all_g1_ok(self.lagranges@)
        &&& g1_encs(self.lagranges@) == g1_ifft_of(self.k as nat, g1_encs(self.powers@))
        &&& self.y@.len() == 2 * domain_len(self.k as nat)
        &&& all_g1_ok(self.y@)
        &&& g1_encs(self.y@) == precomputed_y(self.k as nat, g1_encs(self.powers@))
        &&& self.g2.wf()
        &&& self.s_g2.wf()
    }

    /// Completes parameters from the powers and the G2 elements.
    pub fn from_parts(backend: KZGType, k: u32, powers: Vec<G1Elem>, g2: G2Elem, s_g2: G2Elem) -> (p: CommitmentKey)
        requires
            k <= MAX_LOG_SIZE,
            powers@.len() == domain_len(k as nat),
            all_g1_ok(powers@),
            g2.wf(),
            s_g2.wf(),
        ensures
            p.wf(),
            p.backend == backend,
            p.k == k,
            g1_encs(p.powers@) == g1_encs(powers@),
            p.g2.enc@ == g2.enc@,
            p.s_g2.enc@ == s_g2.enc@,
    {
        proof {
            crate::domain::lemma_domain_len_bound(k as nat);
        }
        let lagranges = g1_ifft(k, &powers);
        let y = precompute_y(&powers, k);
        CommitmentKey { backend, k, powers, lagranges, y, g2, s_g2 }
    }

    /// Parameters for the secret `tau` over the generators `g1` and `g2`.
    pub fn from_secret(backend: KZGType, k: u32, tau: &Scalar, g1: &G1Elem, g2: &G2Elem) -> (r: Result<CommitmentKey, LotError>)
        requires
            tau.wf(),
            g1.wf(),
            g2.wf(),
        ensures
            k > MAX_LOG_SIZE <==> r == Err::<CommitmentKey, LotError>(
                LotError::Configuration(ConfigError::DomainTooLarge { k }),
            ),
            k <= MAX_LOG_SIZE ==> r is Ok,
            r matches Ok(p) ==> {
                &&& p.wf()
                &&& p.backend == backend
                &&& p.k == k
                &&& g1_encs(p.powers@) == srs_powers(g1.enc@, tau.val(), domain_len(k as nat))
                &&& p.g2.enc@ == g2.enc@
                &&& p.s_g2.enc@ == g2_scale(g2.enc@, tau.val())
            },
    {
        if k > MAX_LOG_SIZE {
            return Err(LotError::Configuration(ConfigError::DomainTooLarge { k }));
        }
        let n = domain_size(k);
        let mut powers: Vec<G1Elem> = Vec::new();
        let mut cur = Scalar::one();
        let mut i: usize = 0;
        while i < n
            invariant
                i <= n,
                tau.wf(),
                g1.wf(),
                cur.wf(),
                cur.val() == pow_mod(tau.val(), i as nat),
                powers@.len() == i,
                all_g1_ok(powers@),
                forall|j: int|
                    0 <= j < i ==> (#[trigger] powers@[j]).enc@ == g1_scale(
                        g1.enc@,
                        pow_mod(tau.val(), j as nat),
                    ),
            decreases n - i,
        {
            let p = g1_mul(g1, &cur);
            powers.push(p);
            let next = fr_mul(tau, &cur);
            cur = next;
            i = i + 1;
        }
        assert(g1_encs(powers@) =~= srs_powers(g1.enc@, tau.val(), n as nat));
        let s_g2 = g2_mul(g2, tau);
        let g2c = g2.duplicate();
        Ok(CommitmentKey::from_parts(backend, k, powers, g2c, s_g2))
    }

    /// Parameters for the secret `tau` over the curve's standard generators.
    /// Whoever knows `tau` can open commitments to anything: this is for
    /// reproducible fixtures, and `setup` is for use.
    pub fn setup_with_secret(backend: KZGType, k: u32, tau: &Scalar) -> (r: Result<CommitmentKey, LotError>)
        requires
            tau.wf(),
        ensures
            k > MAX_LOG_SIZE <==> r == Err::<CommitmentKey, LotError>(
                LotError::Configuration(ConfigError::DomainTooLarge { k }),
            ),
            k <= MAX_LOG_SIZE ==> r is Ok,
            r matches Ok(p) ==> {
                &&& p.wf()
                &&& p.backend == backend
                &&& p.k == k
                &&& exists|g1: Seq<u8>, g2: Seq<u8>|
                    {
                        &&& g1_encs(p.powers@) == srs_powers(g1, tau.val(), domain_len(k as nat))
                        &&& p.g2.enc@ == g2
                        &&& p.s_g2.enc@ == g2_scale(g2, tau.val())
                    }
            },
    {
        let g1 = g1_generator();
        let g2 = g2_generator();
        CommitmentKey::from_secret(backend, k, tau, &g1, &g2)
    }

    /// Fresh parameters for a domain of `2^k` points; the secret is drawn at
    /// random and dropped.
    pub fn setup(backend: KZGType, k: u32) -> (r: Result<CommitmentKey, LotError>)
        ensures
            k > MAX_LOG_SIZE <==> r == Err::<CommitmentKey, LotError>(
                LotError::Configuration(ConfigError::DomainTooLarge { k }),
            ),
            k <= MAX_LOG_SIZE ==> r is Ok,
            r matches Ok(p) ==> p.wf() && p.backend == backend && p.k == k,
    {
        let tau = random_scalar();
        CommitmentKey::setup_with_secret(backend, k, &tau)
    }

    /// The part of the parameters a sender needs.
    pub fn to_sender_params(&self) -> (s: LaconicParams)
        requires
            self.wf(),
        ensures
            s.wf(),
            s.backend == self.backend,
            s.k == self.k,
            s.g0.enc@ == self.powers@[0].enc@,
            s.g2.enc@ == self.g2.enc@,
            s.s_g2.enc@ == self.s_g2.enc@,
    {
        proof {
            crate::domain::lemma_domain_len_bound(self.k as nat);
        }
        assert(self.powers@[0].wf());
        LaconicParams {
            backend: self.backend,
            k: self.k,
            g0: self.powers[0].duplicate(),
            g2: self.g2.duplicate(),
            s_g2: self.s_g2.duplicate(),
        }
    }
}

impl LaconicParams {
    pub open spec fn wf(&self) -> bool {
        &&& self.k <= MAX_LOG_SIZE
        &&& self.g0.wf()
        &&& self.g2.wf()
        &&& self.s_g2.wf()
    }
}

} // verus!
