//! Evaluation domains of size `2^k` over the scalar field and the transforms
//! between coefficient and evaluation form over them.

use ark_ec::CurveGroup;
use ark_ff::PrimeField;
use ark_poly::EvaluationDomain;
use ark_serialize::{CanonicalDeserialize, CanonicalSerialize};
use vstd::prelude::*;
use crate::field::{Scalar, all_wf, scalar_vals};
use crate::group::{G1Elem, g1_encs, all_g1_ok};

verus! {

/// Largest `k` for which a domain of size `2^k` has its doubled domain inside the
/// scalar field's two-adic subgroup (of order `2^28`).
pub const MAX_LOG_SIZE: u32 = 27;

/// `2^k`.
pub open spec fn domain_len(k: nat) -> nat
    decreases k,
{
    if k == 0 {
        1
    } else {
        2 * domain_len((k - 1) as nat)
    }
}

proof fn lemma_domain_len_mono(i: nat, j: nat)
    requires
        i <= j,
    ensures
        1 <= domain_len(i) <= domain_len(j),
    decreases j - i,
{
    if i < j {
        lemma_domain_len_mono(i, (j - 1) as nat);
    } else {
        lemma_domain_len_pos(i);
    }
}

proof fn lemma_domain_len_pos(i: nat)
    ensures
        domain_len(i) >= 1,
    decreases i,
{
    if i > 0 {
        lemma_domain_len_pos((i - 1) as nat);
    }
}

pub(crate) proof fn lemma_domain_len_bound(k: nat)
    requires
        k <= 28,
    ensures
        1 <= domain_len(k) <= 268435456,
{
    lemma_domain_len_mono(k, 28);
    reveal_with_fuel(domain_len, 29);
}

/// The size `2^k` of the domain of log-size `k`.
pub fn domain_size(k: u32) -> (n: usize)
    requires
        k <= MAX_LOG_SIZE + 1,
    ensures
        n == domain_len(k as nat),
        1 <= n <= 268435456,
{
    let mut n: usize = 1;
    let mut i: u32 = 0;
    while i < k
        invariant
            i <= k,
            k <= 28,
            n == domain_len(i as nat),
        decreases k - i,
    {
        proof {
            lemma_domain_len_bound(i as nat);
        }
        n = n * 2;
        i = i + 1;
    }
    proof {
        lemma_domain_len_bound(k as nat);
    }
    n
}

/// Forward transform (coefficients to evaluations) over the domain of log-size `k`.
pub uninterp spec fn fr_fft_of(k: nat, v: Seq<nat>) -> Seq<nat>;

/// Inverse transform (evaluations to coefficients) over the domain of log-size `k`.
pub uninterp spec fn fr_ifft_of(k: nat, v: Seq<nat>) -> Seq<nat>;

/// Forward transform of a vector of G1 encodings over the domain of log-size `k`.
pub uninterp spec fn g1_fft_of(k: nat, v: Seq<Seq<u8>>) -> Seq<Seq<u8>>;

/// Inverse transform of a vector of G1 encodings over the domain of log-size `k`.
pub uninterp spec fn g1_ifft_of(k: nat, v: Seq<Seq<u8>>) -> Seq<Seq<u8>>;

/// The value of the `i`-th point `w^i` of the domain of log-size `k`.
pub uninterp spec fn domain_elem(k: nat, i: nat) -> nat;

/// Relies on ark_poly's Radix2EvaluationDomain::fft, which pads its input with
/// zeros to the domain size.
#[verifier::external_body]
pub(crate) fn fr_fft(k: u32, v: &Vec<Scalar>) -> (r: Vec<Scalar>)
    requires
        k <= MAX_LOG_SIZE + 1,
        v@.len() <= domain_len(k as nat),
        all_wf(v@),
    ensures
        r@.len() == domain_len(k as nat),
        all_wf(r@),
        scalar_vals(r@) == fr_fft_of(k as nat, scalar_vals(v@)),
{
    let d = ark_poly::Radix2EvaluationDomain::<ark_bn254::Fr>::new(1usize << k).unwrap();
    let x: Vec<ark_bn254::Fr> =
        v.iter().map(|s| ark_bn254::Fr::from_bigint(ark_ff::BigInt(s.limbs)).unwrap()).collect();
    d.fft(&x).iter().map(|e| Scalar { limbs: e.into_bigint().0 }).collect()
}

/// Relies on ark_poly's Radix2EvaluationDomain::ifft, which pads its input with
/// zeros to the domain size.
#[verifier::external_body]
pub(crate) fn fr_ifft(k: u32, v: &Vec<Scalar>) -> (r: Vec<Scalar>)
    requires
        k <= MAX_LOG_SIZE + 1,
        v@.len() <= domain_len(k as nat),
        all_wf(v@),
    ensures
        r@.len() == domain_len(k as nat),
        all_wf(r@),
        scalar_vals(r@) == fr_ifft_of(k as nat, scalar_vals(v@)),
{
    let d = ark_poly::Radix2EvaluationDomain::<ark_bn254::Fr>::new(1usize << k).unwrap();
    let x: Vec<ark_bn254::Fr> =
        v.iter().map(|s| ark_bn254::Fr::from_bigint(ark_ff::BigInt(s.limbs)).unwrap()).collect();
    d.ifft(&x).iter().map(|e| Scalar { limbs: e.into_bigint().0 }).collect()
}

/// Relies on ark_poly's Radix2EvaluationDomain::fft over G1 points, which pads
/// its input with the identity to the domain size.
#[verifier::external_body]
pub(crate) fn g1_fft(k: u32, v: &Vec<G1Elem>) -> (r: Vec<G1Elem>)
    requires
        k <= MAX_LOG_SIZE + 1,
        v@.len() <= domain_len(k as nat),
        all_g1_ok(v@),
    ensures
        r@.len() == domain_len(k as nat),
        all_g1_ok(r@),
        g1_encs(r@) == g1_fft_of(k as nat, g1_encs(v@)),
{
    let d = ark_poly::Radix2EvaluationDomain::<ark_bn254::Fr>::new(1usize << k).unwrap();
    let x: Vec<ark_bn254::G1Projective> = v.iter()
        .map(|p| ark_bn254::G1Affine::deserialize_compressed(&p.enc[..]).unwrap().into()).collect();
    ark_bn254::G1Projective::normalize_batch(&d.fft(&x)).iter().map(|a| {
        let mut enc = Vec::new();
        a.serialize_compressed(&mut enc).unwrap();
        G1Elem { enc }
    }).collect()
}

/// Relies on ark_poly's Radix2EvaluationDomain::ifft over G1 points, which pads
/// its input with the identity to the domain size.
#[verifier::external_body]
pub(crate) fn g1_ifft(k: u32, v: &Vec<G1Elem>) -> (r: Vec<G1Elem>)
    requires
        k <= MAX_LOG_SIZE + 1,
        v@.len() <= domain_len(k as nat),
        all_g1_ok(v@),
    ensures
        r@.len() == domain_len(k as nat),
        all_g1_ok(r@),
        g1_encs(r@) == g1_ifft_of(k as nat, g1_encs(v@)),
{
    let d = ark_poly::Radix2EvaluationDomain::<ark_bn254::Fr>::new(1usize << k).unwrap();
    let x: Vec<ark_bn254::G1Projective> = v.iter()
        .map(|p| ark_bn254::G1Affine::deserialize_compressed(&p.enc[..]).unwrap().into()).collect();
    ark_bn254::G1Projective::normalize_batch(&d.ifft(&x)).iter().map(|a| {
        let mut enc = Vec::new();
        a.serialize_compressed(&mut enc).unwrap();
        G1Elem { enc }
    }).collect()
}

/// Relies on ark_poly's EvaluationDomain::element: the `i`-th power of the
/// domain's generator.
#[verifier::external_body]
pub(crate) fn domain_element(k: u32, i: usize) -> (r: Scalar)
    requires
        k <= MAX_LOG_SIZE + 1,
    ensures
        r.wf(),
        r.val() == domain_elem(k as nat, i as nat),
{
    let d = ark_poly::Radix2EvaluationDomain::<ark_bn254::Fr>::new(1usize << k).unwrap();
    Scalar { limbs: d.element(i).into_bigint().0 }
}

/// Converts evaluations over the domain of log-size `k` to coefficients.
pub fn lagrange_to_coeff(k: u32, evals: &Vec<Scalar>) -> (r: Vec<Scalar>)
    requires
        k <= MAX_LOG_SIZE + 1,
        evals@.len() <= domain_len(k as nat),
        all_wf(evals@),
    ensures
        r@.len() == domain_len(k as nat),
        all_wf(r@),
        scalar_vals(r@) == fr_ifft_of(k as nat, scalar_vals(evals@)),
{
    fr_ifft(k, evals)
}

/// Converts coefficients to evaluations over the domain of log-size `k`.
pub fn coeff_to_lagrange(k: u32, coeffs: &Vec<Scalar>) -> (r: Vec<Scalar>)
    requires
        k <= MAX_LOG_SIZE + 1,
        coeffs@.len() <= domain_len(k as nat),
        all_wf(coeffs@),
    ensures
        r@.len() == domain_len(k as nat),
        all_wf(r@),
        scalar_vals(r@) == fr_fft_of(k as nat, scalar_vals(coeffs@)),
{
    fr_fft(k, coeffs)
}

} // verus!
