//! Points of the BN254 source groups, held as their canonical compressed
//! encodings, and the curve operations the protocol draws on.

use ark_ec::pairing::Pairing;
use ark_ec::{AffineRepr, CurveGroup};
use ark_ff::PrimeField;
use ark_serialize::{CanonicalDeserialize, CanonicalSerialize};
use vstd::prelude::*;
use crate::field::{Scalar, all_wf, scalar_vals};

verus! {

/// Length of a compressed G1 encoding.
pub const G1_BYTES: usize = 32;

/// Length of a compressed G2 encoding.
pub const G2_BYTES: usize = 64;

/// A point of G1 as its compressed encoding.
#[derive(Clone, Debug, PartialEq, Eq)]
pub struct G1Elem {
    pub enc: Vec<u8>,
}

/// A point of G2 as its compressed encoding.
#[derive(Clone, Debug, PartialEq, Eq)]
pub struct G2Elem {
    pub enc: Vec<u8>,
}

/// The compressed decoding of `b` yields a point of G1's prime-order subgroup.
pub uninterp spec fn g1_valid(b: Seq<u8>) -> bool;

/// The compressed decoding of `b` yields a point of G2's prime-order subgroup.
pub uninterp spec fn g2_valid(b: Seq<u8>) -> bool;

/// Encoding of `s * p` in G1.
pub uninterp spec fn g1_scale(p: Seq<u8>, s: nat) -> Seq<u8>;

/// Encoding of `a - b` in G1.
pub uninterp spec fn g1_sub(a: Seq<u8>, b: Seq<u8>) -> Seq<u8>;

/// Encoding of `s * p` in G2.
pub uninterp spec fn g2_scale(p: Seq<u8>, s: nat) -> Seq<u8>;

/// Encoding of `a - b` in G2.
pub uninterp spec fn g2_sub(a: Seq<u8>, b: Seq<u8>) -> Seq<u8>;

/// Uncompressed encoding of the pairing of a G1 and a G2 point.
pub uninterp spec fn pairing_bytes(p: Seq<u8>, q: Seq<u8>) -> Seq<u8>;

/// Encoding of the multi-scalar multiplication `sum_i scalars[i] * bases[i]`.
pub uninterp spec fn g1_msm(bases: Seq<Seq<u8>>, scalars: Seq<nat>) -> Seq<u8>;

/// A well-formed G1 encoding.
pub open spec fn g1_ok(b: Seq<u8>) -> bool {
    b.len() == G1_BYTES && g1_valid(b)
}

/// A well-formed G2 encoding.
pub open spec fn g2_ok(b: Seq<u8>) -> bool {
    b.len() == G2_BYTES && g2_valid(b)
}

impl G1Elem {
    pub open spec fn wf(&self) -> bool {
        g1_ok(self.enc@)
    }

    pub fn duplicate(&self) -> (r: G1Elem)
        ensures
            r.enc@ == self.enc@,
    {
        let mut v: Vec<u8> = Vec::new();
        let mut i: usize = 0;
        while i < self.enc.len()
            invariant
                i <= self.enc@.len(),
                v@ == self.enc@.subrange(0, i as int),
            decreases self.enc@.len() - i,
        {
            v.push(self.enc[i]);
            i = i + 1;
            assert(v@ =~= self.enc@.subrange(0, i as int));
        }
        assert(v@ =~= self.enc@);
        G1Elem { enc: v }
    }
}

impl G2Elem {
    pub open spec fn wf(&self) -> bool {
        g2_ok(self.enc@)
    }

    pub fn duplicate(&self) -> (r: G2Elem)
        ensures
            r.enc@ == self.enc@,
    {
        let mut v: Vec<u8> = Vec::new();
        let mut i: usize = 0;
        while i < self.enc.len()
            invariant
                i <= self.enc@.len(),
                v@ == self.enc@.subrange(0, i as int),
            decreases self.enc@.len() - i,
        {
            v.push(self.enc[i]);
            i = i + 1;
            assert(v@ =~= self.enc@.subrange(0, i as int));
        }
        assert(v@ =~= self.enc@);
        G2Elem { enc: v }
    }
}

/// The encodings of a sequence of G1 points.
pub open spec fn g1_encs(s: Seq<G1Elem>) -> Seq<Seq<u8>> {
    s.map_values(|p: G1Elem| p.enc@)
}

/// Every point of the sequence is well formed.
pub open spec fn all_g1_ok(s: Seq<G1Elem>) -> bool {
    forall|i: int| 0 <= i < s.len() ==> (#[trigger] s[i]).wf()
}

/// Relies on ark_serialize's compressed decoding of ark_bn254::G1Affine, which
/// checks that the point lies on the curve and in the prime-order subgroup.
#[verifier::external_body]
pub(crate) fn g1_check(b: &[u8]) -> (r: bool)
    ensures
        r == g1_valid(b@),
{
    ark_bn254::G1Affine::deserialize_compressed(b).is_ok()
}

/// Relies on ark_serialize's compressed decoding of ark_bn254::G2Affine, which
/// checks that the point lies on the curve and in the prime-order subgroup.
#[verifier::external_body]
pub(crate) fn g2_check(b: &[u8]) -> (r: bool)
    ensures
        r == g2_valid(b@),
{
    ark_bn254::G2Affine::deserialize_compressed(b).is_ok()
}

/// Relies on ark_bn254's G1 generator and its compressed encoding.
#[verifier::external_body]
pub(crate) fn g1_generator() -> (r: G1Elem)
    ensures
        r.wf(),
{
    let mut enc = Vec::new();
    ark_bn254::G1Affine::generator().serialize_compressed(&mut enc).unwrap();
    G1Elem { enc }
}

/// Relies on ark_bn254's G2 generator and its compressed encoding.
#[verifier::external_body]
pub(crate) fn g2_generator() -> (r: G2Elem)
    ensures
        r.wf(),
{
    let mut enc = Vec::new();
    ark_bn254::G2Affine::generator().serialize_compressed(&mut enc).unwrap();
    G2Elem { enc }
}

/// Relies on ark_ec's scalar multiplication of a G1 point.
#[verifier::external_body]
pub(crate) fn g1_mul(p: &G1Elem, s: &Scalar) -> (r: G1Elem)
    requires
        p.wf(),
        s.wf(),
    ensures
        r.wf(),
        r.enc@ == g1_scale(p.enc@, s.val()),
{
    let a = ark_bn254::G1Affine::deserialize_compressed(&p.enc[..]).unwrap();
    let x = ark_bn254::Fr::from_bigint(ark_ff::BigInt(s.limbs)).unwrap();
    let mut enc = Vec::new();
    (a * x).into_affine().serialize_compressed(&mut enc).unwrap();
    G1Elem { enc }
}

/// Relies on ark_ec's subtraction of G1 points.
#[verifier::external_body]
pub(crate) fn g1_minus(a: &G1Elem, b: &G1Elem) -> (r: G1Elem)
    requires
        a.wf(),
        b.wf(),
    ensures
        r.wf(),
        r.enc@ == g1_sub(a.enc@, b.enc@),
{
    let x = ark_bn254::G1Affine::deserialize_compressed(&a.enc[..]).unwrap();
    let y = ark_bn254::G1Affine::deserialize_compressed(&b.enc[..]).unwrap();
    let mut enc = Vec::new();
    (x - y).into_affine().serialize_compressed(&mut enc).unwrap();
    G1Elem { enc }
}

/// Relies on ark_ec's scalar multiplication of a G2 point.
#[verifier::external_body]
pub(crate) fn g2_mul(p: &G2Elem, s: &Scalar) -> (r: G2Elem)
    requires
        p.wf(),
        s.wf(),
    ensures
        r.wf(),
        r.enc@ == g2_scale(p.enc@, s.val()),
{
    let a = ark_bn254::G2Affine::deserialize_compressed(&p.enc[..]).unwrap();
    let x = ark_bn254::Fr::from_bigint(ark_ff::BigInt(s.limbs)).unwrap();
    let mut enc = Vec::new();
    (a * x).into_affine().serialize_compressed(&mut enc).unwrap();
    G2Elem { enc }
}

/// Relies on ark_ec's subtraction of G2 points.
#[verifier::external_body]
pub(crate) fn g2_minus(a: &G2Elem, b: &G2Elem) -> (r: G2Elem)
    requires
        a.wf(),
        b.wf(),
    ensures
        r.wf(),
        r.enc@ == g2_sub(a.enc@, b.enc@),
{
    let x = ark_bn254::G2Affine::deserialize_compressed(&a.enc[..]).unwrap();
    let y = ark_bn254::G2Affine::deserialize_compressed(&b.enc[..]).unwrap();
    let mut enc = Vec::new();
    (x - y).into_affine().serialize_compressed(&mut enc).unwrap();
    G2Elem { enc }
}

/// Relies on ark_ec's BN254 pairing, its target-field element written
/// uncompressed by ark_serialize.
#[verifier::external_body]
pub(crate) fn pairing(p: &G1Elem, q: &G2Elem) -> (r: Vec<u8>)
    requires
        p.wf(),
        q.wf(),
    ensures
        r@ == pairing_bytes(p.enc@, q.enc@),
{
    let a = ark_bn254::G1Affine::deserialize_compressed(&p.enc[..]).unwrap();
    let b = ark_bn254::G2Affine::deserialize_compressed(&q.enc[..]).unwrap();
    let mut out = Vec::new();
    ark_bn254::Bn254::pairing(a, b).0.serialize_uncompressed(&mut out).unwrap();
    out
}

/// Relies on ark_ec's variable-base multi-scalar multiplication over G1,
/// which succeeds when there are as many scalars as bases.
#[verifier::external_body]
pub(crate) fn msm(bases: &Vec<G1Elem>, scalars: &Vec<Scalar>) -> (r: G1Elem)
    requires
        bases@.len() == scalars@.len(),
        all_g1_ok(bases@),
        all_wf(scalars@),
    ensures
        r.wf(),
        r.enc@ == g1_msm(g1_encs(bases@), scalar_vals(scalars@)),
{
    let b: Vec<ark_bn254::G1Affine> =
        bases.iter().map(|p| CanonicalDeserialize::deserialize_compressed(&p.enc[..]).unwrap()).collect();
    let s: Vec<ark_bn254::Fr> =
        scalars.iter().map(|x| ark_bn254::Fr::from_bigint(ark_ff::BigInt(x.limbs)).unwrap()).collect();
    let mut enc = Vec::new();
    <ark_bn254::G1Projective as ark_ec::VariableBaseMSM>::msm(&b, &s).unwrap().into_affine()
        .serialize_compressed(&mut enc).unwrap();
    G1Elem { enc }
}

} // verus!
