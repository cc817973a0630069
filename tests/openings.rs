use ark_ec::pairing::Pairing;
use ark_ec::{AffineRepr, CurveGroup};
use ark_ff::{Field, PrimeField};
use ark_serialize::CanonicalDeserialize;
use ark_poly::EvaluationDomain;
use ark_serialize::CanonicalSerialize;
use laconic_kzg::{
    all_openings_fk, bools_to_u16, coeff_to_lagrange, compare_fk_vs_kzg, eval_polynomial, kzg_open, lagrange_to_coeff, one, poly_divide, precompute_y,
    u8_vec_to_vec_bool, CommitmentKey, ConfigError, KZGType, LotError, Scalar,
};

fn key(k: u32) -> CommitmentKey {
    CommitmentKey::setup_with_secret(KZGType::Plain, k, &Scalar::from_u64(987654321)).unwrap()
}

fn random_scalar() -> Scalar {
    let x = <ark_bn254::Fr as ark_std::UniformRand>::rand(&mut rand::thread_rng());
    Scalar { limbs: x.into_bigint().0 }
}

fn domain_element(k: u32, i: usize) -> Scalar {
    let d = ark_poly::Radix2EvaluationDomain::<ark_bn254::Fr>::new(1usize << k).unwrap();
    Scalar { limbs: d.element(i).into_bigint().0 }
}

fn g1_enc(p: ark_bn254::G1Affine) -> Vec<u8> {
    let mut v = Vec::new();
    p.serialize_compressed(&mut v).unwrap();
    v
}

fn g2_enc(p: ark_bn254::G2Affine) -> Vec<u8> {
    let mut v = Vec::new();
    p.serialize_compressed(&mut v).unwrap();
    v
}

fn minus_one() -> Scalar {
    Scalar {
        limbs: [0x43e1f593f0000000, 0x2833e84879b97091, 0xb85045b68181585d, 0x30644e72e131a029],
    }
}

fn bit_elems(bits: &[u64]) -> Vec<Scalar> {
    bits.iter().map(|b| Scalar::from_u64(*b)).collect()
}

#[test]
fn test_fk_openings_match_kzg_openings() {
    let k = 4;
    let params = CommitmentKey::setup(KZGType::Plain, k).unwrap();
    let precomputed_y = precompute_y(&params.powers, k);
    assert_eq!(precomputed_y, params.y);
    let elems = bit_elems(&[0, 1, 0, 1]);
    compare_fk_vs_kzg(&params, &elems).unwrap();
}

#[test]
fn test_laconic_ot_recv_fk_openings() {
    let degree = 8;
    let size = 1usize << degree;
    let bitvector: Vec<u64> = (0..size).map(|_| rand::random::<bool>() as u64).collect();
    let elems = bit_elems(&bitvector);
    let params = key(degree);
    let y = precompute_y(&params.powers, degree);
    let fk_qs = all_openings_fk(&y, degree, &elems).expect("Failed to compute all openings FK");
    assert_eq!(fk_qs.len(), size);
    for i in [0usize, 1, 128, 255] {
        let z = domain_element(degree, i);
        assert_eq!(kzg_open(&z, &params.powers, degree, &elems), fk_qs[i]);
    }
}

#[test]
fn batch_openings_match_direct_ones_on_small_domains() {
    for k in 0..4u32 {
        let params = key(k);
        let n = 1usize << k;
        let elems: Vec<Scalar> = (0..n).map(|_| random_scalar()).collect();
        compare_fk_vs_kzg(&params, &elems).unwrap();
    }
}

#[test]
fn batch_opening_size_errors() {
    let params = key(2);
    let elems = bit_elems(&[1, 0, 1]);
    assert_eq!(
        all_openings_fk(&params.y, 2, &elems).unwrap_err(),
        LotError::Configuration(ConfigError::EvalsLength { expected: 4, got: 3 })
    );
    let elems = bit_elems(&[1, 0, 1, 1]);
    assert_eq!(
        all_openings_fk(&params.powers, 2, &elems).unwrap_err(),
        LotError::Configuration(ConfigError::PrecomputedLength { expected: 8, got: 4 })
    );
    assert_eq!(
        all_openings_fk(&params.y, 30, &elems).unwrap_err(),
        LotError::Configuration(ConfigError::DomainTooLarge { k: 30 })
    );
}

#[test]
fn lagrange_coefficient_round_trip() {
    for k in [0u32, 1, 4, 6] {
        let n = 1usize << k;
        let v: Vec<Scalar> = (0..n).map(|_| random_scalar()).collect();
        let c = lagrange_to_coeff(k, &v);
        assert_eq!(c.len(), n);
        assert_eq!(coeff_to_lagrange(k, &c), v);
    }
}

#[test]
fn constant_evaluations_have_a_constant_polynomial() {
    let v = vec![Scalar::from_u64(5); 8];
    let c = lagrange_to_coeff(3, &v);
    assert_eq!(c[0], Scalar::from_u64(5));
    for x in &c[1..] {
        assert_eq!(*x, Scalar::zero());
    }
}

#[test]
fn field_arithmetic_reduces() {
    let m = minus_one();
    // (-1) + (-1) x at x = -1 is 0; 1 + 6 x at x = 7 is 43.
    assert_eq!(eval_polynomial(&[m, m], &m), Scalar::zero());
    assert_eq!(eval_polynomial(&bit_elems(&[1, 6]), &Scalar::from_u64(7)), Scalar::from_u64(43));
    assert_eq!(eval_polynomial(&[m, Scalar::one()], &Scalar::one()), Scalar::zero());
}

#[test]
fn horner_evaluation() {
    let p = bit_elems(&[1, 2, 3]);
    assert_eq!(eval_polynomial(&p, &Scalar::from_u64(2)), Scalar::from_u64(17));
    assert_eq!(eval_polynomial(&[], &Scalar::from_u64(2)), Scalar::zero());
    assert_eq!(eval_polynomial(&p, &minus_one()), Scalar::from_u64(2));
}

#[test]
fn synthetic_division() {
    let p = bit_elems(&[6, 5, 1]);
    let c = Scalar::from_u64(1);
    let f_c = eval_polynomial(&p, &c);
    assert_eq!(f_c, Scalar::from_u64(12));
    assert_eq!(poly_divide(&p, &c, &f_c), bit_elems(&[6, 1]));
    let q = poly_divide(&bit_elems(&[4]), &c, &Scalar::from_u64(4));
    assert!(q.is_empty());
}

#[test]
fn setup_from_secret_uses_its_powers() {
    let params = key(2);
    let s = ark_bn254::Fr::from(987654321u64);
    let g1 = ark_bn254::G1Affine::generator();
    assert_eq!(params.powers[0].enc, g1_enc(g1));
    assert_eq!(params.powers[1].enc, g1_enc((g1 * s).into_affine()));
    assert_eq!(params.powers[3].enc, g1_enc((g1 * (s * s * s)).into_affine()));
    let g2 = ark_bn254::G2Affine::generator();
    assert_eq!(params.g2.enc, g2_enc(g2));
    assert_eq!(params.s_g2.enc, g2_enc((g2 * s).into_affine()));
    let d = ark_poly::Radix2EvaluationDomain::<ark_bn254::Fr>::new(4).unwrap();
    let pts: Vec<ark_bn254::G1Projective> = (0..4u64)
        .map(|i| g1 * s.pow([i]))
        .collect();
    let lag = ark_bn254::G1Projective::normalize_batch(&d.ifft(&pts));
    for i in 0..4 {
        assert_eq!(params.lagranges[i].enc, g1_enc(lag[i]));
    }
}

#[test]
fn commitment_matches_an_independent_multi_scalar_multiplication() {
    let params = key(2);
    let bits = vec![laconic_kzg::Choice::One, laconic_kzg::Choice::Zero, laconic_kzg::Choice::One];
    let c = laconic_kzg::ot::commit(&params, &bits).unwrap();
    let s = ark_bn254::Fr::from(987654321u64);
    let g1 = ark_bn254::G1Affine::generator();
    let d = ark_poly::Radix2EvaluationDomain::<ark_bn254::Fr>::new(4).unwrap();
    let pts: Vec<ark_bn254::G1Projective> = (0..4u64).map(|i| g1 * s.pow([i])).collect();
    let lag = d.ifft(&pts);
    let expected = (lag[0] + lag[2]).into_affine();
    assert_eq!(c.enc, g1_enc(expected));
}

#[test]
fn opening_satisfies_the_pairing_check() {
    let params = key(3);
    let bits = [1u64, 0, 1, 1, 0, 0, 1, 0];
    let evals = bit_elems(&bits);
    let qs = all_openings_fk(&params.y, 3, &evals).unwrap();
    let com = laconic_kzg::ot::commit(
        &params,
        &bits.iter().map(|b| laconic_kzg::Choice::from_bool(*b == 1)).collect::<Vec<_>>(),
    )
    .unwrap();
    let s = ark_bn254::Fr::from(987654321u64);
    let g1 = ark_bn254::G1Affine::generator();
    let g2 = ark_bn254::G2Affine::generator();
    let c = ark_bn254::G1Affine::deserialize_compressed(&com.enc[..]).unwrap();
    let d = ark_poly::Radix2EvaluationDomain::<ark_bn254::Fr>::new(8).unwrap();
    for i in 0..8 {
        let q = ark_bn254::G1Affine::deserialize_compressed(&qs[i].enc[..]).unwrap();
        let v = ark_bn254::Fr::from(bits[i]);
        let lhs = ark_bn254::Bn254::pairing(c.into_group() - g1 * v, g2);
        let rhs = ark_bn254::Bn254::pairing(q, g2 * (s - d.element(i)));
        assert_eq!(lhs, rhs);
    }
}

#[test]
fn bit_helpers() {
    assert_eq!(bools_to_u16(vec![true, false, true]), vec![1u16, 0, 1]);
    let o = one();
    assert_eq!(o.len(), 16);
    assert!(o[0]);
    assert!(o[1..].iter().all(|b| !*b));
    let bits = u8_vec_to_vec_bool(vec![0b1000_0001, 2]);
    assert_eq!(
        bits,
        vec![true, false, false, false, false, false, false, true, false, true, false, false, false, false, false, false]
    );
}

#[test]
fn batch_openings_match_direct_ones_at_every_point_of_a_larger_domain() {
    let k = 5;
    let params = key(k);
    let bits: Vec<u64> = (0..30).map(|i| (i * 7 % 3 == 0) as u64).collect();
    compare_fk_vs_kzg(&params, &bit_elems(&bits)).unwrap();
}
