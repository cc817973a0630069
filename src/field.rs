//! Elements of the BN254 scalar field, held as four little-endian 64-bit limbs.

use ark_ff::PrimeField;
use vstd::arithmetic::div_mod::{lemma_add_mod_noop_right, lemma_mul_mod_noop_right, lemma_small_mod};
use vstd::prelude::*;

verus! {

/// The order of the BN254 scalar field.
pub open spec fn modulus() -> nat {
    21888242871839275222246405745257275088548364400416034343698204186575808495617nat
}

/// The integer that four little-endian 64-bit limbs spell.
pub open spec fn limbs_value(l: [u64; 4]) -> nat {
    (l[0] as nat) + (l[1] as nat) * 0x1_0000_0000_0000_0000nat + (l[2] as nat)
        * 0x1_0000_0000_0000_0000_0000_0000_0000_0000nat + (l[3] as nat)
        * 0x1_0000_0000_0000_0000_0000_0000_0000_0000_0000_0000_0000_0000nat
}

/// A scalar field element in canonical (non-Montgomery) form.
#[derive(Clone, Copy, Debug, PartialEq, Eq)]
pub struct Scalar {
    pub limbs: [u64; 4],
}

impl Scalar {
    pub open spec fn val(self) -> nat {
        limbs_value(self.limbs)
    }

    /// A canonical element is below the field order.
    pub open spec fn wf(self) -> bool {
        self.val() < modulus()
    }

    pub fn zero() -> (r: Scalar)
        ensures
            r.wf(),
            r.val() == 0,
    {
        Scalar { limbs: [0u64, 0u64, 0u64, 0u64] }
    }

    pub fn one() -> (r: Scalar)
        ensures
            r.wf(),
            r.val() == 1,
    {
        Scalar { limbs: [1u64, 0u64, 0u64, 0u64] }
    }

    pub fn from_u64(v: u64) -> (r: Scalar)
        ensures
            r.wf(),
            r.val() == v as nat,
    {
        Scalar { limbs: [v, 0u64, 0u64, 0u64] }
    }
}

/// The values of a sequence of scalars.
pub open spec fn scalar_vals(s: Seq<Scalar>) -> Seq<nat> {
    s.map_values(|x: Scalar| x.val())
}

/// Every scalar of the sequence is canonical.
pub open spec fn all_wf(s: Seq<Scalar>) -> bool {
    forall|i: int| 0 <= i < s.len() ==> (#[trigger] s[i]).wf()
}

/// `c[0] + c[1] x + c[2] x^2 + ...` over the scalar field.
pub open spec fn poly_eval(c: Seq<nat>, x: nat) -> nat
    decreases c.len(),
{
    if c.len() == 0 {
        0
    } else {
        (c[0] + x * poly_eval(c.drop_first(), x)) % modulus()
    }
}

/// Relies on the addition of ark_bn254::Fr: the sum reduced modulo the field order.
#[verifier::external_body]
pub(crate) fn fr_add(a: &Scalar, b: &Scalar) -> (r: Scalar)
    requires
        a.wf(),
        b.wf(),
    ensures
        r.wf(),
        r.val() == (a.val() + b.val()) % modulus(),
{
    let x = ark_bn254::Fr::from_bigint(ark_ff::BigInt(a.limbs)).unwrap();
    let y = ark_bn254::Fr::from_bigint(ark_ff::BigInt(b.limbs)).unwrap();
    Scalar { limbs: (x + y).into_bigint().0 }
}

/// Relies on the multiplication of ark_bn254::Fr: the product reduced modulo the field order.
#[verifier::external_body]
pub(crate) fn fr_mul(a: &Scalar, b: &Scalar) -> (r: Scalar)
    requires
        a.wf(),
        b.wf(),
    ensures
        r.wf(),
        r.val() == (a.val() * b.val()) % modulus(),
{
    let x = ark_bn254::Fr::from_bigint(ark_ff::BigInt(a.limbs)).unwrap();
    let y = ark_bn254::Fr::from_bigint(ark_ff::BigInt(b.limbs)).unwrap();
    Scalar { limbs: (x * y).into_bigint().0 }
}

proof fn lemma_horner_step(c: Seq<nat>, i: int, x: nat, acc: nat, t: nat)
    requires
        0 < i <= c.len(),
        c[i - 1] < modulus(),
        acc == poly_eval(c.subrange(i, c.len() as int), x),
        t == (x * acc) % modulus(),
    ensures
        poly_eval(c.subrange(i - 1, c.len() as int), x) == (c[i - 1] + t) % modulus(),
{
    let s = c.subrange(i - 1, c.len() as int);
    assert(s.drop_first() =~= c.subrange(i, c.len() as int));
    lemma_mul_mod_noop_right(x as int, acc as int, modulus() as int);
    lemma_add_mod_noop_right(c[i - 1] as int, (x * acc) as int, modulus() as int);
}

/// Evaluates the polynomial with coefficients `poly` (lowest degree first) at `point`.
pub fn eval_polynomial(poly: &[Scalar], point: &Scalar) -> (r: Scalar)
    requires
        all_wf(poly@),
        point.wf(),
    ensures
        r.wf(),
        r.val() == poly_eval(scalar_vals(poly@), point.val()),
{
    let ghost c = scalar_vals(poly@);
    let n = poly.len();
    let mut acc = Scalar::zero();
    let mut i: usize = n;
    assert(c.subrange(n as int, n as int) =~= Seq::<nat>::empty());
    while i > 0
        invariant
            i <= n,
            n == poly@.len(),
            c == scalar_vals(poly@),
            all_wf(poly@),
            point.wf(),
            acc.wf(),
            acc.val() == poly_eval(c.subrange(i as int, n as int), point.val()),
        decreases i,
    {
        let t = fr_mul(point, &acc);
        assert(poly@[i - 1].wf());
        proof {
            lemma_horner_step(c, i as int, point.val(), acc.val(), t.val());
        }
        acc = fr_add(&poly[i - 1], &t);
        i = i - 1;
    }
    assert(c.subrange(0, n as int) =~= c);
    acc
}

/// Synthetic division of `poly` by `x - c`: the quotient `q` with
/// `poly(x) - poly(c) = (x - c) q(x)`, given `f_c = poly(c)`.
/// Coefficient `i` of the quotient is the value at `c` of the tail of `poly`
/// that starts at degree `i + 1`.
pub fn poly_divide(poly: &[Scalar], c: &Scalar, f_c: &Scalar) -> (q: Vec<Scalar>)
    requires
        all_wf(poly@),
        c.wf(),
        f_c.val() == poly_eval(scalar_vals(poly@), c.val()),
    ensures
        q@.len() == if poly@.len() == 0 { 0 } else { poly@.len() - 1 },
        all_wf(q@),
        forall|i: int|
            0 <= i < q@.len() ==> (#[trigger] q@[i]).val() == poly_eval(
                scalar_vals(poly@).subrange(i + 1, poly@.len() as int),
                c.val(),
            ),
{
    let ghost s = scalar_vals(poly@);
    let n = poly.len();
    if n <= 1 {
        return Vec::new();
    }
    let mut q: Vec<Scalar> = Vec::new();
    let mut k: usize = 0;
    while k < n - 1
        invariant
            k <= n - 1,
            q@.len() == k,
            forall|j: int| 0 <= j < k ==> (#[trigger] q@[j]).wf(),
        decreases n - 1 - k,
    {
        q.push(Scalar::zero());
        k = k + 1;
    }
    let ghost tail_top = s.subrange(n as int - 1, n as int);
    assert(tail_top.drop_first() =~= Seq::<nat>::empty());
    assert(poly@[n - 1].wf());
    proof {
        lemma_small_mod(s[n - 1], modulus());
        assert(poly_eval(tail_top.drop_first(), c.val()) == 0);
        assert(tail_top[0] == s[n - 1]);
        assert(poly_eval(tail_top, c.val()) == (s[n - 1] + c.val() * 0) % modulus());
    }
    q.set(n - 2, poly[n - 1]);
    assert(q@[n - 2].val() == s[n - 1]);
    let mut i: usize = n - 2;
    while i > 0
        invariant
            1 <= n,
            i <= n - 2,
            n == poly@.len(),
            s == scalar_vals(poly@),
            all_wf(poly@),
            c.wf(),
            q@.len() == n - 1,
            forall|j: int| i <= j < n - 1 ==> (#[trigger] q@[j]).wf(),
            forall|j: int|
                i <= j < n - 1 ==> (#[trigger] q@[j]).val() == poly_eval(
                    s.subrange(j + 1, n as int),
                    c.val(),
                ),
        decreases i,
    {
        let t = fr_mul(c, &q[i]);
        assert(poly@[i as int].wf());
        proof {
            lemma_horner_step(s, i as int + 1, c.val(), q@[i as int].val(), t.val());
        }
        let v = fr_add(&poly[i], &t);
        q.set(i - 1, v);
        i = i - 1;
    }
    q
}

} // verus!

verus! {

/// `x^e` reduced modulo the field order.
pub open spec fn pow_mod(x: nat, e: nat) -> nat
    decreases e,
{
    if e == 0 {
        1
    } else {
        (x * pow_mod(x, (e - 1) as nat)) % modulus()
    }
}

/// Relies on ark_std's UniformRand for ark_bn254::Fr, drawn from the operating
/// system's generator: some canonical element.
#[verifier::external_body]
pub(crate) fn random_scalar() -> (r: Scalar)
    ensures
        r.wf(),
{
    Scalar { limbs: <ark_bn254::Fr as ark_std::UniformRand>::rand(&mut rand::rngs::OsRng).into_bigint().0 }
}

} // verus!
