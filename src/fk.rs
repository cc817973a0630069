//! All KZG opening proofs of a committed vector at once, by the amortized
//! Feist-Khovratovich method, and the direct per-point opening it must agree with.

use vstd::prelude::*;
use crate::domain::{
    MAX_LOG_SIZE, domain_elem, domain_element, domain_len, domain_size, fr_fft, fr_fft_of,
    fr_ifft, fr_ifft_of, g1_fft, g1_fft_of, g1_ifft, g1_ifft_of,
};
use crate::params::CommitmentKey;
use crate::error::{ConfigError, LotError};
use crate::field::{
    Scalar, all_wf, eval_polynomial, poly_divide, poly_eval, scalar_vals,
};
use crate::group::{G1Elem, all_g1_ok, g1_encs, g1_msm, g1_mul, g1_scale, msm};

verus! {

/// The first `d` powers in reverse order; the transform pads them with the
/// identity up to the doubled domain.
pub open spec fn hat_s(powers: Seq<Seq<u8>>, d: nat) -> Seq<Seq<u8>> {
    Seq::new(d, |i: int| powers[d - 1 - i])
}

/// The table reused by every batch opening against one reference string.
pub open spec fn precomputed_y(k: nat, powers: Seq<Seq<u8>>) -> Seq<Seq<u8>> {
    g1_fft_of(k + 1, hat_s(powers, (domain_len(k) - 1) as nat))
}

/// The doubled coefficient vector: `c_d` at `0` and at `d + 1`, then
/// `c_0 .. c_{d-1}` from `d + 2` on, zero elsewhere.
pub open spec fn hat_c(c: Seq<nat>, d: nat) -> Seq<nat> {
    Seq::new(
        2 * d + 2,
        |j: int|
            if j == 0 || j == d + 1 {
                c[d as int]
            } else if j >= d + 2 {
                c[j - d - 2]
            } else {
                0
            },
    )
}

/// Pointwise scaling of the table by the transformed coefficients.
pub open spec fn pointwise(y: Seq<Seq<u8>>, h: Seq<nat>) -> Seq<Seq<u8>> {
    Seq::new(y.len(), |j: int| g1_scale(y[j], h[j]))
}

/// The openings at every point of the domain of log-size `k`, for the vector
/// of evaluations `evals`, from the table `y`.
pub open spec fn fk_openings(k: nat, y: Seq<Seq<u8>>, evals: Seq<nat>) -> Seq<Seq<u8>> {
    let d = (domain_len(k) - 1) as nat;
    let h = fr_fft_of(k + 1, hat_c(fr_ifft_of(k, evals), d));
    let v = g1_ifft_of(k + 1, pointwise(y, h));
    g1_fft_of(k, v.take(d as int))
}

/// The quotient of `c(x) - c(z)` by `x - z`, coefficient by coefficient.
pub open spec fn quotient(c: Seq<nat>, z: nat) -> Seq<nat> {
    Seq::new((c.len() - 1) as nat, |i: int| poly_eval(c.subrange(i + 1, c.len() as int), z))
}

/// The direct opening at `z` of the vector of evaluations `evals`: the
/// commitment, against the powers, to the quotient of its polynomial.
pub open spec fn naive_opening(k: nat, powers: Seq<Seq<u8>>, evals: Seq<nat>, z: nat) -> Seq<u8> {
    let c = fr_ifft_of(k, evals);
    g1_msm(powers.take(c.len() - 1), quotient(c, z))
}

/// Builds the table `y` from the first `2^k - 1` powers of the reference string.
pub fn precompute_y(powers: &Vec<G1Elem>, k: u32) -> (y: Vec<G1Elem>)
    requires
        k <= MAX_LOG_SIZE,
        powers@.len() >= domain_len(k as nat) - 1,
        all_g1_ok(powers@),
    ensures
        y@.len() == 2 * domain_len(k as nat),
        all_g1_ok(y@),
        g1_encs(y@) == precomputed_y(k as nat, g1_encs(powers@)),
{
    let n = domain_size(k);
    let d = n - 1;
    let mut s: Vec<G1Elem> = Vec::new();
    let mut i: usize = 0;
    while i < d
        invariant
            i <= d,
            d == n - 1,
            n >= 1,
            powers@.len() >= d,
            all_g1_ok(powers@),
            s@.len() == i,
            all_g1_ok(s@),
            forall|j: int| 0 <= j < i ==> (#[trigger] s@[j]).enc@ == powers@[d - 1 - j].enc@,
        decreases d - i,
    {
        let p = powers[d - 1 - i].duplicate();
        assert(powers@[d - 1 - i].wf());
        s.push(p);
        i = i + 1;
    }
    assert(g1_encs(s@) =~= hat_s(g1_encs(powers@), d as nat));
    proof {
        crate::domain::lemma_domain_len_bound(k as nat);
    }
    assert(domain_len(k as nat + 1) == 2 * domain_len(k as nat));
    g1_fft(k + 1, &s)
}

/// Every opening proof of the vector of evaluations `evals` over the domain of
/// log-size `k`, in domain order, from the table `y` of `precompute_y`.
pub fn all_openings_fk(y: &Vec<G1Elem>, k: u32, evals: &Vec<Scalar>) -> (r: Result<
    Vec<G1Elem>,
    LotError,
>)
    requires
        all_g1_ok(y@),
        all_wf(evals@),
    ensures
        k > MAX_LOG_SIZE ==> r == Err::<Vec<G1Elem>, LotError>(
            LotError::Configuration(ConfigError::DomainTooLarge { k }),
        ),
        k <= MAX_LOG_SIZE && evals@.len() != domain_len(k as nat) ==> r == Err::<
            Vec<G1Elem>,
            LotError,
        >(
            LotError::Configuration(
                ConfigError::EvalsLength {
                    expected: domain_len(k as nat) as usize,
                    got: evals@.len() as usize,
                },
            ),
        ),
        k <= MAX_LOG_SIZE && evals@.len() == domain_len(k as nat) && y@.len() != 2 * domain_len(
            k as nat,
        ) ==> r == Err::<Vec<G1Elem>, LotError>(
            LotError::Configuration(
                ConfigError::PrecomputedLength {
                    expected: (2 * domain_len(k as nat)) as usize,
                    got: y@.len() as usize,
                },
            ),
        ),
        k <= MAX_LOG_SIZE && evals@.len() == domain_len(k as nat) && y@.len() == 2 * domain_len(
            k as nat,
        ) ==> r.is_ok(),
        r matches Ok(q) ==> {
            &&& q@.len() == domain_len(k as nat)
            &&& all_g1_ok(q@)
            &&& g1_encs(q@) == fk_openings(k as nat, g1_encs(y@), scalar_vals(evals@))
        },
{
    if k > MAX_LOG_SIZE {
        return Err(LotError::Configuration(ConfigError::DomainTooLarge { k }));
    }
    let n = domain_size(k);
    if evals.len() != n {
        return Err(LotError::Configuration(ConfigError::EvalsLength { expected: n, got: evals.len() }));
    }
    if y.len() != 2 * n {
        return Err(LotError::Configuration(ConfigError::PrecomputedLength { expected: 2 * n, got: y.len() }));
    }
    proof {
        crate::domain::lemma_domain_len_bound(k as nat);
    }
    assert(domain_len(k as nat + 1) == 2 * domain_len(k as nat));
    let d = n - 1;
    let coeffs = fr_ifft(k, evals);
    let ghost c = scalar_vals(coeffs@);
    let mut hc: Vec<Scalar> = Vec::new();
    let mut j: usize = 0;
    while j < 2 * d + 2
        invariant
            j <= 2 * d + 2,
            d == n - 1,
            n >= 1,
            n <= 268435456,
            coeffs@.len() == n,
            all_wf(coeffs@),
            c == scalar_vals(coeffs@),
            hc@.len() == j,
            all_wf(hc@),
            forall|i: int| 0 <= i < j ==> (#[trigger] hc@[i]).val() == hat_c(c, d as nat)[i],
        decreases 2 * d + 2 - j,
    {
        let v = if j == 0 || j == d + 1 {
            coeffs[d]
        } else if j >= d + 2 {
            coeffs[j - d - 2]
        } else {
            Scalar::zero()
        };
        assert(v.wf()) by {
            if j == 0 || j == d + 1 {
                assert(coeffs@[d as int].wf());
            } else if j >= d + 2 {
                assert(coeffs@[j - d - 2].wf());
            }
        }
        hc.push(v);
        j = j + 1;
    }
    assert(scalar_vals(hc@) =~= hat_c(c, d as nat));
    let h = fr_fft(k + 1, &hc);
    let ghost hv = scalar_vals(h@);
    let mut u: Vec<G1Elem> = Vec::new();
    let mut j: usize = 0;
    while j < 2 * n
        invariant
            j <= 2 * n,
            n <= 268435456,
            y@.len() == 2 * n,
            h@.len() == 2 * n,
            all_g1_ok(y@),
            all_wf(h@),
            hv == scalar_vals(h@),
            u@.len() == j,
            all_g1_ok(u@),
            forall|i: int| 0 <= i < j ==> (#[trigger] u@[i]).enc@ == g1_scale(y@[i].enc@, hv[i]),
        decreases 2 * n - j,
    {
        assert(y@[j as int].wf());
        assert(h@[j as int].wf());
        let p = g1_mul(&y[j], &h[j]);
        u.push(p);
        j = j + 1;
    }
    assert(g1_encs(u@) =~= pointwise(g1_encs(y@), hv));
    let v = g1_ifft(k + 1, &u);
    let mut t: Vec<G1Elem> = Vec::new();
    let mut i: usize = 0;
    while i < d
        invariant
            i <= d,
            d < n,
            v@.len() == 2 * n,
            all_g1_ok(v@),
            t@.len() == i,
            all_g1_ok(t@),
            forall|j: int| 0 <= j < i ==> (#[trigger] t@[j]).enc@ == v@[j].enc@,
        decreases d - i,
    {
        assert(v@[i as int].wf());
        let p = v[i].duplicate();
        t.push(p);
        i = i + 1;
    }
    assert(g1_encs(t@) =~= g1_encs(v@).take(d as int));
    let out = g1_fft(k, &t);
    Ok(out)
}

/// The opening at `point` of the vector `elems` (zero-padded to the domain),
/// computed directly: evaluate, divide by `x - point`, commit to the quotient.
pub fn kzg_open(point: &Scalar, powers: &Vec<G1Elem>, k: u32, elems: &Vec<Scalar>) -> (r: G1Elem)
    requires
        k <= MAX_LOG_SIZE,
        point.wf(),
        powers@.len() >= domain_len(k as nat) - 1,
        all_g1_ok(powers@),
        elems@.len() <= domain_len(k as nat),
        all_wf(elems@),
    ensures
        r.wf(),
        r.enc@ == naive_opening(k as nat, g1_encs(powers@), scalar_vals(elems@), point.val()),
{
    let n = domain_size(k);
    let coeffs = fr_ifft(k, elems);
    let f_z = eval_polynomial(coeffs.as_slice(), point);
    let q = poly_divide(coeffs.as_slice(), point, &f_z);
    let mut bases: Vec<G1Elem> = Vec::new();
    let mut i: usize = 0;
    while i < n - 1
        invariant
            i <= n - 1,
            n >= 1,
            powers@.len() >= n - 1,
            all_g1_ok(powers@),
            bases@.len() == i,
            all_g1_ok(bases@),
            forall|j: int| 0 <= j < i ==> (#[trigger] bases@[j]).enc@ == powers@[j].enc@,
        decreases n - 1 - i,
    {
        assert(powers@[i as int].wf());
        let p = powers[i].duplicate();
        bases.push(p);
        i = i + 1;
    }
    let ghost c = scalar_vals(coeffs@);
    assert(g1_encs(bases@) =~= g1_encs(powers@).take(c.len() - 1));
    assert(scalar_vals(q@) =~= quotient(c, point.val()));
    msm(&bases, &q)
}

/// The values `v` zero-padded to length `n`.
pub open spec fn zero_padded(v: Seq<nat>, n: nat) -> Seq<nat> {
    Seq::new(n, |i: int| if i < v.len() { v[i] } else { 0 })
}

/// Whether two byte strings are equal.
pub fn bytes_equal(a: &Vec<u8>, b: &Vec<u8>) -> (r: bool)
    ensures
        r == (a@ == b@),
{
    if a.len() != b.len() {
        return false;
    }
    let mut i: usize = 0;
    while i < a.len()
        invariant
            i <= a@.len(),
            a@.len() == b@.len(),
            forall|j: int| 0 <= j < i ==> a@[j] == b@[j],
        decreases a@.len() - i,
    {
        if a[i] != b[i] {
            return false;
        }
        i = i + 1;
    }
    assert(a@ =~= b@);
    true
}

/// The batch opening at index `i` equals the direct opening at `w^i`.
pub open spec fn fk_agrees(key: &CommitmentKey, elems: Seq<Scalar>, i: int) -> bool {
    let n = domain_len(key.k as nat);
    fk_openings(key.k as nat, g1_encs(key.y@), zero_padded(scalar_vals(elems), n))[i]
        == naive_opening(
        key.k as nat,
        g1_encs(key.powers@),
        scalar_vals(elems),
        domain_elem(key.k as nat, i as nat),
    )
}

/// Checks the batch openings of `elems` (zero-padded to the domain) against
/// the direct opening at every point `w^i`; on a mismatch, its first index.
pub fn compare_fk_vs_kzg(key: &CommitmentKey, elems: &Vec<Scalar>) -> (r: Result<(), usize>)
    requires
        key.wf(),
        elems@.len() <= domain_len(key.k as nat),
        all_wf(elems@),
    ensures
        r is Ok <==> forall|i: int|
            0 <= i < domain_len(key.k as nat) ==> #[trigger] fk_agrees(key, elems@, i),
        r matches Err(i) ==> i < domain_len(key.k as nat) && !fk_agrees(key, elems@, i as int)
            && forall|j: int| 0 <= j < i ==> #[trigger] fk_agrees(key, elems@, j),
{
    let k = key.k;
    let n = domain_size(k);
    let mut padded: Vec<Scalar> = Vec::new();
    let mut i: usize = 0;
    while i < n
        invariant
            i <= n,
            elems@.len() <= n,
            all_wf(elems@),
            padded@.len() == i,
            all_wf(padded@),
            forall|j: int|
                0 <= j < i ==> (#[trigger] padded@[j]).val() == zero_padded(
                    scalar_vals(elems@),
                    n as nat,
                )[j],
        decreases n - i,
    {
        let e = if i < elems.len() {
            assert(elems@[i as int].wf());
            elems[i]
        } else {
            Scalar::zero()
        };
        padded.push(e);
        i = i + 1;
    }
    assert(scalar_vals(padded@) =~= zero_padded(scalar_vals(elems@), n as nat));
    let fk = match all_openings_fk(&key.y, k, &padded) {
        Ok(q) => q,
        Err(_) => {
            return Err(0);
        },
    };
    let mut i: usize = 0;
    while i < n
        invariant
            i <= n,
            n == domain_len(k as nat),
            k == key.k,
            key.wf(),
            elems@.len() <= n,
            all_wf(elems@),
            fk@.len() == n,
            g1_encs(fk@) == fk_openings(k as nat, g1_encs(key.y@), zero_padded(scalar_vals(elems@), n as nat)),
            forall|j: int| 0 <= j < i ==> #[trigger] fk_agrees(key, elems@, j),
        decreases n - i,
    {
        let z = domain_element(k, i);
        let q = kzg_open(&z, &key.powers, k, elems);
        assert(g1_encs(fk@)[i as int] == fk@[i as int].enc@);
        if !bytes_equal(&fk[i].enc, &q.enc) {
            assert(!fk_agrees(key, elems@, i as int));
            return Err(i);
        }
        assert(fk_agrees(key, elems@, i as int));
        i = i + 1;
    }
    Ok(())
}

} // verus!
