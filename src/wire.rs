//! Byte encodings of commitments, transfer messages and parameters (a backend
//! tag, then fixed-width compressed points and raw bytes), and length-prefixed
//! lists of transfer messages.

use vstd::prelude::*;
use crate::domain::{MAX_LOG_SIZE, domain_len, domain_size};
use crate::error::{DecodeError, LotError, Part};
use crate::group::{G1Elem, G1_BYTES, G2Elem, G2_BYTES, all_g1_ok, g1_check, g1_encs, g1_ok, g1_valid, g2_check, g2_ok, g2_valid};
use crate::ot::{TrinityCom, MSG_SIZE, Msg};
use crate::params::{CommitmentKey, KZGType, LaconicParams};

verus! {

/// Length of an encoded transfer message.
pub const MSG_BYTES: usize = 161;

/// Length of encoded sender parameters.
pub const SENDER_PARAMS_BYTES: usize = 162;

pub open spec fn tag_of(b: KZGType) -> u8 {
    match b {
        KZGType::Plain => 0,
        KZGType::Halo2 => 1,
    }
}

pub open spec fn backend_of(t: u8) -> KZGType {
    if t == 0 {
        KZGType::Plain
    } else {
        KZGType::Halo2
    }
}

fn tag(b: KZGType) -> (r: u8)
    ensures
        r == tag_of(b),
{
    match b {
        KZGType::Plain => 0,
        KZGType::Halo2 => 1,
    }
}

fn backend_from(t: u8) -> (r: KZGType)
    ensures
        r == backend_of(t),
{
    if t == 0 {
        KZGType::Plain
    } else {
        KZGType::Halo2
    }
}

/// The bytes `b[start..end]` as a vector.
fn copy_range(b: &[u8], start: usize, end: usize) -> (r: Vec<u8>)
    requires
        start <= end <= b@.len(),
    ensures
        r@ == b@.subrange(start as int, end as int),
{
    let mut v: Vec<u8> = Vec::new();
    let mut i: usize = start;
    while i < end
        invariant
            start <= i <= end,
            end <= b@.len(),
            v@ == b@.subrange(start as int, i as int),
        decreases end - i,
    {
        v.push(b[i]);
        i = i + 1;
        assert(v@ =~= b@.subrange(start as int, i as int));
    }
    v
}

/// The sixteen bytes `b[start..start + 16]` as an array.
fn copy_block(b: &[u8], start: usize) -> (r: [u8; MSG_SIZE])
    requires
        start + MSG_SIZE <= b@.len(),
    ensures
        r@ == b@.subrange(start as int, start + MSG_SIZE),
{
    let mut out = [0u8; MSG_SIZE];
    let blen = b.len();
    let mut i: usize = 0;
    while i < MSG_SIZE
        invariant
            i <= MSG_SIZE,
            start + MSG_SIZE <= b@.len(),
            blen == b@.len(),
            out@.len() == MSG_SIZE,
            forall|j: int| 0 <= j < i ==> out@[j] == b@[start + j],
        decreases MSG_SIZE - i,
    {
        out[i] = b[start + i];
        i = i + 1;
    }
    assert(out@ =~= b@.subrange(start as int, start + MSG_SIZE));
    out
}

/// Appends `src` to `dst`.
fn append_bytes(dst: &mut Vec<u8>, src: &[u8])
    ensures
        final(dst)@ == old(dst)@ + src@,
{
    let mut i: usize = 0;
    while i < src.len()
        invariant
            i <= src@.len(),
            dst@ == old(dst)@ + src@.subrange(0, i as int),
        decreases src@.len() - i,
    {
        dst.push(src[i]);
        i = i + 1;
        assert(dst@ =~= old(dst)@ + src@.subrange(0, i as int));
    }
    assert(src@.subrange(0, src@.len() as int) =~= src@);
}

/// The encoding of a commitment: its tag, the point, and for the certified
/// backend the certificate.
pub open spec fn commitment_bytes(b: KZGType, point: Seq<u8>, cert: Seq<u8>) -> Seq<u8> {
    seq![tag_of(b)] + point + if b == KZGType::Halo2 {
        cert
    } else {
        Seq::<u8>::empty()
    }
}

/// What a commitment encoding reads as.
pub open spec fn parse_commitment(b: Seq<u8>) -> Result<(KZGType, Seq<u8>, Seq<u8>), DecodeError> {
    if b.len() == 0 {
        Err(DecodeError::Truncated { part: Part::Tag })
    } else if b[0] > 1 {
        Err(DecodeError::Invalid { part: Part::Tag })
    } else if b.len() < 1 + G1_BYTES {
        Err(DecodeError::Truncated { part: Part::Commitment })
    } else if !g1_valid(b.subrange(1, 1 + G1_BYTES)) {
        Err(DecodeError::Invalid { part: Part::Commitment })
    } else if b[0] == 0 && b.len() > 1 + G1_BYTES {
        Err(DecodeError::TrailingBytes)
    } else {
        Ok(
            (
                backend_of(b[0]),
                b.subrange(1, 1 + G1_BYTES),
                if b[0] == 0 {
                    Seq::<u8>::empty()
                } else {
                    b.subrange(1 + G1_BYTES, b.len() as int)
                },
            ),
        )
    }
}

impl TrinityCom {
    pub open spec fn view(&self) -> (KZGType, Seq<u8>, Seq<u8>) {
        (self.backend, self.point.enc@, self.certificate@)
    }

    /// A valid point, and no certificate on the plain backend.
    pub open spec fn wf(&self) -> bool {
        self.point.wf() && (self.backend == KZGType::Plain ==> self.certificate@.len() == 0)
    }

    pub fn serialize(&self) -> (r: Vec<u8>)
        ensures
            r@ == commitment_bytes(self.backend, self.point.enc@, self.certificate@),
    {
        let mut out: Vec<u8> = Vec::new();
        out.push(tag(self.backend));
        append_bytes(&mut out, self.point.enc.as_slice());
        if self.backend == KZGType::Halo2 {
            append_bytes(&mut out, self.certificate.as_slice());
        }
        assert(out@ =~= commitment_bytes(self.backend, self.point.enc@, self.certificate@));
        out
    }

    pub fn deserialize(data: &[u8]) -> (r: Result<TrinityCom, LotError>)
        ensures
            match parse_commitment(data@) {
                Ok(v) => r matches Ok(c) && c.view() == v && c.wf(),
                Err(e) => r == Err::<TrinityCom, LotError>(LotError::Decode(e)),
            },
    {
        let n = data.len();
        if n == 0 {
            return Err(LotError::Decode(DecodeError::Truncated { part: Part::Tag }));
        }
        if data[0] > 1 {
            return Err(LotError::Decode(DecodeError::Invalid { part: Part::Tag }));
        }
        if n < 1 + G1_BYTES {
            return Err(LotError::Decode(DecodeError::Truncated { part: Part::Commitment }));
        }
        let point = copy_range(data, 1, 1 + G1_BYTES);
        if !g1_check(point.as_slice()) {
            return Err(LotError::Decode(DecodeError::Invalid { part: Part::Commitment }));
        }
        if data[0] == 0 && n > 1 + G1_BYTES {
            return Err(LotError::Decode(DecodeError::TrailingBytes));
        }
        let certificate = if data[0] == 0 {
            Vec::new()
        } else {
            copy_range(data, 1 + G1_BYTES, n)
        };
        Ok(TrinityCom { backend: backend_from(data[0]), point: G1Elem { enc: point }, certificate })
    }
}

/// Decoding an encoded well-formed commitment gives it back.
pub proof fn lemma_commitment_round_trip(b: KZGType, point: Seq<u8>, cert: Seq<u8>)
    requires
        g1_ok(point),
        b == KZGType::Plain ==> cert.len() == 0,
    ensures
        parse_commitment(commitment_bytes(b, point, cert)) == Ok::<
            (KZGType, Seq<u8>, Seq<u8>),
            DecodeError,
        >((b, point, cert)),
{
    let e = commitment_bytes(b, point, cert);
    assert(e.subrange(1, 1 + G1_BYTES) =~= point);
    if b == KZGType::Halo2 {
        assert(e.subrange(1 + G1_BYTES, e.len() as int) =~= cert);
    } else {
        assert(cert =~= Seq::<u8>::empty());
    }
}

/// The encoding of a transfer message: tag, then label and ciphertext of each branch.
pub open spec fn msg_bytes(b: KZGType, h0: Seq<u8>, c0: Seq<u8>, h1: Seq<u8>, c1: Seq<u8>) -> Seq<u8> {
    seq![tag_of(b)] + h0 + c0 + h1 + c1
}

/// The part a message encoding of length `len` is cut short in.
pub open spec fn msg_truncated_part(len: nat) -> Part {
    if len < 1 + G2_BYTES {
        Part::Label
    } else if len < 1 + G2_BYTES + MSG_SIZE {
        Part::Ciphertext
    } else if len < 1 + 2 * G2_BYTES + MSG_SIZE {
        Part::Label
    } else {
        Part::Ciphertext
    }
}

/// What a message encoding reads as.
pub open spec fn parse_msg(b: Seq<u8>) -> Result<(KZGType, Seq<u8>, Seq<u8>, Seq<u8>, Seq<u8>), DecodeError> {
    if b.len() == 0 {
        Err(DecodeError::Truncated { part: Part::Tag })
    } else if b[0] > 1 {
        Err(DecodeError::Invalid { part: Part::Tag })
    } else if b.len() < MSG_BYTES {
        Err(DecodeError::Truncated { part: msg_truncated_part(b.len()) })
    } else if b.len() > MSG_BYTES {
        Err(DecodeError::TrailingBytes)
    } else if !g2_valid(b.subrange(1, 65)) || !g2_valid(b.subrange(81, 145)) {
        Err(DecodeError::Invalid { part: Part::Label })
    } else {
        Ok(
            (
                backend_of(b[0]),
                b.subrange(1, 65),
                b.subrange(65, 81),
                b.subrange(81, 145),
                b.subrange(145, 161),
            ),
        )
    }
}

impl Msg {
    pub open spec fn view(&self) -> (KZGType, Seq<u8>, Seq<u8>, Seq<u8>, Seq<u8>) {
        (self.backend, self.h0.enc@, self.c0@, self.h1.enc@, self.c1@)
    }

    pub fn serialize(&self) -> (r: Vec<u8>)
        ensures
            r@ == msg_bytes(self.backend, self.h0.enc@, self.c0@, self.h1.enc@, self.c1@),
    {
        let mut out: Vec<u8> = Vec::new();
        out.push(tag(self.backend));
        append_bytes(&mut out, self.h0.enc.as_slice());
        append_bytes(&mut out, self.c0.as_slice());
        append_bytes(&mut out, self.h1.enc.as_slice());
        append_bytes(&mut out, self.c1.as_slice());
        assert(out@ =~= msg_bytes(self.backend, self.h0.enc@, self.c0@, self.h1.enc@, self.c1@));
        out
    }

    pub fn deserialize(data: &[u8]) -> (r: Result<Msg, LotError>)
        ensures
            match parse_msg(data@) {
                Ok(v) => r matches Ok(m) && m.view() == v && m.wf(),
                Err(e) => r == Err::<Msg, LotError>(LotError::Decode(e)),
            },
    {
        let n = data.len();
        if n == 0 {
            return Err(LotError::Decode(DecodeError::Truncated { part: Part::Tag }));
        }
        if data[0] > 1 {
            return Err(LotError::Decode(DecodeError::Invalid { part: Part::Tag }));
        }
        if n < MSG_BYTES {
            let part = if n < 1 + G2_BYTES {
                Part::Label
            } else if n < 1 + G2_BYTES + MSG_SIZE {
                Part::Ciphertext
            } else if n < 1 + 2 * G2_BYTES + MSG_SIZE {
                Part::Label
            } else {
                Part::Ciphertext
            };
            return Err(LotError::Decode(DecodeError::Truncated { part }));
        }
        if n > MSG_BYTES {
            return Err(LotError::Decode(DecodeError::TrailingBytes));
        }
        let h0 = copy_range(data, 1, 65);
        let h1 = copy_range(data, 81, 145);
        if !g2_check(h0.as_slice()) || !g2_check(h1.as_slice()) {
            return Err(LotError::Decode(DecodeError::Invalid { part: Part::Label }));
        }
        let c0 = copy_block(data, 65);
        let c1 = copy_block(data, 145);
        Ok(Msg { backend: backend_from(data[0]), h0: G2Elem { enc: h0 }, c0, h1: G2Elem { enc: h1 }, c1 })
    }
}

/// Decoding an encoded message with valid labels gives it back.
pub proof fn lemma_msg_round_trip(b: KZGType, h0: Seq<u8>, c0: Seq<u8>, h1: Seq<u8>, c1: Seq<u8>)
    requires
        g2_ok(h0),
        g2_ok(h1),
        c0.len() == MSG_SIZE,
        c1.len() == MSG_SIZE,
    ensures
        parse_msg(msg_bytes(b, h0, c0, h1, c1)) == Ok::<
            (KZGType, Seq<u8>, Seq<u8>, Seq<u8>, Seq<u8>),
            DecodeError,
        >((b, h0, c0, h1, c1)),
{
    let e = msg_bytes(b, h0, c0, h1, c1);
    assert(e.subrange(1, 65) =~= h0);
    assert(e.subrange(65, 81) =~= c0);
    assert(e.subrange(81, 145) =~= h1);
    assert(e.subrange(145, 161) =~= c1);
}

/// The encoding of sender parameters: tag, log-size, then `g0`, `g2` and `s g2`.
pub open spec fn laconic_params_bytes(b: KZGType, k: u32, g0: Seq<u8>, g2: Seq<u8>, s_g2: Seq<u8>) -> Seq<u8> {
    seq![tag_of(b), k as u8] + g0 + g2 + s_g2
}

/// What an encoding of sender parameters reads as.
pub open spec fn parse_laconic_params(b: Seq<u8>) -> Result<(KZGType, u32, Seq<u8>, Seq<u8>, Seq<u8>), DecodeError> {
    if b.len() == 0 {
        Err(DecodeError::Truncated { part: Part::Tag })
    } else if b[0] > 1 {
        Err(DecodeError::Invalid { part: Part::Tag })
    } else if b.len() < 2 {
        Err(DecodeError::Truncated { part: Part::Header })
    } else if b[1] > MAX_LOG_SIZE {
        Err(DecodeError::Invalid { part: Part::Header })
    } else if b.len() < SENDER_PARAMS_BYTES {
        Err(DecodeError::Truncated { part: Part::Generator })
    } else if b.len() > SENDER_PARAMS_BYTES {
        Err(DecodeError::TrailingBytes)
    } else if !g1_valid(b.subrange(2, 34)) || !g2_valid(b.subrange(34, 98)) || !g2_valid(
        b.subrange(98, 162),
    ) {
        Err(DecodeError::Invalid { part: Part::Generator })
    } else {
        Ok(
            (
                backend_of(b[0]),
                b[1] as u32,
                b.subrange(2, 34),
                b.subrange(34, 98),
                b.subrange(98, 162),
            ),
        )
    }
}

impl LaconicParams {
    pub open spec fn view(&self) -> (KZGType, u32, Seq<u8>, Seq<u8>, Seq<u8>) {
        (self.backend, self.k, self.g0.enc@, self.g2.enc@, self.s_g2.enc@)
    }

    pub fn to_bytes(&self) -> (r: Vec<u8>)
        requires
            self.wf(),
        ensures
            r@ == laconic_params_bytes(self.backend, self.k, self.g0.enc@, self.g2.enc@, self.s_g2.enc@),
    {
        let mut out: Vec<u8> = Vec::new();
        out.push(tag(self.backend));
        out.push(self.k as u8);
        append_bytes(&mut out, self.g0.enc.as_slice());
        append_bytes(&mut out, self.g2.enc.as_slice());
        append_bytes(&mut out, self.s_g2.enc.as_slice());
        assert(out@ =~= laconic_params_bytes(self.backend, self.k, self.g0.enc@, self.g2.enc@, self.s_g2.enc@));
        out
    }

    pub fn from_bytes(data: &[u8]) -> (r: Result<LaconicParams, LotError>)
        ensures
            match parse_laconic_params(data@) {
                Ok(v) => r matches Ok(p) && p.view() == v && p.wf(),
                Err(e) => r == Err::<LaconicParams, LotError>(LotError::Decode(e)),
            },
    {
        let n = data.len();
        if n == 0 {
            return Err(LotError::Decode(DecodeError::Truncated { part: Part::Tag }));
        }
        if data[0] > 1 {
            return Err(LotError::Decode(DecodeError::Invalid { part: Part::Tag }));
        }
        if n < 2 {
            return Err(LotError::Decode(DecodeError::Truncated { part: Part::Header }));
        }
        if data[1] as u32 > MAX_LOG_SIZE {
            return Err(LotError::Decode(DecodeError::Invalid { part: Part::Header }));
        }
        if n < SENDER_PARAMS_BYTES {
            return Err(LotError::Decode(DecodeError::Truncated { part: Part::Generator }));
        }
        if n > SENDER_PARAMS_BYTES {
            return Err(LotError::Decode(DecodeError::TrailingBytes));
        }
        let g0 = copy_range(data, 2, 34);
        let g2 = copy_range(data, 34, 98);
        let s_g2 = copy_range(data, 98, 162);
        if !g1_check(g0.as_slice()) || !g2_check(g2.as_slice()) || !g2_check(s_g2.as_slice()) {
            return Err(LotError::Decode(DecodeError::Invalid { part: Part::Generator }));
        }
        Ok(LaconicParams {
            backend: backend_from(data[0]),
            k: data[1] as u32,
            g0: G1Elem { enc: g0 },
            g2: G2Elem { enc: g2 },
            s_g2: G2Elem { enc: s_g2 },
        })
    }
}

/// Decoding encoded well-formed sender parameters gives them back.
pub proof fn lemma_laconic_params_round_trip(b: KZGType, k: u32, g0: Seq<u8>, g2: Seq<u8>, s_g2: Seq<u8>)
    requires
        k <= MAX_LOG_SIZE,
        g1_ok(g0),
        g2_ok(g2),
        g2_ok(s_g2),
    ensures
        parse_laconic_params(laconic_params_bytes(b, k, g0, g2, s_g2)) == Ok::<
            (KZGType, u32, Seq<u8>, Seq<u8>, Seq<u8>),
            DecodeError,
        >((b, k, g0, g2, s_g2)),
{
    let e = laconic_params_bytes(b, k, g0, g2, s_g2);
    assert(e.subrange(2, 34) =~= g0);
    assert(e.subrange(34, 98) =~= g2);
    assert(e.subrange(98, 162) =~= s_g2);
}

/// Length of the encoding of full parameters of log-size `k`.
pub open spec fn key_len(k: nat) -> nat {
    (2 + G1_BYTES * domain_len(k) + 2 * G2_BYTES) as nat
}

/// The `i`-th power in an encoding of full parameters.
pub open spec fn key_power(b: Seq<u8>, i: int) -> Seq<u8> {
    b.subrange(2 + G1_BYTES * i, 2 + G1_BYTES * i + G1_BYTES)
}

/// The tag and log-size of an encoding of full parameters are acceptable.
pub open spec fn key_header_ok(b: Seq<u8>) -> bool {
    b.len() >= 2 && b[0] <= 1 && b[1] <= MAX_LOG_SIZE
}

/// Every power in an encoding of full parameters decodes.
pub open spec fn key_powers_valid(b: Seq<u8>) -> bool {
    forall|i: int| 0 <= i < domain_len(b[1] as nat) ==> g1_valid(#[trigger] key_power(b, i))
}

/// The `g2` of an encoding of full parameters.
pub open spec fn key_g2(b: Seq<u8>) -> Seq<u8> {
    b.subrange(b.len() - 2 * G2_BYTES, b.len() - G2_BYTES)
}

/// The `s g2` of an encoding of full parameters.
pub open spec fn key_s_g2(b: Seq<u8>) -> Seq<u8> {
    b.subrange(b.len() - G2_BYTES, b.len() as int)
}

impl CommitmentKey {
    /// The encoding of full parameters: tag, log-size, the powers, `g2` and `s g2`;
    /// the Lagrange form and the table are recomputed when read back.
    pub fn to_bytes(&self) -> (r: Vec<u8>)
        requires
            self.wf(),
        ensures
            r@.len() == key_len(self.k as nat),
            r@[0] == tag_of(self.backend),
            r@[1] == self.k as u8,
            forall|i: int| 0 <= i < self.powers@.len() ==> #[trigger] key_power(r@, i) == self.powers@[i].enc@,
            key_g2(r@) == self.g2.enc@,
            key_s_g2(r@) == self.s_g2.enc@,
            key_header_ok(r@),
            r@.len() == key_len(r@[1] as nat),
            key_powers_valid(r@),
            g2_valid(key_g2(r@)),
            g2_valid(key_s_g2(r@)),
    {
        let mut out: Vec<u8> = Vec::new();
        out.push(tag(self.backend));
        out.push(self.k as u8);
        let mut i: usize = 0;
        while i < self.powers.len()
            invariant
                self.wf(),
                i <= self.powers@.len(),
                out@.len() == 2 + G1_BYTES * i,
                out@[0] == tag_of(self.backend),
                out@[1] == self.k as u8,
                forall|j: int| 0 <= j < i ==> #[trigger] key_power(out@, j) == self.powers@[j].enc@,
            decreases self.powers@.len() - i,
        {
            let ghost prev = out@;
            assert(self.powers@[i as int].wf());
            append_bytes(&mut out, self.powers[i].enc.as_slice());
            assert forall|j: int| 0 <= j < i + 1 implies #[trigger] key_power(out@, j) == self.powers@[j].enc@ by {
                if j < i {
                    assert(key_power(out@, j) =~= key_power(prev, j));
                } else {
                    assert(key_power(out@, j) =~= self.powers@[j].enc@);
                }
            }
            i = i + 1;
        }
        let ghost mid = out@;
        append_bytes(&mut out, self.g2.enc.as_slice());
        append_bytes(&mut out, self.s_g2.enc.as_slice());
        assert forall|j: int| 0 <= j < self.powers@.len() implies #[trigger] key_power(out@, j) == self.powers@[j].enc@ by {
            assert(key_power(out@, j) =~= key_power(mid, j));
        }
        assert(key_g2(out@) =~= self.g2.enc@);
        assert(key_s_g2(out@) =~= self.s_g2.enc@);
        assert(out@[1] as nat == self.k as nat);
        assert forall|j: int| 0 <= j < domain_len(out@[1] as nat) implies g1_valid(
            #[trigger] key_power(out@, j),
        ) by {
            assert(self.powers@[j].wf());
        }
        out
    }

    /// Reads full parameters back, checking every point.
    pub fn from_bytes(data: &[u8]) -> (r: Result<CommitmentKey, LotError>)
        ensures
            data@.len() == 0 ==> r == Err::<CommitmentKey, LotError>(
                LotError::Decode(DecodeError::Truncated { part: Part::Tag }),
            ),
            data@.len() > 0 && data@[0] > 1 ==> r == Err::<CommitmentKey, LotError>(
                LotError::Decode(DecodeError::Invalid { part: Part::Tag }),
            ),
            data@.len() == 1 && data@[0] <= 1 ==> r == Err::<CommitmentKey, LotError>(
                LotError::Decode(DecodeError::Truncated { part: Part::Header }),
            ),
            data@.len() >= 2 && data@[0] <= 1 && data@[1] > MAX_LOG_SIZE ==> r == Err::<
                CommitmentKey,
                LotError,
            >(LotError::Decode(DecodeError::Invalid { part: Part::Header })),
            key_header_ok(data@) && data@.len() < 2 + G1_BYTES * domain_len(data@[1] as nat) ==> r
                == Err::<CommitmentKey, LotError>(
                LotError::Decode(DecodeError::Truncated { part: Part::Power }),
            ),
            key_header_ok(data@) && 2 + G1_BYTES * domain_len(data@[1] as nat) <= data@.len() < key_len(
                data@[1] as nat,
            ) ==> r == Err::<CommitmentKey, LotError>(
                LotError::Decode(DecodeError::Truncated { part: Part::Generator }),
            ),
            key_header_ok(data@) && data@.len() > key_len(data@[1] as nat) ==> r == Err::<
                CommitmentKey,
                LotError,
            >(LotError::Decode(DecodeError::TrailingBytes)),
            key_header_ok(data@) && data@.len() == key_len(data@[1] as nat) && !key_powers_valid(data@)
                ==> r == Err::<CommitmentKey, LotError>(
                LotError::Decode(DecodeError::Invalid { part: Part::Power }),
            ),
            key_header_ok(data@) && data@.len() == key_len(data@[1] as nat) && key_powers_valid(data@)
                && !(g2_valid(key_g2(data@)) && g2_valid(key_s_g2(data@))) ==> r == Err::<
                CommitmentKey,
                LotError,
            >(LotError::Decode(DecodeError::Invalid { part: Part::Generator })),
            key_header_ok(data@) && data@.len() == key_len(data@[1] as nat) && key_powers_valid(data@)
                && g2_valid(key_g2(data@)) && g2_valid(key_s_g2(data@)) ==> r is Ok,
            r matches Ok(p) ==> {
                &&& p.wf()
                &&& p.backend == backend_of(data@[0])
                &&& p.k == data@[1] as u32
                &&& data@.len() == key_len(p.k as nat)
                &&& forall|i: int| 0 <= i < p.powers@.len() ==> #[trigger] p.powers@[i].enc@ == key_power(data@, i)
                &&& p.g2.enc@ == key_g2(data@)
                &&& p.s_g2.enc@ == key_s_g2(data@)
            },
    {
        let n = data.len();
        if n == 0 {
            return Err(LotError::Decode(DecodeError::Truncated { part: Part::Tag }));
        }
        if data[0] > 1 {
            return Err(LotError::Decode(DecodeError::Invalid { part: Part::Tag }));
        }
        if n < 2 {
            return Err(LotError::Decode(DecodeError::Truncated { part: Part::Header }));
        }
        if data[1] as u32 > MAX_LOG_SIZE {
            return Err(LotError::Decode(DecodeError::Invalid { part: Part::Header }));
        }
        let k = data[1] as u32;
        let size = domain_size(k);
        let wide_end: u128 = 2 + 32 * (size as u128);
        if (n as u128) < wide_end {
            return Err(LotError::Decode(DecodeError::Truncated { part: Part::Power }));
        }
        if (n as u128) < wide_end + 128 {
            return Err(LotError::Decode(DecodeError::Truncated { part: Part::Generator }));
        }
        if (n as u128) > wide_end + 128 {
            return Err(LotError::Decode(DecodeError::TrailingBytes));
        }
        let powers_end = wide_end as usize;
        let mut powers: Vec<G1Elem> = Vec::new();
        let mut i: usize = 0;
        while i < size
            invariant
                i <= size,
                powers_end == 2 + G1_BYTES * size,
                n == data@.len(),
                data@[0] <= 1,
                data@[1] <= MAX_LOG_SIZE,
                k == data@[1] as u32,
                size == domain_len(k as nat),
                n == powers_end + 2 * G2_BYTES,
                powers@.len() == i,
                all_g1_ok(powers@),
                forall|j: int| 0 <= j < i ==> #[trigger] powers@[j].enc@ == key_power(data@, j),
            decreases size - i,
        {
            let start = 2 + G1_BYTES * i;
            let p = copy_range(data, start, start + G1_BYTES);
            if !g1_check(p.as_slice()) {
                assert(p@ == key_power(data@, i as int));
                return Err(LotError::Decode(DecodeError::Invalid { part: Part::Power }));
            }
            let ghost prev = powers@;
            powers.push(G1Elem { enc: p });
            assert(powers@[i as int].enc@ == key_power(data@, i as int));
            assert forall|j: int| 0 <= j < i + 1 implies #[trigger] powers@[j].enc@ == key_power(data@, j) by {
                if j < i {
                    assert(powers@[j] == prev[j]);
                }
            }
            i = i + 1;
        }
        assert(key_powers_valid(data@)) by {
            assert forall|j: int| 0 <= j < domain_len(data@[1] as nat) implies g1_valid(
                #[trigger] key_power(data@, j),
            ) by {
                assert(powers@[j].wf());
            }
        }
        let g2 = copy_range(data, powers_end, powers_end + G2_BYTES);
        let s_g2 = copy_range(data, powers_end + G2_BYTES, n);
        assert(g2@ == key_g2(data@));
        assert(s_g2@ == key_s_g2(data@));
        if !g2_check(g2.as_slice()) || !g2_check(s_g2.as_slice()) {
            return Err(LotError::Decode(DecodeError::Invalid { part: Part::Generator }));
        }
        let ghost pw = powers@;
        let key = CommitmentKey::from_parts(backend_from(data[0]), k, powers, G2Elem { enc: g2 }, G2Elem { enc: s_g2 });
        assert forall|i: int| 0 <= i < key.powers@.len() implies #[trigger] key.powers@[i].enc@ == key_power(data@, i) by {
            assert(g1_encs(key.powers@)[i] == g1_encs(pw)[i]);
        }
        Ok(key)
    }
}

/// A message as raw bytes, before its labels are checked.
#[derive(Clone, Debug, PartialEq, Eq)]
pub struct SerializableMsg {
    pub h: [(Vec<u8>, [u8; MSG_SIZE]); 2],
}

impl Msg {
    /// The raw form of the message; the backend tag is not part of it.
    pub fn to_serializable(&self) -> (s: SerializableMsg)
        ensures
            s.h[0].0@ == self.h0.enc@,
            s.h[0].1 == self.c0,
            s.h[1].0@ == self.h1.enc@,
            s.h[1].1 == self.c1,
    {
        SerializableMsg {
            h: [(self.h0.duplicate().enc, self.c0), (self.h1.duplicate().enc, self.c1)],
        }
    }

    /// A message of backend `backend` from its raw form, if both labels are
    /// valid G2 encodings.
    pub fn try_from_serializable(s: &SerializableMsg, backend: KZGType) -> (r: Result<Msg, LotError>)
        ensures
            (g2_ok(s.h[0].0@) && g2_ok(s.h[1].0@)) ==> (r matches Ok(m) && {
                &&& m.wf()
                &&& m.backend == backend
                &&& m.h0.enc@ == s.h[0].0@
                &&& m.c0 == s.h[0].1
                &&& m.h1.enc@ == s.h[1].0@
                &&& m.c1 == s.h[1].1
            }),
            !(g2_ok(s.h[0].0@) && g2_ok(s.h[1].0@)) ==> r == Err::<Msg, LotError>(
                LotError::Decode(DecodeError::Invalid { part: Part::Label }),
            ),
    {
        let a = &s.h[0].0;
        let b = &s.h[1].0;
        if a.len() != G2_BYTES || b.len() != G2_BYTES || !g2_check(a.as_slice()) || !g2_check(b.as_slice()) {
            return Err(LotError::Decode(DecodeError::Invalid { part: Part::Label }));
        }
        let h0 = G2Elem { enc: copy_range(a.as_slice(), 0, G2_BYTES) };
        let h1 = G2Elem { enc: copy_range(b.as_slice(), 0, G2_BYTES) };
        assert(a@.subrange(0, G2_BYTES as int) =~= a@);
        assert(b@.subrange(0, G2_BYTES as int) =~= b@);
        Ok(Msg { backend, h0, c0: s.h[0].1, h1, c1: s.h[1].1 })
    }
}

/// Little-endian bytes of a 64-bit value.
pub open spec fn le64(v: u64) -> Seq<u8> {
    seq![
        ((v >> 0u64) & 0xffu64) as u8,
        ((v >> 8u64) & 0xffu64) as u8,
        ((v >> 16u64) & 0xffu64) as u8,
        ((v >> 24u64) & 0xffu64) as u8,
        ((v >> 32u64) & 0xffu64) as u8,
        ((v >> 40u64) & 0xffu64) as u8,
        ((v >> 48u64) & 0xffu64) as u8,
        ((v >> 56u64) & 0xffu64) as u8,
    ]
}

/// The little-endian bytes of `v`.
fn u64_to_le(v: u64) -> (r: [u8; 8])
    ensures
        r@ == le64(v),
{
    let out: [u8; 8] = [
        ((v >> 0u64) & 0xffu64) as u8,
        ((v >> 8u64) & 0xffu64) as u8,
        ((v >> 16u64) & 0xffu64) as u8,
        ((v >> 24u64) & 0xffu64) as u8,
        ((v >> 32u64) & 0xffu64) as u8,
        ((v >> 40u64) & 0xffu64) as u8,
        ((v >> 48u64) & 0xffu64) as u8,
        ((v >> 56u64) & 0xffu64) as u8,
    ];
    assert(out@ =~= le64(v));
    out
}

proof fn lemma_le64_of_bytes(b0: u8, b1: u8, b2: u8, b3: u8, b4: u8, b5: u8, b6: u8, b7: u8, v: u64)
    requires
        v == (b0 as u64) | ((b1 as u64) << 8u64) | ((b2 as u64) << 16u64) | ((b3 as u64) << 24u64)
            | ((b4 as u64) << 32u64) | ((b5 as u64) << 40u64) | ((b6 as u64) << 48u64) | ((
        b7 as u64) << 56u64),
    ensures
        le64(v) == seq![b0, b1, b2, b3, b4, b5, b6, b7],
{
    assert(((v >> 0u64) & 0xffu64) as u8 == b0) by (bit_vector)
        requires
            v == (b0 as u64) | ((b1 as u64) << 8u64) | ((b2 as u64) << 16u64) | ((b3 as u64) << 24u64)
                | ((b4 as u64) << 32u64) | ((b5 as u64) << 40u64) | ((b6 as u64) << 48u64) | ((
            b7 as u64) << 56u64),
    ;
    assert(((v >> 8u64) & 0xffu64) as u8 == b1) by (bit_vector)
        requires
            v == (b0 as u64) | ((b1 as u64) << 8u64) | ((b2 as u64) << 16u64) | ((b3 as u64) << 24u64)
                | ((b4 as u64) << 32u64) | ((b5 as u64) << 40u64) | ((b6 as u64) << 48u64) | ((
            b7 as u64) << 56u64),
    ;
    assert(((v >> 16u64) & 0xffu64) as u8 == b2) by (bit_vector)
        requires
            v == (b0 as u64) | ((b1 as u64) << 8u64) | ((b2 as u64) << 16u64) | ((b3 as u64) << 24u64)
                | ((b4 as u64) << 32u64) | ((b5 as u64) << 40u64) | ((b6 as u64) << 48u64) | ((
            b7 as u64) << 56u64),
    ;
    assert(((v >> 24u64) & 0xffu64) as u8 == b3) by (bit_vector)
        requires
            v == (b0 as u64) | ((b1 as u64) << 8u64) | ((b2 as u64) << 16u64) | ((b3 as u64) << 24u64)
                | ((b4 as u64) << 32u64) | ((b5 as u64) << 40u64) | ((b6 as u64) << 48u64) | ((
            b7 as u64) << 56u64),
    ;
    assert(((v >> 32u64) & 0xffu64) as u8 == b4) by (bit_vector)
        requires
            v == (b0 as u64) | ((b1 as u64) << 8u64) | ((b2 as u64) << 16u64) | ((b3 as u64) << 24u64)
                | ((b4 as u64) << 32u64) | ((b5 as u64) << 40u64) | ((b6 as u64) << 48u64) | ((
            b7 as u64) << 56u64),
    ;
    assert(((v >> 40u64) & 0xffu64) as u8 == b5) by (bit_vector)
        requires
            v == (b0 as u64) | ((b1 as u64) << 8u64) | ((b2 as u64) << 16u64) | ((b3 as u64) << 24u64)
                | ((b4 as u64) << 32u64) | ((b5 as u64) << 40u64) | ((b6 as u64) << 48u64) | ((
            b7 as u64) << 56u64),
    ;
    assert(((v >> 48u64) & 0xffu64) as u8 == b6) by (bit_vector)
        requires
            v == (b0 as u64) | ((b1 as u64) << 8u64) | ((b2 as u64) << 16u64) | ((b3 as u64) << 24u64)
                | ((b4 as u64) << 32u64) | ((b5 as u64) << 40u64) | ((b6 as u64) << 48u64) | ((
            b7 as u64) << 56u64),
    ;
    assert(((v >> 56u64) & 0xffu64) as u8 == b7) by (bit_vector)
        requires
            v == (b0 as u64) | ((b1 as u64) << 8u64) | ((b2 as u64) << 16u64) | ((b3 as u64) << 24u64)
                | ((b4 as u64) << 32u64) | ((b5 as u64) << 40u64) | ((b6 as u64) << 48u64) | ((
            b7 as u64) << 56u64),
    ;
    assert(le64(v) =~= seq![b0, b1, b2, b3, b4, b5, b6, b7]);
}

/// Distinct values have distinct little-endian bytes.
proof fn lemma_le64_injective(v: u64, w: u64)
    requires
        le64(v) == le64(w),
    ensures
        v == w,
{
    assert(le64(v)[0] == le64(w)[0]);
    assert(((v >> 0u64) & 0xffu64) as u8 == ((w >> 0u64) & 0xffu64) as u8);
    assert(le64(v)[1] == le64(w)[1]);
    assert(((v >> 8u64) & 0xffu64) as u8 == ((w >> 8u64) & 0xffu64) as u8);
    assert(le64(v)[2] == le64(w)[2]);
    assert(((v >> 16u64) & 0xffu64) as u8 == ((w >> 16u64) & 0xffu64) as u8);
    assert(le64(v)[3] == le64(w)[3]);
    assert(((v >> 24u64) & 0xffu64) as u8 == ((w >> 24u64) & 0xffu64) as u8);
    assert(le64(v)[4] == le64(w)[4]);
    assert(((v >> 32u64) & 0xffu64) as u8 == ((w >> 32u64) & 0xffu64) as u8);
    assert(le64(v)[5] == le64(w)[5]);
    assert(((v >> 40u64) & 0xffu64) as u8 == ((w >> 40u64) & 0xffu64) as u8);
    assert(le64(v)[6] == le64(w)[6]);
    assert(((v >> 48u64) & 0xffu64) as u8 == ((w >> 48u64) & 0xffu64) as u8);
    assert(le64(v)[7] == le64(w)[7]);
    assert(((v >> 56u64) & 0xffu64) as u8 == ((w >> 56u64) & 0xffu64) as u8);
    assert(v == w) by (bit_vector)
        requires
            ((v >> 0u64) & 0xffu64) as u8 == ((w >> 0u64) & 0xffu64) as u8,
            ((v >> 8u64) & 0xffu64) as u8 == ((w >> 8u64) & 0xffu64) as u8,
            ((v >> 16u64) & 0xffu64) as u8 == ((w >> 16u64) & 0xffu64) as u8,
            ((v >> 24u64) & 0xffu64) as u8 == ((w >> 24u64) & 0xffu64) as u8,
            ((v >> 32u64) & 0xffu64) as u8 == ((w >> 32u64) & 0xffu64) as u8,
            ((v >> 40u64) & 0xffu64) as u8 == ((w >> 40u64) & 0xffu64) as u8,
            ((v >> 48u64) & 0xffu64) as u8 == ((w >> 48u64) & 0xffu64) as u8,
            ((v >> 56u64) & 0xffu64) as u8 == ((w >> 56u64) & 0xffu64) as u8,
    ;
}

/// The 64-bit value whose little-endian bytes are `b[pos..pos + 8]`.
fn read_u64_le(b: &[u8], pos: usize) -> (v: u64)
    requires
        pos + 8 <= b@.len(),
    ensures
        le64(v) == b@.subrange(pos as int, pos + 8),
{
    let v: u64 = (b[pos] as u64) | ((b[pos + 1] as u64) << 8u64) | ((b[pos + 2] as u64) << 16u64) | ((
    b[pos + 3] as u64) << 24u64) | ((b[pos + 4] as u64) << 32u64) | ((b[pos + 5] as u64) << 40u64) | ((
    b[pos + 6] as u64) << 48u64) | ((b[pos + 7] as u64) << 56u64);
    proof {
        lemma_le64_of_bytes(
            b@[pos as int],
            b@[pos + 1],
            b@[pos + 2],
            b@[pos + 3],
            b@[pos + 4],
            b@[pos + 5],
            b@[pos + 6],
            b@[pos + 7],
            v,
        );
    }
    assert(b@.subrange(pos as int, pos + 8) =~= seq![
        b@[pos as int],
        b@[pos + 1],
        b@[pos + 2],
        b@[pos + 3],
        b@[pos + 4],
        b@[pos + 5],
        b@[pos + 6],
        b@[pos + 7],
    ]);
    v
}

/// Length of one framed message: its length prefix and its encoding.
pub const FRAME_BYTES: usize = 169;

/// The encoding of a message.
pub open spec fn msg_enc(m: Msg) -> Seq<u8> {
    msg_bytes(m.backend, m.h0.enc@, m.c0@, m.h1.enc@, m.c1@)
}

/// The length prefix of the `i`-th frame of a framed list.
pub open spec fn frame_len_at(data: Seq<u8>, i: int) -> Seq<u8> {
    data.subrange(8 + FRAME_BYTES * i, 16 + FRAME_BYTES * i)
}

/// The message encoding in the `i`-th frame of a framed list.
pub open spec fn frame_body_at(data: Seq<u8>, i: int) -> Seq<u8> {
    data.subrange(16 + FRAME_BYTES * i, 16 + FRAME_BYTES * i + MSG_BYTES)
}

/// `data` is the framed list of `ms`: their count, then each encoding behind
/// its length, all lengths as little-endian 64-bit values.
pub open spec fn frames_list(data: Seq<u8>, ms: Seq<Msg>) -> bool {
    &&& data.len() == 8 + FRAME_BYTES * ms.len()
    &&& data.subrange(0, 8) == le64(ms.len() as u64)
    &&& forall|i: int| 0 <= i < ms.len() ==> #[trigger] frame_len_at(data, i) == le64(MSG_BYTES as u64)
    &&& forall|i: int| 0 <= i < ms.len() ==> #[trigger] frame_body_at(data, i) == msg_enc(ms[i])
}

/// Every message of the list has valid labels.
pub open spec fn all_msgs_wf(ms: Seq<Msg>) -> bool {
    forall|i: int| 0 <= i < ms.len() ==> (#[trigger] ms[i]).wf()
}

/// The framed list of the messages.
pub fn serialize_ciphertexts(ciphertexts: &[Msg]) -> (r: Vec<u8>)
    requires
        ciphertexts@.len() <= (usize::MAX - 8) / (FRAME_BYTES as int),
        all_msgs_wf(ciphertexts@),
    ensures
        frames_list(r@, ciphertexts@),
{
    let n = ciphertexts.len();
    let mut out: Vec<u8> = Vec::new();
    let count = u64_to_le(n as u64);
    append_bytes(&mut out, count.as_slice());
    let mut i: usize = 0;
    while i < n
        invariant
            i <= n,
            n == ciphertexts@.len(),
            n <= (usize::MAX - 8) / (FRAME_BYTES as int),
            all_msgs_wf(ciphertexts@),
            out@.len() == 8 + FRAME_BYTES * i,
            out@.subrange(0, 8) == le64(n as u64),
            forall|j: int| 0 <= j < i ==> #[trigger] frame_len_at(out@, j) == le64(MSG_BYTES as u64),
            forall|j: int| 0 <= j < i ==> #[trigger] frame_body_at(out@, j) == msg_enc(ciphertexts@[j]),
        decreases n - i,
    {
        let ghost prev = out@;
        let bytes = ciphertexts[i].serialize();
        assert(bytes@.len() == MSG_BYTES);
        let len = u64_to_le(MSG_BYTES as u64);
        append_bytes(&mut out, len.as_slice());
        append_bytes(&mut out, bytes.as_slice());
        assert(out@.subrange(0, 8) =~= prev.subrange(0, 8));
        assert forall|j: int| 0 <= j < i + 1 implies #[trigger] frame_len_at(out@, j) == le64(
            MSG_BYTES as u64,
        ) by {
            if j < i {
                assert(frame_len_at(out@, j) =~= frame_len_at(prev, j));
            } else {
                assert(frame_len_at(out@, j) =~= len@);
            }
        }
        assert forall|j: int| 0 <= j < i + 1 implies #[trigger] frame_body_at(out@, j) == msg_enc(
            ciphertexts@[j],
        ) by {
            if j < i {
                assert(frame_body_at(out@, j) =~= frame_body_at(prev, j));
            } else {
                assert(frame_body_at(out@, j) =~= bytes@);
            }
        }
        i = i + 1;
    }
    out
}

/// Reads a framed list of messages back. It succeeds exactly on the framed
/// lists of messages with valid labels.
pub fn deserialize_ciphertexts(data: &[u8]) -> (r: Result<Vec<Msg>, LotError>)
    ensures
        r matches Ok(v) ==> all_msgs_wf(v@) && frames_list(data@, v@),
        (exists|ms: Seq<Msg>| all_msgs_wf(ms) && #[trigger] frames_list(data@, ms)) ==> r is Ok,
{
    let n = data.len();
    if n < 8 {
        proof {
            lemma_no_frames_when_short(data@);
        }
        return Err(LotError::Decode(DecodeError::Truncated { part: Part::Length }));
    }
    let count = read_u64_le(data, 0);
    if count as u128 * 169 + 8 != n as u128 {
        proof {
            assert(data@.len() == n);
            lemma_frames_length(data@, count);
        }
        return Err(LotError::Decode(DecodeError::Truncated { part: Part::Length }));
    }
    let count = count as usize;
    let mut out: Vec<Msg> = Vec::new();
    let mut i: usize = 0;
    while i < count
        invariant
            i <= count,
            n == data@.len(),
            n == 8 + FRAME_BYTES * count,
            data@.subrange(0, 8) == le64(count as u64),
            out@.len() == i,
            all_msgs_wf(out@),
            forall|j: int| 0 <= j < i ==> #[trigger] frame_len_at(data@, j) == le64(MSG_BYTES as u64),
            forall|j: int| 0 <= j < i ==> #[trigger] frame_body_at(data@, j) == msg_enc(out@[j]),
            forall|ms: Seq<Msg>|
                all_msgs_wf(ms) && #[trigger] frames_list(data@, ms) ==> ms.len() == count && forall|
                    j: int,
                | 0 <= j < i ==> msg_enc(#[trigger] ms[j]) == msg_enc(out@[j]),
        decreases count - i,
    {
        let start = 8 + FRAME_BYTES * i;
        let len = read_u64_le(data, start);
        let slice_end = start + FRAME_BYTES;
        let body = copy_range(data, start + 8, slice_end);
        if len != MSG_BYTES as u64 {
            proof {
                lemma_frame_len_fixed(data@, count, i as int, len);
            }
            return Err(LotError::Decode(DecodeError::Truncated { part: Part::Length }));
        }
        let m = match Msg::deserialize(body.as_slice()) {
            Ok(m) => m,
            Err(e) => {
                proof {
                    lemma_frame_body_parses(data@, count, i as int, body@);
                }
                return Err(e);
            },
        };
        let ghost prev = out@;
        assert(msg_enc(m) =~= body@);
        assert(body@ == frame_body_at(data@, i as int));
        assert(le64(len) == frame_len_at(data@, i as int));
        out.push(m);
        assert forall|j: int| 0 <= j < i + 1 implies #[trigger] frame_body_at(data@, j) == msg_enc(out@[j]) by {
            if j < i {
                assert(out@[j] == prev[j]);
            }
        }
        assert forall|ms: Seq<Msg>|
            all_msgs_wf(ms) && #[trigger] frames_list(data@, ms) implies ms.len() == count && forall|
                j: int,
            | 0 <= j < i + 1 ==> msg_enc(#[trigger] ms[j]) == msg_enc(out@[j]) by {
            assert forall|j: int| 0 <= j < i + 1 implies msg_enc(#[trigger] ms[j]) == msg_enc(out@[j]) by {
                if j < i {
                    assert(out@[j] == prev[j]);
                } else {
                    assert(frame_body_at(data@, j) == msg_enc(ms[j]));
                }
            }
        }
        i = i + 1;
    }
    assert(frames_list(data@, out@));
    Ok(out)
}

proof fn lemma_no_frames_when_short(data: Seq<u8>)
    requires
        data.len() < 8,
    ensures
        !(exists|ms: Seq<Msg>| all_msgs_wf(ms) && #[trigger] frames_list(data, ms)),
{
}

proof fn lemma_frames_length(data: Seq<u8>, count: u64)
    requires
        8 <= data.len() <= usize::MAX,
        le64(count) == data.subrange(0, 8),
        count as int * 169 + 8 != data.len(),
    ensures
        !(exists|ms: Seq<Msg>| all_msgs_wf(ms) && #[trigger] frames_list(data, ms)),
{
    if exists|ms: Seq<Msg>| all_msgs_wf(ms) && #[trigger] frames_list(data, ms) {
        let ms = choose|ms: Seq<Msg>| all_msgs_wf(ms) && #[trigger] frames_list(data, ms);
        lemma_le64_injective(count, ms.len() as u64);
    }
}

proof fn lemma_frame_len_fixed(data: Seq<u8>, count: usize, i: int, len: u64)
    requires
        0 <= i < count,
        data.len() == 8 + FRAME_BYTES * count,
        le64(len) == frame_len_at(data, i),
        len != MSG_BYTES as u64,
        forall|ms: Seq<Msg>|
            all_msgs_wf(ms) && #[trigger] frames_list(data, ms) ==> ms.len() == count,
    ensures
        !(exists|ms: Seq<Msg>| all_msgs_wf(ms) && #[trigger] frames_list(data, ms)),
{
    if exists|ms: Seq<Msg>| all_msgs_wf(ms) && #[trigger] frames_list(data, ms) {
        let ms = choose|ms: Seq<Msg>| all_msgs_wf(ms) && #[trigger] frames_list(data, ms);
        assert(frame_len_at(data, i) == le64(MSG_BYTES as u64));
        lemma_le64_injective(len, MSG_BYTES as u64);
    }
}

proof fn lemma_frame_body_parses(data: Seq<u8>, count: usize, i: int, body: Seq<u8>)
    requires
        0 <= i < count,
        data.len() == 8 + FRAME_BYTES * count,
        body == frame_body_at(data, i),
        parse_msg(body) is Err,
        forall|ms: Seq<Msg>|
            all_msgs_wf(ms) && #[trigger] frames_list(data, ms) ==> ms.len() == count,
    ensures
        !(exists|ms: Seq<Msg>| all_msgs_wf(ms) && #[trigger] frames_list(data, ms)),
{
    if exists|ms: Seq<Msg>| all_msgs_wf(ms) && #[trigger] frames_list(data, ms) {
        let ms = choose|ms: Seq<Msg>| all_msgs_wf(ms) && #[trigger] frames_list(data, ms);
        assert(frame_body_at(data, i) == msg_enc(ms[i]));
        let m = ms[i];
        assert(m.wf());
        lemma_msg_round_trip(m.backend, m.h0.enc@, m.c0@, m.h1.enc@, m.c1@);
    }
}

} // verus!
