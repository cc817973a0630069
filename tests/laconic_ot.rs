use laconic_kzg::{
    Choice, CommitmentKey, KZGType, LaconicOTRecv, LaconicOTSender, LotError, ConfigError,
    Scalar, MSG_SIZE,
};

fn choices(bits: &[u8]) -> Vec<Choice> {
    bits.iter().map(|b| if *b == 1 { Choice::One } else { Choice::Zero }).collect()
}

fn tau() -> Scalar {
    Scalar::from_u64(0x1234_5678_9abc_def1)
}

fn fixed_key(backend: KZGType, k: u32) -> CommitmentKey {
    CommitmentKey::setup_with_secret(backend, k, &tau()).unwrap()
}

#[test]
fn laconic_ot_test_laconic_ot() {
    let degree = 2;
    let ck = CommitmentKey::setup(KZGType::Plain, degree).unwrap();

    let receiver = LaconicOTRecv::new(&ck, &[Choice::Zero, Choice::One, Choice::Zero, Choice::One]).unwrap();
    let sender = LaconicOTSender::new(&ck.to_sender_params(), &receiver.commitment(), true).unwrap();

    let m0 = [0u8; MSG_SIZE];
    let m1 = [1u8; MSG_SIZE];
    let msg = sender.send(0, &m0, &m1).unwrap();
    let res = receiver.recv(0, &msg).unwrap();
    assert_eq!(res, m0);
}

#[test]
fn concrete_transfer_at_two_indices() {
    let ck = CommitmentKey::setup(KZGType::Plain, 4).unwrap();
    let receiver = LaconicOTRecv::new(&ck, &choices(&[0, 1, 0, 1])).unwrap();
    let sender = LaconicOTSender::new(&ck.to_sender_params(), &receiver.commitment(), true).unwrap();
    let m0 = [0u8; 16];
    let m1 = [1u8; 16];
    let msg0 = sender.send(0, &m0, &m1).unwrap();
    assert_eq!(receiver.recv(0, &msg0).unwrap(), m0);
    let msg1 = sender.send(1, &m0, &m1).unwrap();
    assert_eq!(receiver.recv(1, &msg1).unwrap(), m1);
}

#[test]
fn transfer_correct_at_every_index() {
    let ck = CommitmentKey::setup(KZGType::Plain, 3).unwrap();
    let bits = choices(&[1, 0, 0, 1, 1, 0]);
    let receiver = LaconicOTRecv::new(&ck, &bits).unwrap();
    let sender = LaconicOTSender::new(&ck.to_sender_params(), &receiver.commitment(), true).unwrap();
    for i in 0..8usize {
        let m0 = [i as u8; 16];
        let m1 = [0x80 | i as u8; 16];
        let msg = sender.send(i, &m0, &m1).unwrap();
        let expected = if i < bits.len() && bits[i] == Choice::One { m1 } else { m0 };
        assert_eq!(receiver.recv(i, &msg).unwrap(), expected);
    }
}

#[test]
fn unchosen_message_is_not_recovered() {
    let ck = CommitmentKey::setup(KZGType::Plain, 2).unwrap();
    let receiver = LaconicOTRecv::new(&ck, &choices(&[0, 1])).unwrap();
    let sender = LaconicOTSender::new(&ck.to_sender_params(), &receiver.commitment(), true).unwrap();
    let m0 = [7u8; 16];
    let m1 = [9u8; 16];
    let msg = sender.send(1, &m0, &m1).unwrap();
    let out = receiver.recv(1, &msg).unwrap();
    assert_eq!(out, m1);
    assert_ne!(out, m0);
    assert_ne!(msg.c1, m1);
}

#[test]
fn too_many_bits_is_a_configuration_error() {
    let ck = fixed_key(KZGType::Plain, 2);
    let r = LaconicOTRecv::new(&ck, &choices(&[0, 1, 0, 1, 1]));
    assert_eq!(
        r.unwrap_err(),
        LotError::Configuration(ConfigError::TooManyBits { capacity: 4, got: 5 })
    );
}

#[test]
fn index_out_of_range_is_a_usage_error() {
    let ck = fixed_key(KZGType::Plain, 2);
    let receiver = LaconicOTRecv::new(&ck, &choices(&[1])).unwrap();
    let sender = LaconicOTSender::new(&ck.to_sender_params(), &receiver.commitment(), true).unwrap();
    let m = [0u8; 16];
    assert_eq!(sender.send(4, &m, &m).unwrap_err(), LotError::Usage { index: 4, size: 4 });
    let msg = sender.send(3, &m, &m).unwrap();
    assert_eq!(receiver.recv(4, &msg).unwrap_err(), LotError::Usage { index: 4, size: 4 });
}

#[test]
fn mismatched_backends_are_rejected() {
    let plain = fixed_key(KZGType::Plain, 2);
    let halo2 = fixed_key(KZGType::Halo2, 2);
    assert_eq!(
        LaconicOTRecv::new(&halo2, &choices(&[1])).unwrap_err(),
        LotError::Configuration(ConfigError::BackendMismatch)
    );
    assert_eq!(
        LaconicOTRecv::new_halo2(&plain, &choices(&[1]), vec![1, 2]).unwrap_err(),
        LotError::Configuration(ConfigError::BackendMismatch)
    );
    let receiver = LaconicOTRecv::new(&plain, &choices(&[1])).unwrap();
    assert_eq!(
        LaconicOTSender::new(&halo2.to_sender_params(), &receiver.commitment(), true).unwrap_err(),
        LotError::Configuration(ConfigError::BackendMismatch)
    );
    let certified = LaconicOTRecv::new_halo2(&halo2, &choices(&[1]), vec![5]).unwrap();
    let sender = LaconicOTSender::new(&halo2.to_sender_params(), &certified.commitment(), true).unwrap();
    let m = [3u8; 16];
    let msg = sender.send(0, &m, &m).unwrap();
    assert_eq!(
        receiver.recv(0, &msg).unwrap_err(),
        LotError::Configuration(ConfigError::BackendMismatch)
    );
}

#[test]
fn rejected_certificate_blocks_the_sender() {
    let halo2 = fixed_key(KZGType::Halo2, 2);
    let receiver = LaconicOTRecv::new_halo2(&halo2, &choices(&[1, 0]), vec![9, 9, 9]).unwrap();
    assert_eq!(
        LaconicOTSender::new(&halo2.to_sender_params(), &receiver.commitment(), false).unwrap_err(),
        LotError::VerificationFailure
    );
}

#[test]
fn commitment_is_deterministic() {
    let ck = fixed_key(KZGType::Plain, 3);
    let bits = choices(&[1, 1, 0, 1]);
    let a = laconic_kzg::ot::commit(&ck, &bits).unwrap();
    let b = laconic_kzg::ot::commit(&ck, &bits).unwrap();
    assert_eq!(a, b);
    let r1 = LaconicOTRecv::new(&ck, &bits).unwrap();
    let r2 = LaconicOTRecv::new(&ck, &bits).unwrap();
    assert_eq!(r1.commitment(), r2.commitment());
    assert_eq!(r1.commitment().point, a);
    let other = laconic_kzg::ot::commit(&ck, &choices(&[1, 1, 1, 1])).unwrap();
    assert_ne!(a, other);
}

#[test]
fn backends_commit_alike_and_both_transfer() {
    let plain = fixed_key(KZGType::Plain, 3);
    let halo2 = fixed_key(KZGType::Halo2, 3);
    let bits = choices(&[0, 1, 1, 0, 1]);
    let rp = LaconicOTRecv::new(&plain, &bits).unwrap();
    let rh = LaconicOTRecv::new_halo2(&halo2, &bits, vec![0xaa; 8]).unwrap();
    assert_eq!(rp.commitment().point, rh.commitment().point);
    let sp = LaconicOTSender::new(&plain.to_sender_params(), &rp.commitment(), true).unwrap();
    let sh = LaconicOTSender::new(&halo2.to_sender_params(), &rh.commitment(), true).unwrap();
    for i in 0..5usize {
        let m0 = [1u8; 16];
        let m1 = [2u8; 16];
        let a = rp.recv(i, &sp.send(i, &m0, &m1).unwrap()).unwrap();
        let b = rh.recv(i, &sh.send(i, &m0, &m1).unwrap()).unwrap();
        assert_eq!(a, b);
        assert_eq!(a, if bits[i] == Choice::One { m1 } else { m0 });
    }
}

#[test]
fn setup_beyond_the_field_domain_fails() {
    assert_eq!(
        CommitmentKey::setup(KZGType::Plain, 28).unwrap_err(),
        LotError::Configuration(ConfigError::DomainTooLarge { k: 28 })
    );
}

#[test]
fn choice_helpers() {
    assert_eq!(Choice::from_bool(true), Choice::One);
    assert_eq!(Choice::from_bool(false), Choice::Zero);
    assert_eq!(Choice::One.to_fr(), Scalar::one());
    assert_eq!(Choice::Zero.to_fr(), Scalar::zero());
    let c = Choice::random();
    assert!(c == Choice::One || c == Choice::Zero);
}

#[test]
fn masking_is_an_involution_and_not_the_identity() {
    let pad = vec![1u8, 2, 3, 4, 5];
    let m = [0x5au8; 16];
    let ct = laconic_kzg::ot::encrypt(&pad, &m);
    assert_ne!(ct, m);
    assert_eq!(laconic_kzg::ot::decrypt(&pad, &ct), m);
    let mut expected = [0u8; 16];
    let mut h = blake3::Hasher::new();
    h.update(&pad);
    h.finalize_xof().fill(&mut expected);
    for i in 0..16 {
        expected[i] ^= m[i];
    }
    assert_eq!(ct, expected);
}
