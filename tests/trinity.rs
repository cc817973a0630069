use ark_ec::{AffineRepr, CurveGroup};
use ark_serialize::CanonicalSerialize;
use laconic_kzg::{
    Choice, CommitmentKey, ConfigError, DecodeError, G1Elem, G2Elem, KZGType, LaconicParams,
    LotError, Msg, Part, Scalar, Trinity, TrinityCom, TrinityInnerParams, MSG_SIZE,
};

fn g1_bytes(p: ark_bn254::G1Affine) -> G1Elem {
    let mut enc = Vec::new();
    p.serialize_compressed(&mut enc).unwrap();
    G1Elem { enc }
}

fn g2_bytes(p: ark_bn254::G2Affine) -> G2Elem {
    let mut enc = Vec::new();
    p.serialize_compressed(&mut enc).unwrap();
    G2Elem { enc }
}

fn random_g2() -> G2Elem {
    let s = <ark_bn254::Fr as ark_std::UniformRand>::rand(&mut rand::thread_rng());
    g2_bytes((ark_bn254::G2Affine::generator() * s).into_affine())
}

fn bits4() -> Vec<Choice> {
    vec![Choice::Zero, Choice::One, Choice::Zero, Choice::One]
}

#[test]
fn commit_test_plain_laconic_ot() {
    let trinity = Trinity::setup(KZGType::Plain, 2).unwrap();
    let ot_receiver = trinity
        .create_ot_receiver(&bits4(), Vec::new())
        .expect("Error while create the ot receiver.");
    let commitment = ot_receiver.commitment();
    let ot_sender = trinity.create_ot_sender(&commitment, true).unwrap();

    let m0 = [0u8; MSG_SIZE];
    let m1 = [1u8; MSG_SIZE];
    let msg = ot_sender.send(0, &m0, &m1).unwrap();
    let res = ot_receiver.recv(0, &msg).unwrap();
    assert_eq!(res, m0);
}

#[test]
fn commit_test_halo2_laconic_ot() {
    let trinity = Trinity::setup(KZGType::Halo2, 4).unwrap();
    let ot_receiver = trinity
        .create_ot_receiver(&bits4(), vec![0x42; 32])
        .expect("Error while create the ot receiver.");
    let commitment = ot_receiver.commitment();
    assert_eq!(commitment.certificate, vec![0x42; 32]);
    let ot_sender = trinity.create_ot_sender(&commitment, true).unwrap();

    let m0 = [0u8; MSG_SIZE];
    let m1 = [1u8; MSG_SIZE];
    let msg = ot_sender.send(0, &m0, &m1).unwrap();
    let res = ot_receiver.recv(0, &msg).unwrap();
    assert_eq!(res, m0);
}

#[test]
fn sender_only_parameters_travel_as_bytes() {
    let trinity = Trinity::setup(KZGType::Halo2, 3).unwrap();
    let bytes = trinity.to_sender_bytes();
    assert_eq!(bytes.len(), 162);
    assert_eq!(bytes[0], 1);
    assert_eq!(bytes[1], 3);
    let garbler = Trinity::from_sender_bytes(&bytes).unwrap();
    assert!(matches!(garbler.params, TrinityInnerParams::Sender(_)));
    assert_eq!(garbler.to_sender_bytes(), bytes);
    assert_eq!(
        garbler.create_ot_receiver(&bits4(), Vec::new()).unwrap_err(),
        LotError::Configuration(ConfigError::SenderOnlyParams)
    );

    let receiver = trinity.create_ot_receiver(&bits4(), vec![1]).unwrap();
    let sender = garbler.create_ot_sender(&receiver.commitment(), true).unwrap();
    let m0 = [4u8; 16];
    let m1 = [5u8; 16];
    assert_eq!(receiver.recv(3, &sender.send(3, &m0, &m1).unwrap()).unwrap(), m1);
    assert_eq!(receiver.recv(2, &sender.send(2, &m0, &m1).unwrap()).unwrap(), m0);
}

#[test]
fn sender_params_decode_errors() {
    assert_eq!(
        LaconicParams::from_bytes(&[]).unwrap_err(),
        LotError::Decode(DecodeError::Truncated { part: Part::Tag })
    );
    assert_eq!(
        LaconicParams::from_bytes(&[2, 3]).unwrap_err(),
        LotError::Decode(DecodeError::Invalid { part: Part::Tag })
    );
    assert_eq!(
        LaconicParams::from_bytes(&[0]).unwrap_err(),
        LotError::Decode(DecodeError::Truncated { part: Part::Header })
    );
    assert_eq!(
        LaconicParams::from_bytes(&[0, 28]).unwrap_err(),
        LotError::Decode(DecodeError::Invalid { part: Part::Header })
    );
    assert_eq!(
        LaconicParams::from_bytes(&[0, 2, 1]).unwrap_err(),
        LotError::Decode(DecodeError::Truncated { part: Part::Generator })
    );
    let t = Trinity::setup(KZGType::Plain, 2).unwrap();
    let mut bytes = t.to_sender_bytes();
    bytes.push(0);
    assert_eq!(
        LaconicParams::from_bytes(&bytes).unwrap_err(),
        LotError::Decode(DecodeError::TrailingBytes)
    );
    bytes.pop();
    bytes[33] = 0x3f;
    assert_eq!(
        LaconicParams::from_bytes(&bytes).unwrap_err(),
        LotError::Decode(DecodeError::Invalid { part: Part::Generator })
    );
}

#[test]
fn full_parameters_round_trip() {
    let key = CommitmentKey::setup(KZGType::Plain, 2).unwrap();
    let bytes = key.to_bytes();
    assert_eq!(bytes.len(), 2 + 32 * 4 + 128);
    let back = CommitmentKey::from_bytes(&bytes).unwrap();
    assert_eq!(back.powers, key.powers);
    assert_eq!(back.lagranges, key.lagranges);
    assert_eq!(back.y, key.y);
    assert_eq!(back.g2, key.g2);
    assert_eq!(back.s_g2, key.s_g2);
    assert_eq!(
        CommitmentKey::from_bytes(&bytes[..bytes.len() - 1]).unwrap_err(),
        LotError::Decode(DecodeError::Truncated { part: Part::Generator })
    );
    assert_eq!(
        CommitmentKey::from_bytes(&bytes[..40]).unwrap_err(),
        LotError::Decode(DecodeError::Truncated { part: Part::Power })
    );
}

#[test]
fn test_trinity_com_serialization_roundtrip() {
    let com_before = TrinityCom {
        backend: KZGType::Plain,
        point: g1_bytes(ark_bn254::G1Affine::default()),
        certificate: Vec::new(),
    };
    let bytes = com_before.serialize();
    let deserialized = TrinityCom::deserialize(&bytes).unwrap();
    match deserialized.backend {
        KZGType::Plain => assert_eq!(deserialized.point, g1_bytes(ark_bn254::G1Affine::default())),
        _ => panic!("Expected Plain commitment"),
    }
}

#[test]
fn certified_commitment_round_trip_keeps_certificate() {
    let com_before = TrinityCom {
        backend: KZGType::Halo2,
        point: g1_bytes(ark_bn254::G1Affine::generator()),
        certificate: vec![1, 2, 3, 4, 5],
    };
    let bytes = com_before.serialize();
    assert_eq!(bytes.len(), 1 + 32 + 5);
    assert_eq!(TrinityCom::deserialize(&bytes).unwrap(), com_before);
}

#[test]
fn tampered_commitment_fails_to_decode() {
    let com_before = TrinityCom {
        backend: KZGType::Plain,
        point: g1_bytes(ark_bn254::G1Affine::generator()),
        certificate: Vec::new(),
    };
    let good = com_before.serialize();
    let mut bad_tag = good.clone();
    bad_tag[0] ^= 0x04;
    assert_eq!(
        TrinityCom::deserialize(&bad_tag).unwrap_err(),
        LotError::Decode(DecodeError::Invalid { part: Part::Tag })
    );
    let mut bad_point = good.clone();
    bad_point[32] = 0x3f;
    assert_eq!(
        TrinityCom::deserialize(&bad_point).unwrap_err(),
        LotError::Decode(DecodeError::Invalid { part: Part::Commitment })
    );
    assert_eq!(
        TrinityCom::deserialize(&good[..10]).unwrap_err(),
        LotError::Decode(DecodeError::Truncated { part: Part::Commitment })
    );
    let mut longer = good.clone();
    longer.push(7);
    assert_eq!(
        TrinityCom::deserialize(&longer).unwrap_err(),
        LotError::Decode(DecodeError::TrailingBytes)
    );
    assert_eq!(
        TrinityCom::deserialize(&[]).unwrap_err(),
        LotError::Decode(DecodeError::Truncated { part: Part::Tag })
    );
}

#[test]
fn test_trinity_msg_serialization_roundtrip_halo2() {
    let g2 = g2_bytes(ark_bn254::G2Affine::generator());
    let sent_msg = Msg {
        backend: KZGType::Halo2,
        h0: g2.clone(),
        c0: [1u8; 16],
        h1: g2.clone(),
        c1: [2u8; 16],
    };

    let serialized = sent_msg.serialize();
    let deserialized = Msg::deserialize(&serialized).unwrap();

    if deserialized.backend == KZGType::Halo2 {
        assert_eq!(deserialized.c0, [1u8; 16]);
        assert_eq!(deserialized.c1, [2u8; 16]);
        assert_eq!(deserialized.h0, g2);
        assert_eq!(deserialized.h1, g2);
    } else {
        panic!("Expected Halo2 message");
    }
}

#[test]
fn test_msg_serialization() {
    let sent_msg = Msg {
        backend: KZGType::Plain,
        h0: random_g2(),
        c0: [1u8; MSG_SIZE],
        h1: random_g2(),
        c1: [2u8; MSG_SIZE],
    };
    let serialized = sent_msg.serialize();
    let deserialized_msg = Msg::deserialize(&serialized).unwrap();
    assert_eq!(sent_msg.c0, deserialized_msg.c0);
    assert_eq!(sent_msg.c1, deserialized_msg.c1);
    assert_eq!(sent_msg.h0, deserialized_msg.h0);
    assert_eq!(sent_msg.h1, deserialized_msg.h1);
}

#[test]
fn laconic_ot_test_msg_halo2_serialization() {
    let sent_msg = Msg {
        backend: KZGType::Halo2,
        h0: random_g2(),
        c0: [3u8; MSG_SIZE],
        h1: random_g2(),
        c1: [4u8; MSG_SIZE],
    };
    let serializable = sent_msg.serialize();
    assert!(serializable.len() > 0);
    let deserialized_msg = Msg::deserialize(&serializable).expect("Deserialization failed");
    assert_eq!(sent_msg.c0, deserialized_msg.c0);
    assert_eq!(sent_msg.c1, deserialized_msg.c1);
    assert_eq!(sent_msg.h0, deserialized_msg.h0);
    assert_eq!(sent_msg.h1, deserialized_msg.h1);
}

#[test]
fn message_decode_errors() {
    let g2 = g2_bytes(ark_bn254::G2Affine::generator());
    let msg = Msg { backend: KZGType::Plain, h0: g2.clone(), c0: [0u8; 16], h1: g2, c1: [0u8; 16] };
    let bytes = msg.serialize();
    assert_eq!(bytes.len(), 161);
    assert_eq!(
        Msg::deserialize(&bytes[..70]).unwrap_err(),
        LotError::Decode(DecodeError::Truncated { part: Part::Ciphertext })
    );
    assert_eq!(
        Msg::deserialize(&bytes[..30]).unwrap_err(),
        LotError::Decode(DecodeError::Truncated { part: Part::Label })
    );
    let mut bad = bytes.clone();
    bad[64] = 0x3f;
    assert_eq!(
        Msg::deserialize(&bad).unwrap_err(),
        LotError::Decode(DecodeError::Invalid { part: Part::Label })
    );
    let mut bad_tag = bytes.clone();
    bad_tag[0] = 9;
    assert_eq!(
        Msg::deserialize(&bad_tag).unwrap_err(),
        LotError::Decode(DecodeError::Invalid { part: Part::Tag })
    );
}

#[test]
fn sent_message_survives_the_wire() {
    let trinity = Trinity::setup(KZGType::Plain, 2).unwrap();
    let receiver = trinity.create_ot_receiver(&bits4(), Vec::new()).unwrap();
    let com = TrinityCom::deserialize(&receiver.commitment().serialize()).unwrap();
    let sender = trinity.create_ot_sender(&com, true).unwrap();
    let m0 = [10u8; 16];
    let m1 = [11u8; 16];
    let msg = sender.send(1, &m0, &m1).unwrap();
    let back = Msg::deserialize(&msg.serialize()).unwrap();
    assert_eq!(back, msg);
    assert_eq!(receiver.recv(1, &back).unwrap(), m1);
    let _ = Scalar::zero();
}

#[test]
fn raw_message_form_is_checked_on_the_way_back() {
    let g2 = g2_bytes(ark_bn254::G2Affine::generator());
    let msg = Msg { backend: KZGType::Halo2, h0: g2.clone(), c0: [6u8; 16], h1: random_g2(), c1: [7u8; 16] };
    let raw = msg.to_serializable();
    assert_eq!(raw.h[0].0, g2.enc);
    assert_eq!(raw.h[1].1, [7u8; 16]);
    assert_eq!(Msg::try_from_serializable(&raw, KZGType::Halo2).unwrap(), msg);
    let mut bad = raw.clone();
    bad.h[1].0.truncate(10);
    assert_eq!(
        Msg::try_from_serializable(&bad, KZGType::Halo2).unwrap_err(),
        LotError::Decode(DecodeError::Invalid { part: Part::Label })
    );
}

#[test]
fn framed_ciphertexts_round_trip() {
    let trinity = Trinity::setup(KZGType::Plain, 2).unwrap();
    let bits = bits4();
    let receiver = trinity.create_ot_receiver(&bits, Vec::new()).unwrap();
    let sender = trinity.create_ot_sender(&receiver.commitment(), true).unwrap();
    let labels: Vec<([u8; 16], [u8; 16])> = (0..4u8).map(|i| ([i; 16], [i + 100; 16])).collect();
    let cts: Vec<Msg> = labels
        .iter()
        .enumerate()
        .map(|(i, (m0, m1))| sender.send(i, m0, m1).unwrap())
        .collect();
    let bytes = laconic_kzg::serialize_ciphertexts(&cts);
    assert_eq!(bytes.len(), 8 + 169 * 4);
    assert_eq!(&bytes[..8], &4u64.to_le_bytes());
    assert_eq!(&bytes[8..16], &161u64.to_le_bytes());
    let back = laconic_kzg::deserialize_ciphertexts(&bytes).unwrap();
    assert_eq!(back, cts);
    for (i, ct) in back.iter().enumerate() {
        let expected = if bits[i] == Choice::One { labels[i].1 } else { labels[i].0 };
        assert_eq!(receiver.recv(i, ct).unwrap(), expected);
    }
    assert_eq!(laconic_kzg::deserialize_ciphertexts(&0u64.to_le_bytes()).unwrap(), Vec::<Msg>::new());
}

#[test]
fn framed_ciphertexts_decode_errors() {
    let g2 = g2_bytes(ark_bn254::G2Affine::generator());
    let msg = Msg { backend: KZGType::Plain, h0: g2.clone(), c0: [0u8; 16], h1: g2, c1: [1u8; 16] };
    let bytes = laconic_kzg::serialize_ciphertexts(&[msg.clone(), msg]);
    assert_eq!(
        laconic_kzg::deserialize_ciphertexts(&bytes[..5]).unwrap_err(),
        LotError::Decode(DecodeError::Truncated { part: Part::Length })
    );
    assert!(laconic_kzg::deserialize_ciphertexts(&bytes[..bytes.len() - 1]).is_err());
    let mut wrong_count = bytes.clone();
    wrong_count[0] = 3;
    assert!(laconic_kzg::deserialize_ciphertexts(&wrong_count).is_err());
    let mut wrong_len = bytes.clone();
    wrong_len[8] = 160;
    assert!(laconic_kzg::deserialize_ciphertexts(&wrong_len).is_err());
    let mut bad_label = bytes.clone();
    bad_label[16 + 64] = 0x3f;
    assert_eq!(
        laconic_kzg::deserialize_ciphertexts(&bad_label).unwrap_err(),
        LotError::Decode(DecodeError::Invalid { part: Part::Label })
    );
}
