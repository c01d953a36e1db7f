use easytier_edge::crypto::{
    decode_key, direction_index, drawn_bytes, drawn_uuid, key_from_decoded, normalized_algorithm, open, random_bytes, random_uuid, seal,
    secret_proof, traffic_key, uuid_from_bytes, verify_secret_proof, Algorithm,
};
use easytier_edge::error::{EdgeError, KeyLabel};
use easytier_edge::proto::Uuid;

#[test]
fn traffic_direction_is_stable() {
    assert_eq!(direction_index(1, 2), 0);
    assert_eq!(direction_index(2, 1), 1);
}

#[test]
fn equal_ids_share_the_upper_direction() {
    assert_eq!(direction_index(3, 3), 1);
}

#[test]
fn aes_128_uses_half_of_the_key() {
    let mut key = [0u8; 32];
    let expected_text = vec![
        0x03, 0x88, 0xda, 0xce, 0x60, 0xb6, 0xa3, 0x92, 0xf3, 0x28, 0xc2, 0xb9, 0x71, 0xb2, 0xfe, 0x78,
    ];
    let expected_tag = [
        0xab, 0x6e, 0x47, 0xd4, 0x2c, 0xec, 0x13, 0xbd, 0xf5, 0x3a, 0x67, 0xb2, 0x12, 0x57, 0xbd, 0xdf,
    ];
    assert_eq!(
        seal("aes-gcm", &key, &[0; 12], &[0; 16]),
        Ok((expected_text.clone(), expected_tag))
    );
    key[20] = 1;
    assert_eq!(
        seal("AES-GCM", &key, &[0; 12], &[0; 16]),
        Ok((expected_text.clone(), expected_tag))
    );
    assert_eq!(
        open("Aes-Gcm", &key, &[0; 12], &expected_text, &expected_tag),
        Ok(vec![0; 16])
    );
}

#[test]
fn aes_256_uses_the_whole_key() {
    let (text, tag) = seal("aes-256-gcm", &[0; 32], &[0; 12], &[0; 16]).unwrap();
    assert_eq!(
        text,
        vec![
            0xce, 0xa7, 0x40, 0x3d, 0x4d, 0x60, 0x6b, 0x6e, 0x07, 0x4e, 0xc5, 0xd3, 0xba, 0xf3, 0x9d, 0x18
        ]
    );
    assert_eq!(
        tag,
        [0xd0, 0xd1, 0xc8, 0xa7, 0x99, 0x99, 0x6b, 0xf0, 0x26, 0x5b, 0x98, 0xb5, 0xd4, 0x8a, 0xb9, 0x19]
    );
    assert_eq!(open("aes-256-gcm", &[0; 32], &[0; 12], &text, &tag), Ok(vec![0; 16]));
}

#[test]
fn chacha_goes_by_two_names() {
    let mut key = [0u8; 32];
    for (i, byte) in key.iter_mut().enumerate() {
        *byte = 0x80 + i as u8;
    }
    let nonce = [7, 0, 0, 0, 0x40, 0x41, 0x42, 0x43, 0x44, 0x45, 0x46, 0x47];
    let sealed = seal("chacha20", &key, &nonce, b"relay").unwrap();
    assert_eq!(sealed.0, vec![237, 30, 133, 60, 120]);
    assert_eq!(
        sealed.1,
        [206, 53, 88, 147, 46, 43, 102, 233, 213, 121, 157, 107, 35, 55, 215, 54]
    );
    assert_eq!(seal("ChaCha20-Poly1305", &key, &nonce, b"relay"), Ok(sealed.clone()));
    assert_eq!(
        open("chacha20", &key, &nonce, &sealed.0, &sealed.1),
        Ok(b"relay".to_vec())
    );
}

#[test]
fn changed_tag_is_refused() {
    for name in ["aes-gcm", "aes-256-gcm", "chacha20"] {
        let (text, mut tag) = seal(name, &[3; 32], &[4; 12], b"text").unwrap();
        tag[0] ^= 1;
        assert_eq!(
            open(name, &[3; 32], &[4; 12], &text, &tag),
            Err(EdgeError::DecryptionFailed)
        );
    }
}

#[test]
fn unknown_cipher_is_refused() {
    assert_eq!(normalized_algorithm("aes-gcm"), Ok(Algorithm::Aes128Gcm));
    assert_eq!(normalized_algorithm("AES-256-GCM"), Ok(Algorithm::Aes256Gcm));
    assert_eq!(normalized_algorithm("chacha20-poly1305"), Ok(Algorithm::ChaCha20));
    let error = normalized_algorithm("xor").unwrap_err();
    assert_eq!(error, EdgeError::UnsupportedAlgorithm);
    assert_eq!(error.message(), "unsupported EasyTier encryption algorithm");
    assert_eq!(seal("", &[0; 32], &[0; 12], &[]), Err(EdgeError::UnsupportedAlgorithm));
}

#[test]
fn traffic_key_is_derived_from_epoch_and_direction() {
    let mut root = [0u8; 32];
    for (i, byte) in root.iter_mut().enumerate() {
        *byte = i as u8;
    }
    assert_eq!(
        traffic_key(&root, 258, 1),
        [
            0x1d, 0x1b, 0xb5, 0x55, 0x3b, 0x5e, 0xd2, 0x12, 0x93, 0x55, 0xab, 0x95, 0x79, 0x15, 0xd2, 0x04, 0xa0,
            0xcb, 0x78, 0xf0, 0x8b, 0xf0, 0x1d, 0x13, 0xde, 0x4e, 0xc1, 0x26, 0x50, 0xcc, 0xb8, 0xb1
        ]
    );
    assert_ne!(traffic_key(&root, 258, 0), traffic_key(&root, 258, 1));
}

#[test]
fn secret_proof_is_verified_as_a_whole() {
    let proof = secret_proof(b"secret", b"challenge");
    assert_eq!(
        proof,
        vec![
            0xb5, 0x2d, 0xb3, 0xe1, 0xbe, 0xfe, 0xf3, 0x05, 0x77, 0x29, 0xf0, 0x9d, 0xf6, 0x75, 0x9e, 0x01, 0x8b,
            0x02, 0x32, 0x80, 0xa2, 0xbe, 0xc7, 0xbc, 0xcd, 0x3e, 0xd6, 0x86, 0x5d, 0x66, 0xb4, 0x9f
        ]
    );
    assert!(verify_secret_proof(b"secret", b"challenge", &proof));
    assert!(!verify_secret_proof(b"secret", b"challenge", &proof[..31]));
    assert!(!verify_secret_proof(b"other", b"challenge", &proof));
}

#[test]
fn configured_keys_are_decoded() {
    let mut expected = [0u8; 32];
    for (i, byte) in expected.iter_mut().enumerate() {
        *byte = i as u8 + 1;
    }
    assert_eq!(
        decode_key("AQIDBAUGBwgJCgsMDQ4PEBESExQVFhcYGRobHB0eHyA=", KeyLabel::Private),
        Ok(expected)
    );
    let error = decode_key("not base64!", KeyLabel::Public).unwrap_err();
    assert_eq!(error.message(), "local_public_key is not valid base64");
    let error = decode_key("AQID", KeyLabel::Private).unwrap_err();
    assert_eq!(error, EdgeError::KeyWrongLength { label: KeyLabel::Private, len: 3 });
    assert_eq!(error.message(), "local_private_key must decode to 32 bytes, got 3");
    assert_eq!(
        key_from_decoded(None, KeyLabel::Private),
        Err(EdgeError::KeyNotBase64 { label: KeyLabel::Private })
    );
    assert_eq!(key_from_decoded(Some(vec![5; 32]), KeyLabel::Private), Ok([5; 32]));
}

#[test]
fn random_values_are_drawn() {
    let a = random_bytes::<32>().unwrap();
    let b = random_bytes::<32>().unwrap();
    assert_ne!(a, b);
    assert_ne!(random_uuid().unwrap(), random_uuid().unwrap());
    assert_eq!(
        uuid_from_bytes(&[0, 0, 0, 1, 0, 0, 1, 0, 0, 1, 0, 0, 1, 0, 0, 0]),
        Uuid { part1: 1, part2: 256, part3: 65536, part4: 16777216 }
    );
}

#[test]
fn random_source_is_passed_on() {
    let mut words = [0u8; 16];
    words[3] = 9;
    words[15] = 7;
    assert_eq!(drawn_bytes(Ok(words)), Ok(words));
    assert_eq!(
        drawn_bytes::<16>(Err(getrandom::Error::UNSUPPORTED)),
        Err(EdgeError::Random(getrandom::Error::UNSUPPORTED))
    );
    assert_eq!(drawn_uuid(Ok(words)), Ok(Uuid { part1: 9, part2: 0, part3: 0, part4: 7 }));
    assert_eq!(
        drawn_uuid(Err(EdgeError::Random(getrandom::Error::UNSUPPORTED))),
        Err(EdgeError::Random(getrandom::Error::UNSUPPORTED))
    );
}
