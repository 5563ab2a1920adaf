use base64::Engine;
use phala_core::aead::{decrypt, encrypt, CryptoError};
use phala_core::channel::{
    decrypt as channel_decrypt, ecdh_agree, ecdh_generate, ecdh_public_key, AeadCipher,
    ChannelError, InputField, Origin, SignatureType,
};

use sp_core::Pair;

fn b64(data: &[u8]) -> String {
    base64::engine::general_purpose::STANDARD.encode(data)
}

#[test]
fn aead_round_trip_recovers_the_plaintext() {
    let key = vec![0x42u8; 32];
    let iv = vec![9u8; 12];
    let plaintext = b"attack at dawn".to_vec();
    let mut buf = plaintext.clone();
    encrypt(&iv, &key, &mut buf).expect("sealing should succeed");
    assert_eq!(buf.len(), plaintext.len() + 16);
    assert_ne!(&buf[..plaintext.len()], plaintext.as_slice());
    decrypt(&iv, &key, &mut buf).expect("opening should succeed");
    assert_eq!(buf, plaintext);
}

#[test]
fn aead_empty_plaintext_round_trips() {
    let key = vec![1u8; 32];
    let iv = vec![2u8; 12];
    let mut buf: Vec<u8> = Vec::new();
    encrypt(&iv, &key, &mut buf).unwrap();
    assert_eq!(buf.len(), 16);
    decrypt(&iv, &key, &mut buf).unwrap();
    assert!(buf.is_empty());
}

#[test]
fn flipping_any_ciphertext_bit_fails_authentication() {
    let key = vec![3u8; 32];
    let iv = vec![4u8; 12];
    let sealed = {
        let mut buf = b"payload".to_vec();
        encrypt(&iv, &key, &mut buf).unwrap();
        buf
    };
    for byte in 0..sealed.len() {
        for bit in 0..8 {
            let mut tampered = sealed.clone();
            tampered[byte] ^= 1 << bit;
            assert_eq!(
                decrypt(&iv, &key, &mut tampered),
                Err(CryptoError::AeadDecryptError),
                "tampering byte {byte} bit {bit} must fail",
            );
        }
    }
}

#[test]
fn wrong_key_or_iv_fails_authentication() {
    let key = vec![5u8; 32];
    let iv = vec![6u8; 12];
    let mut sealed = b"secret".to_vec();
    encrypt(&iv, &key, &mut sealed).unwrap();

    let mut other_key = key.clone();
    other_key[31] ^= 1;
    let mut buf = sealed.clone();
    assert_eq!(decrypt(&iv, &other_key, &mut buf), Err(CryptoError::AeadDecryptError));

    let mut other_iv = iv.clone();
    other_iv[0] ^= 1;
    let mut buf = sealed.clone();
    assert_eq!(decrypt(&other_iv, &key, &mut buf), Err(CryptoError::AeadDecryptError));
}

#[test]
fn bad_key_lengths_are_rejected() {
    let iv = vec![0u8; 12];
    let mut buf = b"data".to_vec();
    assert_eq!(encrypt(&iv, &vec![0u8; 31], &mut buf), Err(CryptoError::AeadEncryptError));
    assert_eq!(buf, b"data".to_vec());
    assert_eq!(decrypt(&iv, &vec![0u8; 33], &mut buf), Err(CryptoError::AeadInvalidKey));
}

#[test]
fn confidential_channel_round_trip() {
    // the sender agrees with the receiver's public key...
    let sender_priv = ecdh_generate().unwrap();
    let sender_pub = ecdh_public_key(&sender_priv).unwrap();
    let receiver_priv = ecdh_generate().unwrap();
    let receiver_pub = ecdh_public_key(&receiver_priv).unwrap();
    let secret = ecdh_agree(sender_priv, &receiver_pub).unwrap();
    assert_eq!(secret.len(), 32);

    let iv = vec![7u8; 12];
    let mut sealed = b"confidential command".to_vec();
    encrypt(&iv, &secret, &mut sealed).unwrap();

    let cipher = AeadCipher {
        iv_b64: b64(&iv),
        cipher_b64: b64(&sealed),
        pubkey_b64: b64(&sender_pub),
    };
    // ...and the receiver agrees with the sender's ephemeral public key.
    let out = channel_decrypt(&cipher, receiver_priv).expect("channel should open");
    assert_eq!(out.msg, b"confidential command".to_vec());
    assert_eq!(out.secret, secret);
}

#[test]
fn channel_reports_each_malformed_field() {
    let receiver = ecdh_generate().unwrap();
    let cipher = AeadCipher {
        iv_b64: b64(&[0u8; 12]),
        cipher_b64: b64(b"xx"),
        pubkey_b64: "not base64!!".to_string(),
    };
    assert!(matches!(
        channel_decrypt(&cipher, receiver),
        Err(ChannelError::BadInput(InputField::PubkeyB64))
    ));

    let receiver = ecdh_generate().unwrap();
    let cipher = AeadCipher {
        iv_b64: b64(&[0u8; 11]), // wrong nonce length
        cipher_b64: b64(b"xx"),
        pubkey_b64: b64(&[0u8; 32]),
    };
    assert!(matches!(
        channel_decrypt(&cipher, receiver),
        Err(ChannelError::BadInput(InputField::IvB64))
    ));
}

#[test]
fn origin_verify_ed25519() {
    let pair = sp_core::ed25519::Pair::from_seed(&[1u8; 32]);
    let msg = b"hello enclave".to_vec();
    let sig = pair.sign(&msg).0.to_vec();
    let origin = Origin {
        origin: hex::encode(pair.public().0),
        sig_b64: b64(&sig),
        sig_type: SignatureType::Ed25519,
    };
    assert_eq!(origin.verify(&msg), Ok(true));
    assert_eq!(origin.verify(&b"other message".to_vec()), Ok(false));
}

#[test]
fn origin_verify_sr25519() {
    let pair = sp_core::sr25519::Pair::from_seed(&[2u8; 32]);
    let msg = b"hello enclave".to_vec();
    let sig = pair.sign(&msg).0.to_vec();
    let origin = Origin {
        origin: hex::encode(pair.public().0),
        sig_b64: b64(&sig),
        sig_type: SignatureType::Sr25519,
    };
    assert_eq!(origin.verify(&msg), Ok(true));
    assert_eq!(origin.verify(&b"other message".to_vec()), Ok(false));
}

#[test]
fn origin_verify_ecdsa() {
    let pair = sp_core::ecdsa::Pair::from_seed(&[3u8; 32]);
    let msg = b"hello enclave".to_vec();
    let sig = pair.sign(&msg).0.to_vec();
    let origin = Origin {
        origin: hex::encode(pair.public().0),
        sig_b64: b64(&sig),
        sig_type: SignatureType::Ecdsa,
    };
    assert_eq!(origin.verify(&msg), Ok(true));
    assert_eq!(origin.verify(&b"other message".to_vec()), Ok(false));
}

#[test]
fn origin_verify_rejects_malformed_encodings() {
    let origin = Origin {
        origin: "zz".to_string(), // not hex
        sig_b64: b64(&[0u8; 64]),
        sig_type: SignatureType::Ed25519,
    };
    assert!(matches!(
        origin.verify(&b"m".to_vec()),
        Err(ChannelError::BadInput(InputField::OriginHex))
    ));

    let origin = Origin {
        origin: hex::encode([0u8; 32]),
        sig_b64: "///not-base64///!".to_string(),
        sig_type: SignatureType::Ed25519,
    };
    assert!(matches!(
        origin.verify(&b"m".to_vec()),
        Err(ChannelError::BadInput(InputField::SigB64))
    ));
}

#[test]
fn origin_verify_rejects_wrong_length_keys() {
    let origin = Origin {
        origin: hex::encode([0u8; 31]), // too short for ed25519
        sig_b64: b64(&[0u8; 64]),
        sig_type: SignatureType::Ed25519,
    };
    assert_eq!(origin.verify(&b"m".to_vec()), Ok(false));
}
