use base64::Engine;
use rbw_agent::cipherstring::CipherString;
use rbw_agent::crypto::{
    decrypt, decrypt_key, derive_master_key, encrypt, unwrap_org_key, verification_hash,
    verify_master_password, SymKey,
};
use rbw_agent::protocol::ErrorKind;
use rsa::pkcs8::EncodePrivateKey;

#[test]
fn key_derivation_is_deterministic_and_matches_pbkdf2() {
    let a = derive_master_key(b"password", b"salt", 1);
    let b = derive_master_key(b"password", b"salt", 1);
    assert_eq!(a.bytes, b.bytes);
    assert_eq!(a.bytes.len(), 64);
    // PBKDF2-HMAC-SHA256("password", "salt", 1): the first derived block
    let expected: [u8; 32] = [
        0x12, 0x0f, 0xb6, 0xcf, 0xfc, 0xf8, 0xb3, 0x2c, 0x43, 0xe7, 0x22, 0x52, 0x56, 0xc4, 0xf8,
        0x37, 0xa8, 0x65, 0x48, 0xc9, 0x2c, 0xcc, 0x35, 0x48, 0x08, 0x05, 0x98, 0x7c, 0xb7, 0x0b,
        0xe1, 0x7b,
    ];
    assert_eq!(&a.bytes[..32], &expected);
    let c = derive_master_key(b"password2", b"salt", 1);
    assert_ne!(a.bytes, c.bytes);
}

#[test]
fn verification_is_local_and_exact() {
    let key = derive_master_key(b"pw", b"salt@example.com", 1200);
    let stored = verification_hash(&key, b"pw");
    assert_eq!(stored.len(), 32);
    let ok = verify_master_password(b"pw", b"salt@example.com", 1200, stored.as_slice());
    match ok {
        Some(k) => assert_eq!(k.bytes, key.bytes),
        None => panic!("the right password must verify"),
    }
    assert!(verify_master_password(b"pW", b"salt@example.com", 1200, stored.as_slice()).is_none());
    assert!(verify_master_password(b"pw", b"salt@example.com", 1201, stored.as_slice()).is_none());
}

#[test]
fn encrypt_decrypt_round_trip() {
    let key = SymKey { bytes: (0u8..64).collect() };
    for msg in [&b""[..], b"a", b"0123456789abcdef", b"a longer message spanning blocks...."] {
        let cs = encrypt(&key, msg);
        match decrypt(&key, &cs) {
            Ok(p) => assert_eq!(p, msg.to_vec()),
            Err(_) => panic!("a fresh cipherstring must decrypt"),
        }
    }
}

#[test]
fn any_flipped_tag_bit_is_rejected() {
    let key = SymKey { bytes: (0u8..64).collect() };
    let cs = encrypt(&key, b"attested payload");
    let (iv, ct, mac) = match cs {
        CipherString::Symmetric { iv, ct, mac } => (iv, ct, mac),
        _ => panic!("encrypt yields a symmetric cipherstring"),
    };
    for byte in 0..mac.len() {
        for bit in 0..8u8 {
            let mut mac2 = mac.clone();
            mac2[byte] ^= 1 << bit;
            let tampered =
                CipherString::Symmetric { iv: iv.clone(), ct: ct.clone(), mac: mac2 };
            match decrypt(&key, &tampered) {
                Err(e) => assert_eq!(e, ErrorKind::Crypto),
                Ok(_) => panic!("a tampered tag must never yield plaintext"),
            }
        }
    }
}

#[test]
fn tampered_ciphertext_and_wrong_key_are_rejected() {
    let key = SymKey { bytes: (0u8..64).collect() };
    let cs = encrypt(&key, b"payload");
    let (iv, ct, mac) = match cs {
        CipherString::Symmetric { iv, ct, mac } => (iv, ct, mac),
        _ => panic!("encrypt yields a symmetric cipherstring"),
    };
    let mut ct2 = ct.clone();
    ct2[0] ^= 1;
    let tampered = CipherString::Symmetric { iv: iv.clone(), ct: ct2, mac: mac.clone() };
    assert!(decrypt(&key, &tampered).is_err());
    let other = SymKey { bytes: (1u8..65).collect() };
    let intact = CipherString::Symmetric { iv, ct, mac };
    assert!(decrypt(&other, &intact).is_err());
}

#[test]
fn decrypt_key_insists_on_whole_keys() {
    let key = SymKey { bytes: (0u8..64).collect() };
    let good = encrypt(&key, &[5u8; 64]);
    match decrypt_key(&key, &good) {
        Ok(k) => assert_eq!(k.bytes, vec![5u8; 64]),
        Err(_) => panic!("a wrapped 64-byte key must unwrap"),
    }
    let short = encrypt(&key, &[5u8; 32]);
    assert!(decrypt_key(&key, &short).is_err());
}

#[test]
fn org_key_unwraps_through_rsa_oaep() {
    let mut rng = rand::thread_rng();
    let sk = rsa::RsaPrivateKey::new(&mut rng, 1024).expect("key generation");
    let pk = rsa::RsaPublicKey::from(&sk);
    let org_key: Vec<u8> = (100u8..164).collect();
    let wrapped = pk
        .encrypt(&mut rng, rsa::Oaep::new::<sha1::Sha1>(), org_key.as_slice())
        .expect("wrap");
    let text = format!(
        "4.{}",
        base64::engine::general_purpose::STANDARD.encode(&wrapped)
    )
    .into_bytes();
    let der = sk.to_pkcs8_der().expect("encode");
    match unwrap_org_key(der.as_bytes(), text.as_slice()) {
        Ok(k) => assert_eq!(k.bytes, org_key),
        Err(_) => panic!("a wrapped org key must unwrap"),
    }
    // the wrong private key must fail
    let other = rsa::RsaPrivateKey::new(&mut rng, 1024).expect("key generation");
    let other_der = other.to_pkcs8_der().expect("encode");
    assert!(unwrap_org_key(other_der.as_bytes(), text.as_slice()).is_err());
}
