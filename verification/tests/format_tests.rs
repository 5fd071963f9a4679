use base64::Engine;
use rbw_agent::cipherstring::{parse, to_text, CipherString};
use rbw_agent::protocol::ErrorKind;

#[test]
fn symmetric_text_has_the_fixed_shape() {
    let cs = CipherString::Symmetric { iv: vec![0u8; 16], ct: vec![0u8; 16], mac: vec![0u8; 32] };
    let expected = format!(
        "2.{}|{}|{}",
        "A".repeat(22) + "==",
        "A".repeat(22) + "==",
        "A".repeat(43) + "="
    );
    assert_eq!(to_text(&cs), expected.into_bytes());
}

#[test]
fn symmetric_text_parses_back() {
    let cs = CipherString::Symmetric {
        iv: (0u8..16).collect(),
        ct: (16u8..48).collect(),
        mac: (48u8..80).collect(),
    };
    let text = to_text(&cs);
    match parse(text.as_slice()) {
        Ok(CipherString::Symmetric { iv, ct, mac }) => {
            assert_eq!(iv, (0u8..16).collect::<Vec<u8>>());
            assert_eq!(ct, (16u8..48).collect::<Vec<u8>>());
            assert_eq!(mac, (48u8..80).collect::<Vec<u8>>());
        }
        _ => panic!("a rendered cipherstring must parse back"),
    }
}

#[test]
fn asymmetric_text_parses_back() {
    let cs = CipherString::Asymmetric { ct: vec![1, 2, 3, 250] };
    let text = to_text(&cs);
    assert_eq!(text, b"4.AQID+g==".to_vec());
    match parse(text.as_slice()) {
        Ok(CipherString::Asymmetric { ct }) => assert_eq!(ct, vec![1, 2, 3, 250]),
        _ => panic!("a rendered wrapped key must parse back"),
    }
}

#[test]
fn parse_uses_the_standard_base64_alphabet() {
    let body = base64::engine::general_purpose::STANDARD.encode([9u8, 8, 7]);
    let text = format!("4.{body}").into_bytes();
    match parse(text.as_slice()) {
        Ok(CipherString::Asymmetric { ct }) => assert_eq!(ct, vec![9, 8, 7]),
        _ => panic!("a standard-alphabet body must decode"),
    }
}

#[test]
fn malformed_texts_are_crypto_errors() {
    let bad: [&[u8]; 8] = [
        b"",
        b"2",
        b"junk",
        b"9.AAAA",
        b"2.!!!|AAAA|AAAA",
        b"2.AAAA",
        b"2.AAAA|AAAA",
        b"4.",
    ];
    for text in bad {
        match parse(text) {
            Err(e) => assert_eq!(e, ErrorKind::Crypto),
            Ok(_) => panic!("malformed text must be rejected"),
        }
    }
}

#[test]
fn parse_rejects_wrong_part_sizes() {
    // three well-formed base64 parts, but a 3-byte iv is no cipherstring
    let b64 = |b: &[u8]| base64::engine::general_purpose::STANDARD.encode(b);
    let text = format!("2.{}|{}|{}", b64(&[0; 3]), b64(&[0; 16]), b64(&[0; 32])).into_bytes();
    assert!(parse(text.as_slice()).is_err());
    // a 32-byte tag but a ciphertext that is no whole number of blocks
    let text2 = format!("2.{}|{}|{}", b64(&[0; 16]), b64(&[0; 17]), b64(&[0; 32])).into_bytes();
    assert!(parse(text2.as_slice()).is_err());
}
