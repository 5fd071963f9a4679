use rbw_agent::protocol::{Action, Environment, ErrorKind, Request, Response};
use rbw_agent::wire::{
    decode_request, decode_response, encode_frame, encode_request, encode_response, read_u32,
};

fn empty_env() -> Environment {
    Environment {
        tty: None,
        display: None,
        wayland_display: None,
        xauthority: None,
        ssh_auth_sock: None,
        gpg_tty: None,
    }
}

#[test]
fn frames_are_length_prefixed_little_endian() {
    assert_eq!(encode_frame(b"abc"), vec![3, 0, 0, 0, 97, 98, 99]);
    assert_eq!(encode_frame(b""), vec![0, 0, 0, 0]);
    let header = [0x78u8, 0x56, 0x34, 0x12];
    assert_eq!(read_u32(&header, 0), 0x1234_5678);
}

#[test]
fn responses_round_trip() {
    let samples = [
        Response::Ack,
        Response::Error { error: ErrorKind::Locked },
        Response::Error { error: ErrorKind::SecondFactor },
        Response::Decrypt { plaintext: b"hello".to_vec() },
        Response::Decrypt { plaintext: Vec::new() },
        Response::Encrypt { cipherstring: b"2.a|b|c".to_vec() },
        Response::Version { version: 0xdead_beef },
    ];
    for m in samples {
        let bytes = encode_response(&m);
        match (decode_response(bytes.as_slice()), m) {
            (Some(Response::Ack), Response::Ack) => {}
            (Some(Response::Error { error: a }), Response::Error { error: b }) => {
                assert_eq!(a, b)
            }
            (Some(Response::Decrypt { plaintext: a }), Response::Decrypt { plaintext: b }) => {
                assert_eq!(a, b)
            }
            (
                Some(Response::Encrypt { cipherstring: a }),
                Response::Encrypt { cipherstring: b },
            ) => assert_eq!(a, b),
            (Some(Response::Version { version: a }), Response::Version { version: b }) => {
                assert_eq!(a, b)
            }
            _ => panic!("an encoded response must decode to itself"),
        }
    }
}

#[test]
fn response_decoder_rejects_junk() {
    assert!(decode_response(b"").is_none());
    assert!(decode_response(&[9]).is_none());
    assert!(decode_response(&[0, 0]).is_none());
    assert!(decode_response(&[1, 200]).is_none());
    assert!(decode_response(&[2, 5, 0, 0, 0, 97]).is_none());
    let mut ok = encode_response(&Response::Ack);
    ok.push(0);
    assert!(decode_response(ok.as_slice()).is_none());
}

#[test]
fn request_encoding_has_the_fixed_layout() {
    let q = Request { environment: empty_env(), action: Action::CheckLock };
    // six absent environment slots, then the action tag
    assert_eq!(encode_request(&q), vec![0, 0, 0, 0, 0, 0, 3]);
    let mut env = empty_env();
    env.tty = Some(b"/dev/pts/0".to_vec());
    let q2 = Request {
        environment: env,
        action: Action::Decrypt {
            cipherstring: b"2.x|y|z".to_vec(),
            entry_key: None,
            org_id: Some(b"org".to_vec()),
        },
    };
    let mut expected = vec![1, 10, 0, 0, 0];
    expected.extend_from_slice(b"/dev/pts/0");
    expected.extend_from_slice(&[0, 0, 0, 0, 0]);
    expected.push(7);
    expected.extend_from_slice(&[7, 0, 0, 0]);
    expected.extend_from_slice(b"2.x|y|z");
    expected.push(0);
    expected.push(1);
    expected.extend_from_slice(&[3, 0, 0, 0]);
    expected.extend_from_slice(b"org");
    assert_eq!(encode_request(&q2), expected);
}

#[test]
fn requests_round_trip() {
    let mut env = empty_env();
    env.tty = Some(b"/dev/pts/2".to_vec());
    env.gpg_tty = Some(b"/dev/pts/2".to_vec());
    let samples = [
        Action::Register,
        Action::Login,
        Action::Unlock,
        Action::CheckLock,
        Action::Sync,
        Action::Lock,
        Action::Quit,
        Action::Version,
        Action::Decrypt {
            cipherstring: b"2.a|b|c".to_vec(),
            entry_key: Some(b"2.d|e|f".to_vec()),
            org_id: None,
        },
        Action::Encrypt { plaintext: b"hello".to_vec(), org_id: Some(b"org".to_vec()) },
        Action::ClipboardStore { text: Vec::new() },
    ];
    for action in samples {
        let q = Request {
            environment: Environment {
                tty: env.tty.clone(),
                display: None,
                wayland_display: None,
                xauthority: None,
                ssh_auth_sock: Some(b"/run/ssh".to_vec()),
                gpg_tty: env.gpg_tty.clone(),
            },
            action,
        };
        let bytes = encode_request(&q);
        let q2 = decode_request(bytes.as_slice()).expect("an encoded request must decode");
        assert_eq!(encode_request(&q2), bytes);
        assert_eq!(q2.environment.tty, q.environment.tty);
        assert_eq!(q2.environment.ssh_auth_sock, q.environment.ssh_auth_sock);
        assert_eq!(q2.environment.gpg_tty, q.environment.gpg_tty);
    }
}

#[test]
fn request_decoder_rejects_junk() {
    assert!(decode_request(b"").is_none());
    assert!(decode_request(&[0, 0, 0, 0, 0, 0]).is_none());
    assert!(decode_request(&[0, 0, 0, 0, 0, 0, 77]).is_none());
    let mut ok = encode_request(&Request { environment: empty_env(), action: Action::Lock });
    ok.push(0);
    assert!(decode_request(ok.as_slice()).is_none());
}
