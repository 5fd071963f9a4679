use rbw_agent::protocol::{
    agent_absent, classify_var, expect_ack, expect_decrypt, expect_encrypt, expect_version,
    filter_env, quit_connect_outcome, ConnectFailure, EnvVar, ErrorKind, Response,
};

#[test]
fn absent_agent_is_exactly_refused_or_not_found() {
    assert!(agent_absent(ConnectFailure::Refused));
    assert!(agent_absent(ConnectFailure::NotFound));
    assert!(!agent_absent(ConnectFailure::Other));
}

#[test]
fn simple_actions_succeed_exactly_on_ack() {
    assert_eq!(expect_ack(Response::Ack), Ok(()));
    assert_eq!(
        expect_ack(Response::Error { error: ErrorKind::Auth }),
        Err(ErrorKind::Auth)
    );
    assert_eq!(
        expect_ack(Response::Version { version: 1 }),
        Err(ErrorKind::Protocol)
    );
}

#[test]
fn typed_replies_are_checked_for_shape() {
    assert_eq!(
        expect_decrypt(Response::Decrypt { plaintext: b"p".to_vec() }),
        Ok(b"p".to_vec())
    );
    assert_eq!(expect_decrypt(Response::Ack), Err(ErrorKind::Protocol));
    assert_eq!(
        expect_decrypt(Response::Error { error: ErrorKind::Locked }),
        Err(ErrorKind::Locked)
    );
    assert_eq!(
        expect_encrypt(Response::Encrypt { cipherstring: b"c".to_vec() }),
        Ok(b"c".to_vec())
    );
    assert_eq!(
        expect_encrypt(Response::Decrypt { plaintext: b"p".to_vec() }),
        Err(ErrorKind::Protocol)
    );
    assert_eq!(expect_version(Response::Version { version: 42 }), Ok(42));
    assert_eq!(expect_version(Response::Ack), Err(ErrorKind::Protocol));
}

#[test]
fn quit_succeeds_when_no_agent_listens() {
    assert_eq!(quit_connect_outcome(ConnectFailure::Refused), Ok(()));
    assert_eq!(quit_connect_outcome(ConnectFailure::NotFound), Ok(()));
    assert_eq!(
        quit_connect_outcome(ConnectFailure::Other),
        Err(ErrorKind::Connection)
    );
}

#[test]
fn only_allow_listed_variable_names_classify() {
    assert_eq!(classify_var(b"DISPLAY"), Some(EnvVar::Display));
    assert_eq!(classify_var(b"WAYLAND_DISPLAY"), Some(EnvVar::WaylandDisplay));
    assert_eq!(classify_var(b"XAUTHORITY"), Some(EnvVar::Xauthority));
    assert_eq!(classify_var(b"SSH_AUTH_SOCK"), Some(EnvVar::SshAuthSock));
    assert_eq!(classify_var(b"GPG_TTY"), Some(EnvVar::GpgTty));
    assert_eq!(classify_var(b"PATH"), None);
    assert_eq!(classify_var(b"DISPLAY2"), None);
    assert_eq!(classify_var(b"display"), None);
    assert_eq!(classify_var(b""), None);
}

#[test]
fn environment_filter_keeps_first_occurrences_only() {
    let raw = vec![
        (b"HOME".to_vec(), b"/root".to_vec()),
        (b"DISPLAY".to_vec(), b":0".to_vec()),
        (b"SECRET_TOKEN".to_vec(), b"SECRET-REDACTED".to_vec()),
        (b"DISPLAY".to_vec(), b":1".to_vec()),
        (b"GPG_TTY".to_vec(), b"/dev/pts/3".to_vec()),
    ];
    let env = filter_env(Some(b"/dev/pts/1".to_vec()), &raw);
    assert_eq!(env.tty, Some(b"/dev/pts/1".to_vec()));
    assert_eq!(env.display, Some(b":0".to_vec()));
    assert_eq!(env.gpg_tty, Some(b"/dev/pts/3".to_vec()));
    assert_eq!(env.wayland_display, None);
    assert_eq!(env.xauthority, None);
    assert_eq!(env.ssh_auth_sock, None);
}
