use rbw_agent::crypto::{derive_master_key, verification_hash, SymKey};
use rbw_agent::dispatch::{handle_request, Agent, Outcome, VaultCache};
use rbw_agent::protocol::{Action, ErrorKind, Response};
use rbw_agent::session::Session;

fn locked_agent(timeout: u64) -> Agent {
    Agent { session: Session::new(timeout), vault: VaultCache::new() }
}

fn unlocked_agent(timeout: u64, now: u64) -> Agent {
    let mut agent = locked_agent(timeout);
    let key = derive_master_key(b"correct-horse", b"user@example.com", 5000);
    agent.session.login_complete(key, now);
    agent
}

#[test]
fn scenario_register_login_encrypt_decrypt_lock() {
    let mut agent = locked_agent(100);
    // Register is forwarded to the remote service; the agent's own state is
    // untouched and the frontend acknowledges on success.
    match handle_request(&mut agent, Action::Register, 1) {
        Outcome::NeedRegister => {}
        _ => panic!("register should defer to the remote flow"),
    }
    assert!(!agent.session.unlocked());
    // Login with the same credentials: the remote flow accepts and hands the
    // derived key to the session.
    match handle_request(&mut agent, Action::Login, 2) {
        Outcome::NeedLogin => {}
        _ => panic!("login should defer to the remote flow"),
    }
    let key = derive_master_key(b"correct-horse", b"user@example.com", 5000);
    agent.session.login_complete(key, 2);
    assert!(agent.session.unlocked());
    // Encrypt("hello") -> some cipherstring C.
    let c = match handle_request(
        &mut agent,
        Action::Encrypt { plaintext: b"hello".to_vec(), org_id: None },
        3,
    ) {
        Outcome::Reply(Response::Encrypt { cipherstring }) => cipherstring,
        _ => panic!("encrypt while unlocked must yield a cipherstring"),
    };
    // Decrypt(C) -> "hello".
    let p = match handle_request(
        &mut agent,
        Action::Decrypt { cipherstring: c.clone(), entry_key: None, org_id: None },
        4,
    ) {
        Outcome::Reply(Response::Decrypt { plaintext }) => plaintext,
        _ => panic!("decrypt of a fresh cipherstring must succeed"),
    };
    assert_eq!(p, b"hello".to_vec());
    // Lock -> Ack.
    match handle_request(&mut agent, Action::Lock, 5) {
        Outcome::Reply(Response::Ack) => {}
        _ => panic!("lock always acknowledges"),
    }
    // Decrypt(C) -> LockedError.
    match handle_request(&mut agent, Action::Decrypt { cipherstring: c, entry_key: None, org_id: None }, 6) {
        Outcome::Reply(Response::Error { error }) => assert_eq!(error, ErrorKind::Locked),
        _ => panic!("decrypt while locked must fail with the lock error"),
    }
}

#[test]
fn unlock_with_wrong_password_is_auth_error_and_stays_locked() {
    let key = derive_master_key(b"hunter2", b"me@example.com", 2000);
    let stored = verification_hash(&key, b"hunter2");
    let mut agent = locked_agent(100);
    let r = agent.session.unlock(b"wrong-password", b"me@example.com", 2000, stored.as_slice(), 5);
    assert_eq!(r, Err(ErrorKind::Auth));
    assert!(!agent.session.unlocked());
    assert!(agent.session.master_key.is_none());
    assert!(agent.session.org_keys.is_empty());
    // a subsequent CheckLock sees Locked
    match handle_request(&mut agent, Action::CheckLock, 6) {
        Outcome::Reply(Response::Error { error }) => assert_eq!(error, ErrorKind::Locked),
        _ => panic!("status probe must report locked"),
    }
    // the right password unlocks
    let r2 = agent.session.unlock(b"hunter2", b"me@example.com", 2000, stored.as_slice(), 7);
    assert_eq!(r2, Ok(()));
    assert!(agent.session.unlocked());
}

#[test]
fn lock_is_idempotent() {
    let mut agent = locked_agent(100);
    match handle_request(&mut agent, Action::Lock, 1) {
        Outcome::Reply(Response::Ack) => {}
        _ => panic!("lock acknowledges"),
    }
    let expiry = agent.session.expiry;
    let timeout = agent.session.timeout;
    match handle_request(&mut agent, Action::Lock, 2) {
        Outcome::Reply(Response::Ack) => {}
        _ => panic!("second lock acknowledges too"),
    }
    assert!(!agent.session.unlocked());
    assert!(agent.session.master_key.is_none());
    assert!(agent.session.org_keys.is_empty());
    assert_eq!(agent.session.expiry, expiry);
    assert_eq!(agent.session.timeout, timeout);
}

#[test]
fn status_probe_never_extends_the_session() {
    let mut agent = unlocked_agent(10, 0);
    assert_eq!(agent.session.expiry, 10);
    // first probe, well inside the window: Ack, expiry untouched
    match handle_request(&mut agent, Action::CheckLock, 5) {
        Outcome::Reply(Response::Ack) => {}
        _ => panic!("probe inside the window sees unlocked"),
    }
    assert_eq!(agent.session.expiry, 10);
    // second probe, more than the timeout after the first: forced lock
    match handle_request(&mut agent, Action::CheckLock, 16) {
        Outcome::Reply(Response::Error { error }) => assert_eq!(error, ErrorKind::Locked),
        _ => panic!("probe after the window sees locked"),
    }
    assert!(!agent.session.unlocked());
    assert!(agent.session.master_key.is_none());
}

#[test]
fn activity_does_extend_the_session() {
    let mut agent = unlocked_agent(10, 0);
    let c = match handle_request(
        &mut agent,
        Action::Encrypt { plaintext: b"x".to_vec(), org_id: None },
        5,
    ) {
        Outcome::Reply(Response::Encrypt { cipherstring }) => cipherstring,
        _ => panic!("encrypt succeeds while unlocked"),
    };
    assert_eq!(agent.session.expiry, 15);
    match handle_request(&mut agent, Action::Decrypt { cipherstring: c, entry_key: None, org_id: None }, 12) {
        Outcome::Reply(Response::Decrypt { plaintext }) => assert_eq!(plaintext, b"x".to_vec()),
        _ => panic!("decrypt succeeds while unlocked"),
    }
    assert_eq!(agent.session.expiry, 22);
}

#[test]
fn locked_operations_have_no_side_effects() {
    let mut agent = locked_agent(100);
    agent.vault.apply_sync(b"blob-1".to_vec(), b"rev-1".to_vec());
    let actions = [
        Action::Decrypt { cipherstring: b"2.x|y|z".to_vec(), entry_key: None, org_id: None },
        Action::Encrypt { plaintext: b"p".to_vec(), org_id: None },
        Action::Sync,
    ];
    for action in actions {
        match handle_request(&mut agent, action, 1) {
            Outcome::Reply(Response::Error { error }) => assert_eq!(error, ErrorKind::Locked),
            _ => panic!("locked operation must fail with the lock error"),
        }
        assert_eq!(agent.vault.blob, b"blob-1".to_vec());
        assert_eq!(agent.vault.revision, b"rev-1".to_vec());
        assert!(agent.session.master_key.is_none());
        assert!(agent.session.org_keys.is_empty());
    }
}

#[test]
fn sync_defers_to_the_remote_and_replaces_the_snapshot() {
    let mut agent = unlocked_agent(100, 0);
    match handle_request(&mut agent, Action::Sync, 1) {
        Outcome::NeedSync => {}
        _ => panic!("sync while unlocked defers to the fetch"),
    }
    agent.vault.apply_sync(b"encrypted-vault".to_vec(), b"rev-7".to_vec());
    assert_eq!(agent.vault.blob, b"encrypted-vault".to_vec());
    assert_eq!(agent.vault.revision, b"rev-7".to_vec());
}

#[test]
fn version_never_fails_and_reads_no_state() {
    let mut agent = locked_agent(100);
    match handle_request(&mut agent, Action::Version, 1) {
        Outcome::Reply(Response::Version { version }) => {
            assert_eq!(version, rbw_agent::protocol_version())
        }
        _ => panic!("version always answers"),
    }
}

#[test]
fn clipboard_store_is_acknowledged() {
    let mut agent = locked_agent(100);
    match handle_request(&mut agent, Action::ClipboardStore { text: b"t".to_vec() }, 1) {
        Outcome::Reply(Response::Ack) => {}
        _ => panic!("clipboard store is a pass-through ack"),
    }
}

#[test]
fn quit_erases_the_session_and_shuts_down() {
    let mut agent = unlocked_agent(100, 0);
    match handle_request(&mut agent, Action::Quit, 1) {
        Outcome::Shutdown(Response::Ack) => {}
        _ => panic!("quit acknowledges then shuts down"),
    }
    assert!(agent.session.master_key.is_none());
    assert!(agent.session.org_keys.is_empty());
}

#[test]
fn org_key_round_trip_and_isolation() {
    let mut agent = unlocked_agent(100, 0);
    agent.session.add_org_key(b"org-1".to_vec(), SymKey { bytes: vec![7u8; 64] });
    let c = match handle_request(
        &mut agent,
        Action::Encrypt { plaintext: b"team secret".to_vec(), org_id: Some(b"org-1".to_vec()) },
        1,
    ) {
        Outcome::Reply(Response::Encrypt { cipherstring }) => cipherstring,
        _ => panic!("encrypt under a known org key succeeds"),
    };
    // decrypting under the same org id round-trips
    match handle_request(
        &mut agent,
        Action::Decrypt { cipherstring: c.clone(), entry_key: None, org_id: Some(b"org-1".to_vec()) },
        2,
    ) {
        Outcome::Reply(Response::Decrypt { plaintext }) => assert_eq!(plaintext, b"team secret".to_vec()),
        _ => panic!("decrypt under the same org key succeeds"),
    }
    // the user's own key must not open it: the tag check fails
    match handle_request(&mut agent, Action::Decrypt { cipherstring: c, entry_key: None, org_id: None }, 3) {
        Outcome::Reply(Response::Error { error }) => assert_eq!(error, ErrorKind::Crypto),
        _ => panic!("a different key must be rejected"),
    }
    // an unknown org id fails
    match handle_request(
        &mut agent,
        Action::Encrypt { plaintext: b"x".to_vec(), org_id: Some(b"org-2".to_vec()) },
        4,
    ) {
        Outcome::Reply(Response::Error { error }) => assert_eq!(error, ErrorKind::Crypto),
        _ => panic!("an unknown org id must be rejected"),
    }
}

#[test]
fn entry_key_takes_precedence() {
    let mut agent = unlocked_agent(100, 0);
    // an entry key, itself stored as a cipherstring under the user's key
    let entry_key_bytes = vec![9u8; 64];
    let master = derive_master_key(b"correct-horse", b"user@example.com", 5000);
    let ek_cs = rbw_agent::crypto::encrypt(&master, entry_key_bytes.as_slice());
    let ek_text = rbw_agent::cipherstring::to_text(&ek_cs);
    // data sealed directly under the entry key
    let data_cs =
        rbw_agent::crypto::encrypt(&SymKey { bytes: entry_key_bytes }, b"per-entry secret");
    let data_text = rbw_agent::cipherstring::to_text(&data_cs);
    match handle_request(
        &mut agent,
        Action::Decrypt { cipherstring: data_text, entry_key: Some(ek_text), org_id: None },
        1,
    ) {
        Outcome::Reply(Response::Decrypt { plaintext }) => {
            assert_eq!(plaintext, b"per-entry secret".to_vec())
        }
        _ => panic!("the entry key must be used for the entry's data"),
    }
}
