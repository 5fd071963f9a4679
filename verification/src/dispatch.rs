//! The request dispatcher: routes each decoded action against the session
//! and the vault cache, enforcing the lock discipline. Actions whose work
//! is remote (register, login, sync) or interactive (unlock) come back as
//! directives for the surrounding process; everything local is decided and
//! answered here, with the auto-lock timer's transition applied first.

use vstd::prelude::*;
use crate::cipherstring::{CipherStringModel, format_parseable, parse, spec_format, to_text};
use crate::crypto::{SymKey, decrypt, decrypt_key, decrypts_to, encrypt};
use crate::protocol::{Action, ErrorKind, Response};
use crate::session::{Session, spec_org_key};
use crate::util::{copy_bytes, opt_bytes, opt_ref_bytes};

verus! {

/// The last-fetched encrypted vault snapshot and its revision marker;
/// created empty, replaced only by a completed sync.
pub struct VaultCache {
    pub blob: Vec<u8>,
    pub revision: Vec<u8>,
}

impl VaultCache {
    pub fn new() -> (r: VaultCache)
        ensures
            r.blob@.len() == 0,
            r.revision@.len() == 0,
    {
        VaultCache { blob: Vec::new(), revision: Vec::new() }
    }

    /// Replaces the snapshot wholesale; nothing else ever writes it.
    pub fn apply_sync(&mut self, blob: Vec<u8>, revision: Vec<u8>)
        ensures
            final(self).blob == blob,
            final(self).revision == revision,
    {
        self.blob = blob;
        self.revision = revision;
    }
}

/// The whole mutable state the dispatcher serializes access to.
pub struct Agent {
    pub session: Session,
    pub vault: VaultCache,
}

/// What handling one request comes to: a finished reply, or a directive to
/// the surrounding process for work that needs the network or a prompt,
/// or a reply followed by graceful shutdown.
pub enum Outcome {
    Reply(Response),
    NeedRegister,
    NeedLogin,
    NeedUnlock,
    NeedSync,
    Shutdown(Response),
}

/// The key an explicit org id selects, or the user's own master key: the
/// lowest rung of the resolution precedence.
pub open spec fn spec_base_key(s: Session, org_id: Option<Seq<u8>>) -> Option<Seq<u8>> {
    match org_id {
        Some(id) => match spec_org_key(s.org_keys@, id) {
            Some(k) => Some(k.bytes@),
            None => None,
        },
        None => Some(s.master_bytes()),
    }
}

/// `k` is a key the request's arguments can resolve to: an entry key (a
/// cipherstring opened under the base key) takes precedence over the org
/// key, which takes precedence over the master key.
#[verifier::opaque]
pub open spec fn resolved_ok(s: Session, ek: Option<Seq<u8>>, org: Option<Seq<u8>>, k: Seq<u8>) -> bool {
    match spec_base_key(s, org) {
        Some(b) => match ek {
            None => k == b,
            Some(t) => exists|cm: CipherStringModel|
                cm.wf() && t == spec_format(cm) && decrypts_to(b, cm, k) && k.len() == 64,
        },
        None => false,
    }
}

/// As `resolved_ok`, restricted to parseable entry-key texts: on these the
/// resolution is owed to succeed.
#[verifier::opaque]
pub open spec fn resolves_surely(s: Session, ek: Option<Seq<u8>>, org: Option<Seq<u8>>, k: Seq<u8>) -> bool {
    match spec_base_key(s, org) {
        Some(b) => match ek {
            None => k == b,
            Some(t) => exists|cm: CipherStringModel|
                cm.wf() && format_parseable(cm) && t == spec_format(cm) && decrypts_to(b, cm, k)
                    && k.len() == 64,
        },
        None => false,
    }
}

proof fn lemma_org_key_wf(s: Seq<(Vec<u8>, SymKey)>, id: Seq<u8>)
    requires
        forall|i: int| 0 <= i < s.len() ==> (#[trigger] s[i]).1.wf(),
    ensures
        spec_org_key(s, id) matches Some(k) ==> k.wf(),
    decreases s.len(),
{
    if s.len() > 0 && s[0].0@ != id {
        lemma_org_key_wf(s.skip(1), id);
    }
}

/// Resolves the key a decrypt/encrypt request uses, by the fixed
/// precedence: an explicit entry key — itself a cipherstring, opened under
/// the org or user key — over an explicit org id's key, over the user's
/// master key. Fails exactly when the org id is unknown or the entry key
/// does not parse and open as a whole vault key.
pub fn resolve_key(session: &Session, entry_key: Option<&Vec<u8>>, org_id: Option<&Vec<u8>>) -> (r:
    Result<SymKey, ErrorKind>)
    requires
        session.wf(),
        session.is_unlocked(),
    ensures
        r matches Ok(k) ==> k.wf() && resolved_ok(
            *session,
            opt_ref_bytes(entry_key),
            opt_ref_bytes(org_id),
            k.bytes@,
        ),
        r matches Err(e) ==> e == ErrorKind::Crypto,
        entry_key is None ==> (spec_base_key(*session, opt_ref_bytes(org_id)) matches Some(b) ==> (
        r matches Ok(k) && k.bytes@ == b)),
        spec_base_key(*session, opt_ref_bytes(org_id)) is None ==> r is Err,
        forall|k: Seq<u8>| #[trigger]
            resolves_surely(*session, opt_ref_bytes(entry_key), opt_ref_bytes(org_id), k) ==> (
            r matches Ok(k2) && k2.bytes@ == k),
{
    proof {
        reveal(resolved_ok);
        reveal(resolves_surely);
    }
    let base: &SymKey = match org_id {
        Some(id) => {
            match session.org_key(id.as_slice()) {
                Some(k) => {
                    proof {
                        lemma_org_key_wf(session.org_keys@, id@);
                    }
                    k
                },
                None => {
                    return Err(ErrorKind::Crypto);
                },
            }
        },
        None => {
            match &session.master_key {
                Some(k) => k,
                None => {
                    return Err(ErrorKind::Crypto);
                },
            }
        },
    };
    match entry_key {
        None => Ok(SymKey { bytes: copy_bytes(base.bytes.as_slice()) }),
        Some(ek) => {
            let cs = match parse(ek.as_slice()) {
                Ok(c) => c,
                Err(e) => {
                    return Err(e);
                },
            };
            decrypt_key(base, &cs)
        },
    }
}

/// The forced-lock transition the auto-lock timer applies before a request
/// is looked at: past the expiry the session is locked and erased, else
/// untouched.
pub open spec fn expiry_step(s0: Session, s1: Session, now: u64) -> bool {
    if s0.is_unlocked() && now >= s0.expiry {
        !s1.is_unlocked() && s1.erased() && s1.expiry == s0.expiry && s1.timeout == s0.timeout
    } else {
        s1 == s0
    }
}

/// The session after successful decrypt/encrypt activity: unchanged but
/// for the expiry, pushed out to `now` plus the timeout.
pub open spec fn touched(s0: Session, s1: Session, now: u64) -> bool {
    s1.is_unlocked() && s1.master_key == s0.master_key && s1.org_keys == s0.org_keys && s1.timeout
        == s0.timeout && s1.expiry == now + s0.timeout
}

/// A decrypt reply is right: under some key the arguments resolve to, the
/// request's cipherstring text is a well-formed encoding that decrypts to
/// exactly the returned plaintext.
#[verifier::opaque]
pub open spec fn decrypt_reply_ok(
    s0: Session,
    ek: Option<Seq<u8>>,
    org: Option<Seq<u8>>,
    text: Seq<u8>,
    pt: Seq<u8>,
) -> bool {
    exists|k: Seq<u8>, cm: CipherStringModel|
        resolved_ok(s0, ek, org, k) && cm.wf() && text == spec_format(cm) && decrypts_to(k, cm, pt)
}

/// Handles one decoded request against the agent state, the auto-lock
/// timer's transition applied first (except for Version, which reads no
/// session state at all). Exactly one outcome per request. Decrypt,
/// Encrypt and Sync while locked fail with the lock error and leave both
/// the session and the vault cache untouched; a status probe never moves
/// the expiry; Lock is unconditional and idempotent; Quit erases the
/// session before shutdown.
#[verifier::rlimit(100)]
pub fn handle_request(agent: &mut Agent, action: Action, now: u64) -> (r: Outcome)
    requires
        old(agent).session.wf(),
        now <= u64::MAX - old(agent).session.timeout,
        (action matches Action::Encrypt { plaintext, .. } ==> plaintext@.len() + 32
            <= usize::MAX),
    ensures
        final(agent).session.wf(),
        final(agent).session.timeout == old(agent).session.timeout,
        ({
            let s0 = old(agent).session;
            let s1 = final(agent).session;
            let locked_now = !s0.is_unlocked() || now >= s0.expiry;
            match action {
                Action::Version => r == Outcome::Reply(
                    Response::Version { version: crate::PROTOCOL_VERSION },
                ) && *final(agent) == *old(agent),
                Action::CheckLock => final(agent).vault == old(agent).vault && expiry_step(
                    s0,
                    s1,
                    now,
                ) && s1.expiry == s0.expiry && (locked_now ==> r == Outcome::Reply(
                    Response::Error { error: ErrorKind::Locked },
                )) && (!locked_now ==> r == Outcome::Reply(Response::Ack)),
                Action::Lock => final(agent).vault == old(agent).vault && r == Outcome::Reply(
                    Response::Ack,
                ) && !s1.is_unlocked() && s1.erased() && s1.expiry == s0.expiry && (
                !s0.is_unlocked() ==> s1 == s0),
                Action::Quit => final(agent).vault == old(agent).vault && r == Outcome::Shutdown(
                    Response::Ack,
                ) && !s1.is_unlocked() && s1.erased(),
                Action::ClipboardStore { .. } => final(agent).vault == old(agent).vault && r
                    == Outcome::Reply(Response::Ack) && expiry_step(s0, s1, now),
                Action::Register => final(agent).vault == old(agent).vault && r
                    == Outcome::NeedRegister && expiry_step(s0, s1, now),
                Action::Login => final(agent).vault == old(agent).vault && expiry_step(s0, s1, now)
                    && (locked_now ==> r == Outcome::NeedLogin) && (!locked_now ==> r
                    == Outcome::Reply(Response::Ack)),
                Action::Unlock => final(agent).vault == old(agent).vault && expiry_step(
                    s0,
                    s1,
                    now,
                ) && (locked_now ==> r == Outcome::NeedUnlock) && (!locked_now ==> r
                    == Outcome::Reply(Response::Ack)),
                Action::Sync => final(agent).vault == old(agent).vault && expiry_step(s0, s1, now)
                    && (locked_now ==> r == Outcome::Reply(
                    Response::Error { error: ErrorKind::Locked },
                )) && (!locked_now ==> r == Outcome::NeedSync),
                Action::Decrypt { cipherstring, entry_key, org_id } => final(agent).vault == old(
                    agent,
                ).vault && (locked_now ==> r == Outcome::Reply(
                    Response::Error { error: ErrorKind::Locked },
                ) && expiry_step(s0, s1, now)) && (!locked_now ==> ({
                    &&& (r matches Outcome::Reply(resp) && (resp is Decrypt || (
                    resp matches Response::Error { error } && error == ErrorKind::Crypto)))
                    &&& (r matches Outcome::Reply(Response::Decrypt { plaintext }) ==> touched(
                        s0,
                        s1,
                        now,
                    ) && decrypt_reply_ok(
                        s0,
                        opt_bytes(entry_key),
                        opt_bytes(org_id),
                        cipherstring@,
                        plaintext@,
                    ))
                    &&& (r matches Outcome::Reply(Response::Error { .. }) ==> s1 == s0)
                    &&& (forall|k: Seq<u8>, cm: CipherStringModel, p: Seq<u8>|
                        (resolves_surely(s0, opt_bytes(entry_key), opt_bytes(org_id), k) && cm.wf()
                            && format_parseable(cm) && cipherstring@ == spec_format(cm)
                            && decrypts_to(k, cm, p)) ==> (r matches Outcome::Reply(
                            Response::Decrypt { plaintext: pt },
                        ) && pt@ == p))
                })),
                Action::Encrypt { plaintext, org_id } => final(agent).vault == old(agent).vault && (
                locked_now ==> r == Outcome::Reply(Response::Error { error: ErrorKind::Locked })
                    && expiry_step(s0, s1, now)) && (!locked_now ==> ({
                    &&& (spec_base_key(s0, opt_bytes(org_id)) matches Some(b) ==> (
                    r matches Outcome::Reply(Response::Encrypt { cipherstring }) && touched(
                        s0,
                        s1,
                        now,
                    ) && (exists|cm: CipherStringModel|
                        cm.wf() && format_parseable(cm) && cipherstring@ == spec_format(cm)
                            && decrypts_to(b, cm, plaintext@))))
                    &&& (spec_base_key(s0, opt_bytes(org_id)) is None ==> r == Outcome::Reply(
                        Response::Error { error: ErrorKind::Crypto },
                    ) && s1 == s0)
                })),
            }
        }),
{
    match action {
        Action::Version => {
            return Outcome::Reply(Response::Version { version: crate::protocol_version() });
        },
        _ => {},
    }
    agent.session.check_expiry(now);
    match action {
        Action::Version => Outcome::Reply(
            Response::Version { version: crate::protocol_version() },
        ),
        Action::CheckLock => {
            if agent.session.unlocked() {
                Outcome::Reply(Response::Ack)
            } else {
                Outcome::Reply(Response::Error { error: ErrorKind::Locked })
            }
        },
        Action::Lock => {
            agent.session.lock();
            Outcome::Reply(Response::Ack)
        },
        Action::Quit => {
            agent.session.lock();
            Outcome::Shutdown(Response::Ack)
        },
        Action::ClipboardStore { .. } => Outcome::Reply(Response::Ack),
        Action::Register => Outcome::NeedRegister,
        Action::Login => {
            if agent.session.unlocked() {
                Outcome::Reply(Response::Ack)
            } else {
                Outcome::NeedLogin
            }
        },
        Action::Unlock => {
            if agent.session.unlocked() {
                Outcome::Reply(Response::Ack)
            } else {
                Outcome::NeedUnlock
            }
        },
        Action::Sync => {
            if agent.session.unlocked() {
                Outcome::NeedSync
            } else {
                Outcome::Reply(Response::Error { error: ErrorKind::Locked })
            }
        },
        Action::Decrypt { cipherstring, entry_key, org_id } => {
            if !agent.session.unlocked() {
                return Outcome::Reply(Response::Error { error: ErrorKind::Locked });
            }
            decrypt_action(agent, cipherstring, entry_key, org_id, now)
        },
        Action::Encrypt { plaintext, org_id } => {
            if !agent.session.unlocked() {
                return Outcome::Reply(Response::Error { error: ErrorKind::Locked });
            }
            encrypt_action(agent, plaintext, org_id, now)
        },
    }
}

/// The decrypt operation against an unlocked session: resolve the key by
/// the fixed precedence, parse the cipherstring, open it; success counts as
/// activity, failure changes nothing.
#[verifier::rlimit(100)]
#[verifier::spinoff_prover]
fn decrypt_action(
    agent: &mut Agent,
    cipherstring: Vec<u8>,
    entry_key: Option<Vec<u8>>,
    org_id: Option<Vec<u8>>,
    now: u64,
) -> (r: Outcome)
    requires
        old(agent).session.wf(),
        old(agent).session.is_unlocked(),
        now <= u64::MAX - old(agent).session.timeout,
    ensures
        final(agent).session.wf(),
        final(agent).vault == old(agent).vault,
        final(agent).session.timeout == old(agent).session.timeout,
        r matches Outcome::Reply(resp) && (resp is Decrypt || (resp matches Response::Error {
            error,
        } && error == ErrorKind::Crypto)),
        r matches Outcome::Reply(Response::Decrypt { plaintext }) ==> touched(
            old(agent).session,
            final(agent).session,
            now,
        ) && decrypt_reply_ok(
            old(agent).session,
            opt_bytes(entry_key),
            opt_bytes(org_id),
            cipherstring@,
            plaintext@,
        ),
        r matches Outcome::Reply(Response::Error { .. }) ==> final(agent).session == old(
            agent,
        ).session,
        forall|k: Seq<u8>, cm: CipherStringModel, p: Seq<u8>|
            (resolves_surely(old(agent).session, opt_bytes(entry_key), opt_bytes(org_id), k)
                && cm.wf() && format_parseable(cm) && cipherstring@ == spec_format(cm)
                && decrypts_to(k, cm, p)) ==> (r matches Outcome::Reply(
                Response::Decrypt { plaintext: pt },
            ) && pt@ == p),
{
    let ghost s0 = old(agent).session;
    let ghost ekv = opt_bytes(entry_key);
    let ghost orgv = opt_bytes(org_id);
    {
            let ek_ref: Option<&Vec<u8>> = match &entry_key {
                Some(v) => Some(v),
                None => None,
            };
            let org_ref: Option<&Vec<u8>> = match &org_id {
                Some(v) => Some(v),
                None => None,
            };
            proof {
                assert(agent.session == s0);
                assert((match ek_ref {
                    Some(v) => Some(v@),
                    None => None,
                }) == ekv);
                assert((match org_ref {
                    Some(v) => Some(v@),
                    None => None,
                }) == orgv);
            }
            let key = match resolve_key(&agent.session, ek_ref, org_ref) {
                Ok(k) => k,
                Err(e) => {
                    proof {
                        assert forall|k: Seq<u8>| !resolves_surely(s0, ekv, orgv, k) by {}
                    }
                    return Outcome::Reply(Response::Error { error: e });
                },
            };
            let cs = match parse(cipherstring.as_slice()) {
                Ok(c) => c,
                Err(e) => {
                    proof {
                        assert forall|cm: CipherStringModel|
                            !(cm.wf() && format_parseable(cm) && cipherstring@ == spec_format(
                                cm,
                            )) by {}
                    }
                    return Outcome::Reply(Response::Error { error: e });
                },
            };
            let r: Outcome = match decrypt(&key, &cs) {
                Ok(plaintext) => {
                    proof {
                        assert(resolved_ok(s0, ekv, orgv, key.bytes@));
                        assert(cs@.wf() && cipherstring@ == spec_format(cs@) && decrypts_to(
                            key.bytes@,
                            cs@,
                            plaintext@,
                        ));
                        assert forall|k: Seq<u8>, cm: CipherStringModel, p: Seq<u8>|
                            (resolves_surely(s0, ekv, orgv, k) && cm.wf() && format_parseable(cm)
                                && cipherstring@ == spec_format(cm) && decrypts_to(
                                k,
                                cm,
                                p,
                            )) implies plaintext@ == p by {
                            assert(key.bytes@ == k);
                            assert(cs@ == cm);
                        }
                    }
                    agent.session.touch(now);
                    proof {
                        assert(touched(s0, agent.session, now));
                        reveal(decrypt_reply_ok);
                        assert(decrypt_reply_ok(s0, ekv, orgv, cipherstring@, plaintext@));
                    }
                    Outcome::Reply(Response::Decrypt { plaintext })
                },
                Err(e) => {
                    proof {
                        assert forall|k: Seq<u8>, cm: CipherStringModel, p: Seq<u8>|
                            !(resolves_surely(s0, ekv, orgv, k) && cm.wf() && format_parseable(cm)
                                && cipherstring@ == spec_format(cm) && decrypts_to(k, cm, p)) by {
                            if resolves_surely(s0, ekv, orgv, k) && cm.wf() && format_parseable(cm)
                                && cipherstring@ == spec_format(cm) && decrypts_to(k, cm, p) {
                                assert(key.bytes@ == k);
                                assert(cs@ == cm);
                                assert(false);
                            }
                        }
                    }
                    Outcome::Reply(Response::Error { error: e })
                },
            };
            proof {
                assert(r matches Outcome::Reply(resp) && (resp is Decrypt || (
                resp matches Response::Error { error } && error == ErrorKind::Crypto)));
                assert(r matches Outcome::Reply(Response::Decrypt { plaintext }) ==> touched(
                    s0,
                    agent.session,
                    now,
                ) && decrypt_reply_ok(s0, ekv, orgv, cipherstring@, plaintext@));
                assert(r matches Outcome::Reply(Response::Error { .. }) ==> agent.session == s0);
                assert forall|k: Seq<u8>, cm: CipherStringModel, p: Seq<u8>|
                    (resolves_surely(s0, ekv, orgv, k) && cm.wf() && format_parseable(cm)
                        && cipherstring@ == spec_format(cm) && decrypts_to(k, cm, p)) implies (
                r matches Outcome::Reply(Response::Decrypt { plaintext: pt }) && pt@ == p) by {}
            }
            r
    }
}

/// The encrypt operation against an unlocked session: resolve the key (the
/// org key if an org id is given, else the user's), seal under a fresh iv,
/// render the cipherstring text; success counts as activity.
fn encrypt_action(agent: &mut Agent, plaintext: Vec<u8>, org_id: Option<Vec<u8>>, now: u64) -> (r:
    Outcome)
    requires
        old(agent).session.wf(),
        old(agent).session.is_unlocked(),
        now <= u64::MAX - old(agent).session.timeout,
        plaintext@.len() + 32 <= usize::MAX,
    ensures
        final(agent).session.wf(),
        final(agent).vault == old(agent).vault,
        final(agent).session.timeout == old(agent).session.timeout,
        spec_base_key(old(agent).session, opt_bytes(org_id)) matches Some(b) ==> (
        r matches Outcome::Reply(Response::Encrypt { cipherstring }) && touched(
            old(agent).session,
            final(agent).session,
            now,
        ) && (exists|cm: CipherStringModel|
            cm.wf() && format_parseable(cm) && cipherstring@ == spec_format(cm) && decrypts_to(
                b,
                cm,
                plaintext@,
            ))),
        spec_base_key(old(agent).session, opt_bytes(org_id)) is None ==> r == Outcome::Reply(
            Response::Error { error: ErrorKind::Crypto },
        ) && final(agent).session == old(agent).session,
{
    let ghost s0 = old(agent).session;
    let ghost orgv = opt_bytes(org_id);
    {
            let org_ref: Option<&Vec<u8>> = match &org_id {
                Some(v) => Some(v),
                None => None,
            };
            let key = match resolve_key(&agent.session, None, org_ref) {
                Ok(k) => k,
                Err(e) => {
                    proof {
                        assert(spec_base_key(s0, orgv) is None);
                    }
                    return Outcome::Reply(Response::Error { error: e });
                },
            };
            let cs = encrypt(&key, plaintext.as_slice());
            let text = to_text(&cs);
            proof {
                assert(cs@.wf() && format_parseable(cs@) && text@ == spec_format(cs@)
                    && decrypts_to(key.bytes@, cs@, plaintext@));
            }
            agent.session.touch(now);
            Outcome::Reply(Response::Encrypt { cipherstring: text })
    }
}

} // verus!
