//! The session: the agent's single mutable resource. Locked means no key
//! material at all; Unlocked means the derived vault key, the unwrapped
//! organization keys, and the time at which the auto-lock timer will force
//! a transition back to Locked. Key material is overwritten with zeros on
//! every transition to Locked, never merely dropped.

use vstd::prelude::*;
use crate::crypto::{SymKey, spec_master_key, spec_verification_hash, verify_master_password};
use crate::protocol::ErrorKind;
use crate::util::wipe_bytes;

verus! {

/// The agent's session. The lock state is exactly the presence of the
/// master key: populated if and only if unlocked.
pub struct Session {
    /// The derived vault key; `Some` exactly while unlocked.
    pub master_key: Option<SymKey>,
    /// Unwrapped organization keys, by organization id; empty while locked.
    pub org_keys: Vec<(Vec<u8>, SymKey)>,
    /// The moment the auto-lock timer will force a lock; meaningful only
    /// while unlocked.
    pub expiry: u64,
    /// The configured inactivity timeout.
    pub timeout: u64,
}

/// The organization key stored under `id`, first match.
pub open spec fn spec_org_key(s: Seq<(Vec<u8>, SymKey)>, id: Seq<u8>) -> Option<SymKey>
    decreases s.len(),
{
    if s.len() == 0 {
        None
    } else if s[0].0@ == id {
        Some(s[0].1)
    } else {
        spec_org_key(s.skip(1), id)
    }
}

impl Session {
    /// Unlocked exactly when the master key is present.
    pub open spec fn is_unlocked(&self) -> bool {
        self.master_key is Some
    }

    /// Read-only lock-state query.
    pub fn unlocked(&self) -> (r: bool)
        ensures
            r == self.is_unlocked(),
    {
        self.master_key.is_some()
    }

    /// No key material at all.
    pub open spec fn erased(&self) -> bool {
        self.master_key is None && self.org_keys@.len() == 0
    }

    /// Well-formed: locked sessions hold no key material of any kind, and
    /// whatever keys are held are whole vault keys.
    pub open spec fn wf(&self) -> bool {
        &&& (self.master_key matches Some(k) ==> k.wf())
        &&& (!self.is_unlocked() ==> self.org_keys@.len() == 0)
        &&& (forall|i: int| 0 <= i < self.org_keys@.len() ==> (#[trigger] self.org_keys@[i]).1.wf())
    }

    /// The master key's bytes; meaningful only while unlocked.
    pub open spec fn master_bytes(&self) -> Seq<u8> {
        match self.master_key {
            Some(k) => k.bytes@,
            None => Seq::empty(),
        }
    }

    /// A session starts its life locked and stays for the process lifetime.
    pub fn new(timeout: u64) -> (r: Session)
        ensures
            r.wf(),
            !r.is_unlocked(),
            r.erased(),
            r.timeout == timeout,
            r.expiry == 0,
    {
        Session { master_key: None, org_keys: Vec::new(), expiry: 0, timeout }
    }

    /// Erases all key material and locks. Always succeeds; idempotent: on
    /// an already locked session it changes nothing at all. Every byte of
    /// every held key is overwritten with zeros before being released.
    pub fn lock(&mut self)
        requires
            old(self).wf(),
        ensures
            final(self).wf(),
            !final(self).is_unlocked(),
            final(self).erased(),
            final(self).timeout == old(self).timeout,
            final(self).expiry == old(self).expiry,
            !old(self).is_unlocked() ==> *final(self) == *old(self),
    {
        if self.master_key.is_none() {
            return ;
        }
        match self.master_key.take() {
            Some(mut k) => {
                wipe_bytes(&mut k.bytes);
            },
            None => {},
        }
        while self.org_keys.len() > 0
            invariant
                self.master_key is None,
                self.timeout == old(self).timeout,
                self.expiry == old(self).expiry,
            decreases self.org_keys@.len(),
        {
            match self.org_keys.pop() {
                Some(mut pair) => {
                    wipe_bytes(&mut pair.1.bytes);
                },
                None => {},
            }
        }
    }

    /// Local unlock: derive the key from the password, compare the local
    /// verification value, and populate the session only on a match. A
    /// wrong master password leaves the session exactly as it was — locked,
    /// with no key material retained — and surfaces an authentication
    /// error. Unlocking an unlocked session changes nothing.
    pub fn unlock(
        &mut self,
        password: &[u8],
        salt: &[u8],
        iterations: u32,
        stored_hash: &[u8],
        now: u64,
    ) -> (r: Result<(), ErrorKind>)
        requires
            old(self).wf(),
            iterations >= 1,
            now <= u64::MAX - old(self).timeout,
        ensures
            final(self).wf(),
            final(self).timeout == old(self).timeout,
            old(self).is_unlocked() ==> r == Result::<(), ErrorKind>::Ok(()) && *final(self)
                == *old(self),
            !old(self).is_unlocked() ==> ({
                let mk = spec_master_key(password@, salt@, iterations);
                match r {
                    Ok(_) => stored_hash@ == spec_verification_hash(mk, password@)
                        && final(self).is_unlocked() && final(self).master_bytes() == mk
                        && final(self).org_keys@.len() == 0
                        && final(self).expiry == now + old(self).timeout,
                    Err(e) => e == ErrorKind::Auth && stored_hash@ != spec_verification_hash(
                        mk,
                        password@,
                    ) && *final(self) == *old(self),
                }
            }),
    {
        if self.master_key.is_some() {
            return Ok(());
        }
        match verify_master_password(password, salt, iterations, stored_hash) {
            Some(key) => {
                self.master_key = Some(key);
                self.expiry = now + self.timeout;
                Ok(())
            },
            None => Err(ErrorKind::Auth),
        }
    }

    /// The all-or-nothing final step of a full login: the remote service
    /// accepted the credentials and the key is in hand; populate the
    /// session and arm the auto-lock timer. Any keys of a previous session
    /// are erased first.
    pub fn login_complete(&mut self, key: SymKey, now: u64)
        requires
            old(self).wf(),
            key.wf(),
            now <= u64::MAX - old(self).timeout,
        ensures
            final(self).wf(),
            final(self).is_unlocked(),
            final(self).master_bytes() == key.bytes@,
            final(self).org_keys@.len() == 0,
            final(self).timeout == old(self).timeout,
            final(self).expiry == now + old(self).timeout,
    {
        self.lock();
        self.master_key = Some(key);
        self.expiry = now + self.timeout;
    }

    /// Stores an unwrapped organization key; only an unlocked session may
    /// hold keys.
    pub fn add_org_key(&mut self, org_id: Vec<u8>, key: SymKey)
        requires
            old(self).wf(),
            old(self).is_unlocked(),
            key.wf(),
        ensures
            final(self).wf(),
            final(self).org_keys@ == old(self).org_keys@.push((org_id, key)),
            final(self).master_key == old(self).master_key,
            final(self).expiry == old(self).expiry,
            final(self).timeout == old(self).timeout,
            final(self).is_unlocked(),
    {
        self.org_keys.push((org_id, key));
    }

    /// Looks up an organization key.
    pub fn org_key(&self, org_id: &[u8]) -> (r: Option<&SymKey>)
        ensures
            match r {
                Some(k) => spec_org_key(self.org_keys@, org_id@) == Some(*k),
                None => spec_org_key(self.org_keys@, org_id@) is None,
            },
    {
        let mut i: usize = 0;
        proof {
            assert(self.org_keys@.skip(0) =~= self.org_keys@);
        }
        while i < self.org_keys.len()
            invariant
                0 <= i <= self.org_keys@.len(),
                spec_org_key(self.org_keys@, org_id@) == spec_org_key(
                    self.org_keys@.skip(i as int),
                    org_id@,
                ),
            decreases self.org_keys@.len() - i,
        {
            proof {
                assert(self.org_keys@.skip(i as int)[0] == self.org_keys@[i as int]);
                assert(self.org_keys@.skip(i as int).skip(1) =~= self.org_keys@.skip(i + 1 as int));
            }
            let pair = &self.org_keys[i];
            if crate::util::bytes_eq(pair.0.as_slice(), org_id) {
                return Some(&pair.1);
            }
            i += 1;
        }
        None
    }

    /// The auto-lock timer's transition: past the expiry, an unlocked
    /// session is forced to Locked and its key material erased; otherwise
    /// nothing changes. A locked session is never touched.
    pub fn check_expiry(&mut self, now: u64)
        requires
            old(self).wf(),
        ensures
            final(self).wf(),
            final(self).timeout == old(self).timeout,
            final(self).expiry == old(self).expiry,
            old(self).is_unlocked() && now >= old(self).expiry ==> !final(self).is_unlocked()
                && final(self).erased(),
            old(self).is_unlocked() && now < old(self).expiry ==> *final(self) == *old(self),
            !old(self).is_unlocked() ==> *final(self) == *old(self),
    {
        if self.master_key.is_some() && now >= self.expiry {
            self.lock();
        }
    }

    /// Records activity: pushes the auto-lock expiry out to `now` plus the
    /// configured timeout. Only decrypt/encrypt-style activity calls this;
    /// a pure status probe never does.
    pub fn touch(&mut self, now: u64)
        requires
            old(self).wf(),
            old(self).is_unlocked(),
            now <= u64::MAX - old(self).timeout,
        ensures
            final(self).wf(),
            final(self).is_unlocked(),
            final(self).master_key == old(self).master_key,
            final(self).org_keys == old(self).org_keys,
            final(self).timeout == old(self).timeout,
            final(self).expiry == now + old(self).timeout,
    {
        self.expiry = now + self.timeout;
    }
}

/// Non-extension: a status probe never extends a session. If two probes
/// are separated by more than the configured timeout, and the expiry was
/// not pushed out past the first probe's moment by some other activity,
/// the second probe finds the session already forced to Locked.
pub proof fn lemma_probe_does_not_extend(s: Session, t1: u64, t2: u64)
    requires
        s.wf(),
        s.is_unlocked(),
        s.expiry <= t1 + s.timeout,
        t1 + s.timeout < t2,
    ensures
        t2 >= s.expiry,
{
}

} // verus!
