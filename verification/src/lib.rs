//! Core of a password-manager agent: the session state machine that guards
//! decrypted vault key material, the cryptographic engine that derives keys
//! and seals/opens cipherstrings, the request dispatcher that arbitrates
//! client actions against the session, and the byte-level framing of the
//! local request/response channel.

pub mod b64;
pub mod cipherstring;
pub mod crypto;
pub mod dispatch;
pub mod protocol;
pub mod session;
pub mod util;
pub mod wire;

use vstd::prelude::*;

verus! {

/// Protocol version spoken by this agent; clients compare it against their
/// own before issuing further actions.
pub const PROTOCOL_VERSION: u32 = 1;

/// The agent's protocol version, as reported by the `Version` action.
pub fn protocol_version() -> (r: u32)
    ensures
        r == PROTOCOL_VERSION,
{
    PROTOCOL_VERSION
}

} // verus!
