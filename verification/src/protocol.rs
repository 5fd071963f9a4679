//! The request/response protocol spoken over the local channel: one request
//! per connection, one response back. Also the caller-environment metadata a
//! request carries, restricted to a fixed allow-list of variable names, and
//! the client-side classification of responses.

use vstd::prelude::*;

verus! {

/// Error taxonomy. Every failure the agent or the client surfaces is one of
/// these kinds.
#[derive(Clone, Copy, Debug, PartialEq, Eq, Structural)]
pub enum ErrorKind {
    /// The agent is unreachable; the caller may start it and retry.
    Connection,
    /// The response shape was unexpected for the action sent.
    Protocol,
    /// Bad master password or failed remote authentication.
    Auth,
    /// Login needs an additional challenge; distinct from `Auth`.
    SecondFactor,
    /// The operation requires an unlocked session.
    Locked,
    /// Malformed cipherstring or authentication-tag mismatch.
    Crypto,
    /// The remote service was unreachable.
    Network,
}

/// The fixed set of environment variable names a request may carry; anything
/// else is never forwarded to the agent.
#[derive(Clone, Copy, Debug, PartialEq, Eq, Structural)]
pub enum EnvVar {
    Display,
    WaylandDisplay,
    Xauthority,
    SshAuthSock,
    GpgTty,
}

/// Caller context forwarded with each request: the terminal the prompt
/// provider should attach to, and one slot per allow-listed variable —
/// nothing else can even be represented, so no unrelated variable is ever
/// forwarded.
pub struct Environment {
    pub tty: Option<Vec<u8>>,
    pub display: Option<Vec<u8>>,
    pub wayland_display: Option<Vec<u8>>,
    pub xauthority: Option<Vec<u8>>,
    pub ssh_auth_sock: Option<Vec<u8>>,
    pub gpg_tty: Option<Vec<u8>>,
}

/// One request action.
pub enum Action {
    Register,
    Login,
    Unlock,
    CheckLock,
    Sync,
    Lock,
    Quit,
    Decrypt { cipherstring: Vec<u8>, entry_key: Option<Vec<u8>>, org_id: Option<Vec<u8>> },
    Encrypt { plaintext: Vec<u8>, org_id: Option<Vec<u8>> },
    ClipboardStore { text: Vec<u8> },
    Version,
}

/// One request envelope.
pub struct Request {
    pub environment: Environment,
    pub action: Action,
}

/// One response envelope.
pub enum Response {
    Ack,
    Error { error: ErrorKind },
    Decrypt { plaintext: Vec<u8> },
    Encrypt { cipherstring: Vec<u8> },
    Version { version: u32 },
}

/// A simple action succeeds exactly when the agent acknowledged; an error
/// response carries its kind through, and any other shape is a protocol
/// mismatch on the caller's side.
pub fn expect_ack(res: Response) -> (r: Result<(), ErrorKind>)
    ensures
        match res {
            Response::Ack => r == Result::<(), ErrorKind>::Ok(()),
            Response::Error { error } => r == Result::<(), ErrorKind>::Err(error),
            _ => r == Result::<(), ErrorKind>::Err(ErrorKind::Protocol),
        },
{
    match res {
        Response::Ack => Ok(()),
        Response::Error { error } => Err(error),
        _ => Err(ErrorKind::Protocol),
    }
}

/// A decrypt request must come back as plaintext; anything else is the
/// carried error, or a protocol mismatch.
pub fn expect_decrypt(res: Response) -> (r: Result<Vec<u8>, ErrorKind>)
    ensures
        match res {
            Response::Decrypt { plaintext } => r == Result::<Vec<u8>, ErrorKind>::Ok(plaintext),
            Response::Error { error } => r == Result::<Vec<u8>, ErrorKind>::Err(error),
            _ => r == Result::<Vec<u8>, ErrorKind>::Err(ErrorKind::Protocol),
        },
{
    match res {
        Response::Decrypt { plaintext } => Ok(plaintext),
        Response::Error { error } => Err(error),
        _ => Err(ErrorKind::Protocol),
    }
}

/// An encrypt request must come back as a cipherstring.
pub fn expect_encrypt(res: Response) -> (r: Result<Vec<u8>, ErrorKind>)
    ensures
        match res {
            Response::Encrypt { cipherstring } => r == Result::<Vec<u8>, ErrorKind>::Ok(
                cipherstring,
            ),
            Response::Error { error } => r == Result::<Vec<u8>, ErrorKind>::Err(error),
            _ => r == Result::<Vec<u8>, ErrorKind>::Err(ErrorKind::Protocol),
        },
{
    match res {
        Response::Encrypt { cipherstring } => Ok(cipherstring),
        Response::Error { error } => Err(error),
        _ => Err(ErrorKind::Protocol),
    }
}

/// A version request must come back as a version number.
pub fn expect_version(res: Response) -> (r: Result<u32, ErrorKind>)
    ensures
        match res {
            Response::Version { version } => r == Result::<u32, ErrorKind>::Ok(version),
            Response::Error { error } => r == Result::<u32, ErrorKind>::Err(error),
            _ => r == Result::<u32, ErrorKind>::Err(ErrorKind::Protocol),
        },
{
    match res {
        Response::Version { version } => Ok(version),
        Response::Error { error } => Err(error),
        _ => Err(ErrorKind::Protocol),
    }
}

/// A connect failure of these two kinds means no agent is listening on the
/// endpoint, a recoverable condition distinct from other I/O errors.
#[derive(Clone, Copy, Debug, PartialEq, Eq, Structural)]
pub enum ConnectFailure {
    Refused,
    NotFound,
    Other,
}

/// Whether a failed connect means the agent is simply not running.
pub open spec fn spec_agent_absent(e: ConnectFailure) -> bool {
    e == ConnectFailure::Refused || e == ConnectFailure::NotFound
}

/// Whether a connect failure means the agent is simply not running.
pub fn agent_absent(e: ConnectFailure) -> (r: bool)
    ensures
        r == spec_agent_absent(e),
{
    match e {
        ConnectFailure::Refused => true,
        ConnectFailure::NotFound => true,
        ConnectFailure::Other => false,
    }
}

/// Quit must succeed when no agent is listening: there is nothing to stop.
/// Any other connect failure is a real error.
pub fn quit_connect_outcome(e: ConnectFailure) -> (r: Result<(), ErrorKind>)
    ensures
        r == Result::<(), ErrorKind>::Ok(()) <==> spec_agent_absent(e),
        !spec_agent_absent(e) ==> r == Result::<(), ErrorKind>::Err(ErrorKind::Connection),
{
    match e {
        ConnectFailure::Refused => Ok(()),
        ConnectFailure::NotFound => Ok(()),
        ConnectFailure::Other => Err(ErrorKind::Connection),
    }
}

/// `DISPLAY`, as bytes.
pub open spec fn name_display() -> Seq<u8> {
    seq![68u8, 73u8, 83u8, 80u8, 76u8, 65u8, 89u8]
}

/// `WAYLAND_DISPLAY`, as bytes.
pub open spec fn name_wayland_display() -> Seq<u8> {
    seq![87u8, 65u8, 89u8, 76u8, 65u8, 78u8, 68u8, 95u8, 68u8, 73u8, 83u8, 80u8, 76u8, 65u8, 89u8]
}

/// `XAUTHORITY`, as bytes.
pub open spec fn name_xauthority() -> Seq<u8> {
    seq![88u8, 65u8, 85u8, 84u8, 72u8, 79u8, 82u8, 73u8, 84u8, 89u8]
}

/// `SSH_AUTH_SOCK`, as bytes.
pub open spec fn name_ssh_auth_sock() -> Seq<u8> {
    seq![83u8, 83u8, 72u8, 95u8, 65u8, 85u8, 84u8, 72u8, 95u8, 83u8, 79u8, 67u8, 75u8]
}

/// `GPG_TTY`, as bytes.
pub open spec fn name_gpg_tty() -> Seq<u8> {
    seq![71u8, 80u8, 71u8, 95u8, 84u8, 84u8, 89u8]
}

/// The allow-list itself: which variable name each `EnvVar` stands for.
pub open spec fn spec_classify_var(name: Seq<u8>) -> Option<EnvVar> {
    if name == name_display() {
        Some(EnvVar::Display)
    } else if name == name_wayland_display() {
        Some(EnvVar::WaylandDisplay)
    } else if name == name_xauthority() {
        Some(EnvVar::Xauthority)
    } else if name == name_ssh_auth_sock() {
        Some(EnvVar::SshAuthSock)
    } else if name == name_gpg_tty() {
        Some(EnvVar::GpgTty)
    } else {
        None
    }
}

/// Sorts a variable name into the allow-list, or rejects it. Exactly the
/// names of the fixed set are accepted.
pub fn classify_var(name: &[u8]) -> (r: Option<EnvVar>)
    ensures
        r == spec_classify_var(name@),
{
    let display: [u8; 7] = [68u8, 73u8, 83u8, 80u8, 76u8, 65u8, 89u8];
    let wayland: [u8; 15] = [
        87u8,
        65u8,
        89u8,
        76u8,
        65u8,
        78u8,
        68u8,
        95u8,
        68u8,
        73u8,
        83u8,
        80u8,
        76u8,
        65u8,
        89u8,
    ];
    let xauthority: [u8; 10] = [88u8, 65u8, 85u8, 84u8, 72u8, 79u8, 82u8, 73u8, 84u8, 89u8];
    let ssh_auth_sock: [u8; 13] = [
        83u8,
        83u8,
        72u8,
        95u8,
        65u8,
        85u8,
        84u8,
        72u8,
        95u8,
        83u8,
        79u8,
        67u8,
        75u8,
    ];
    let gpg_tty: [u8; 7] = [71u8, 80u8, 71u8, 95u8, 84u8, 84u8, 89u8];
    proof {
        assert(display@ =~= name_display());
        assert(wayland@ =~= name_wayland_display());
        assert(xauthority@ =~= name_xauthority());
        assert(ssh_auth_sock@ =~= name_ssh_auth_sock());
        assert(gpg_tty@ =~= name_gpg_tty());
    }
    if crate::util::bytes_eq(name, display.as_slice()) {
        Some(EnvVar::Display)
    } else if crate::util::bytes_eq(name, wayland.as_slice()) {
        Some(EnvVar::WaylandDisplay)
    } else if crate::util::bytes_eq(name, xauthority.as_slice()) {
        Some(EnvVar::Xauthority)
    } else if crate::util::bytes_eq(name, ssh_auth_sock.as_slice()) {
        Some(EnvVar::SshAuthSock)
    } else if crate::util::bytes_eq(name, gpg_tty.as_slice()) {
        Some(EnvVar::GpgTty)
    } else {
        None
    }
}

/// The raw name/value pairs, as mathematical byte strings.
pub open spec fn env_pairs_view(s: Seq<(Vec<u8>, Vec<u8>)>) -> Seq<(Seq<u8>, Seq<u8>)> {
    s.map_values(|p: (Vec<u8>, Vec<u8>)| (p.0@, p.1@))
}

/// The value of the first pair named `name`, if any.
pub open spec fn spec_find_var(s: Seq<(Seq<u8>, Seq<u8>)>, name: Seq<u8>) -> Option<Seq<u8>>
    decreases s.len(),
{
    if s.len() == 0 {
        None
    } else {
        let earlier = spec_find_var(s.drop_last(), name);
        if earlier is Some {
            earlier
        } else if s.last().0 == name {
            Some(s.last().1)
        } else {
            None
        }
    }
}

/// The five allow-listed names are pairwise distinct.
proof fn lemma_names_distinct()
    ensures
        name_display() != name_wayland_display(),
        name_display() != name_xauthority(),
        name_display() != name_ssh_auth_sock(),
        name_display() != name_gpg_tty(),
        name_wayland_display() != name_xauthority(),
        name_wayland_display() != name_ssh_auth_sock(),
        name_wayland_display() != name_gpg_tty(),
        name_xauthority() != name_ssh_auth_sock(),
        name_xauthority() != name_gpg_tty(),
        name_ssh_auth_sock() != name_gpg_tty(),
{
    assert(name_display().len() == 7);
    assert(name_wayland_display().len() == 15);
    assert(name_xauthority().len() == 10);
    assert(name_ssh_auth_sock().len() == 13);
    assert(name_gpg_tty().len() == 7);
    assert(name_display()[0] == 68u8);
    assert(name_gpg_tty()[0] == 71u8);
}

/// Builds the caller environment from a raw list of name/value pairs: each
/// allow-listed variable takes the value of its first occurrence; every
/// other variable is dropped, never forwarded.
pub fn filter_env(tty: Option<Vec<u8>>, raw: &Vec<(Vec<u8>, Vec<u8>)>) -> (r: Environment)
    ensures
        r.tty == tty,
        crate::util::opt_bytes(r.display) == spec_find_var(env_pairs_view(raw@), name_display()),
        crate::util::opt_bytes(r.wayland_display) == spec_find_var(
            env_pairs_view(raw@),
            name_wayland_display(),
        ),
        crate::util::opt_bytes(r.xauthority) == spec_find_var(
            env_pairs_view(raw@),
            name_xauthority(),
        ),
        crate::util::opt_bytes(r.ssh_auth_sock) == spec_find_var(
            env_pairs_view(raw@),
            name_ssh_auth_sock(),
        ),
        crate::util::opt_bytes(r.gpg_tty) == spec_find_var(env_pairs_view(raw@), name_gpg_tty()),
{
    let ghost ev = env_pairs_view(raw@);
    let mut env = Environment {
        tty,
        display: None,
        wayland_display: None,
        xauthority: None,
        ssh_auth_sock: None,
        gpg_tty: None,
    };
    let ghost tty0 = env.tty;
    let mut i: usize = 0;
    while i < raw.len()
        invariant
            0 <= i <= raw@.len(),
            ev == env_pairs_view(raw@),
            ev.len() == raw@.len(),
            env.tty == tty0,
            crate::util::opt_bytes(env.display) == spec_find_var(ev.take(i as int), name_display()),
            crate::util::opt_bytes(env.wayland_display) == spec_find_var(
                ev.take(i as int),
                name_wayland_display(),
            ),
            crate::util::opt_bytes(env.xauthority) == spec_find_var(
                ev.take(i as int),
                name_xauthority(),
            ),
            crate::util::opt_bytes(env.ssh_auth_sock) == spec_find_var(
                ev.take(i as int),
                name_ssh_auth_sock(),
            ),
            crate::util::opt_bytes(env.gpg_tty) == spec_find_var(ev.take(i as int), name_gpg_tty()),
        decreases raw@.len() - i,
    {
        proof {
            lemma_names_distinct();
            assert(ev.take(i + 1 as int).drop_last() =~= ev.take(i as int));
            assert(ev.take(i + 1 as int).last() == ev[i as int]);
            assert(ev[i as int] == (raw@[i as int].0@, raw@[i as int].1@));
        }
        let pair = &raw[i];
        match classify_var(pair.0.as_slice()) {
            Some(EnvVar::Display) => {
                if env.display.is_none() {
                    env.display = Some(crate::util::copy_bytes(pair.1.as_slice()));
                }
            },
            Some(EnvVar::WaylandDisplay) => {
                if env.wayland_display.is_none() {
                    env.wayland_display = Some(crate::util::copy_bytes(pair.1.as_slice()));
                }
            },
            Some(EnvVar::Xauthority) => {
                if env.xauthority.is_none() {
                    env.xauthority = Some(crate::util::copy_bytes(pair.1.as_slice()));
                }
            },
            Some(EnvVar::SshAuthSock) => {
                if env.ssh_auth_sock.is_none() {
                    env.ssh_auth_sock = Some(crate::util::copy_bytes(pair.1.as_slice()));
                }
            },
            Some(EnvVar::GpgTty) => {
                if env.gpg_tty.is_none() {
                    env.gpg_tty = Some(crate::util::copy_bytes(pair.1.as_slice()));
                }
            },
            None => {},
        }
        i += 1;
    }
    proof {
        assert(ev.take(raw@.len() as int) =~= ev);
    }
    env
}

} // verus!
