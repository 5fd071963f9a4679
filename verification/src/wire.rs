//! Transport framing for the local channel: each connection carries one
//! length-prefixed request envelope and one length-prefixed response
//! envelope, in a fixed little-endian binary layout. Decoding accepts
//! exactly the encodings: whatever `encode_*` produces decodes back to the
//! same message, and whatever decodes re-encodes to the input bytes.

use vstd::prelude::*;
use crate::protocol::{Action, Environment, ErrorKind, Request, Response};
use crate::util::{append_bytes, copy_range, opt_bytes};

verus! {

/// A 32-bit length, little endian.
pub open spec fn le32(n: u32) -> Seq<u8> {
    seq![
        (n & 0xff) as u8,
        ((n >> 8) & 0xff) as u8,
        ((n >> 16) & 0xff) as u8,
        ((n >> 24) & 0xff) as u8,
    ]
}

/// Two numbers with the same little-endian bytes are the same number.
pub proof fn lemma_le32_injective(a: u32, b: u32)
    requires
        le32(a) == le32(b),
    ensures
        a == b,
{
    assert(le32(a)[0] == le32(b)[0] && le32(a)[1] == le32(b)[1] && le32(a)[2] == le32(b)[2]
        && le32(a)[3] == le32(b)[3]);
    assert((a & 0xff) as u8 == (b & 0xff) as u8 && ((a >> 8) & 0xff) as u8 == ((b >> 8)
        & 0xff) as u8 && ((a >> 16) & 0xff) as u8 == ((b >> 16) & 0xff) as u8 && ((a >> 24)
        & 0xff) as u8 == ((b >> 24) & 0xff) as u8 ==> a == b) by (bit_vector);
}

/// Appends a 32-bit length, little endian.
pub fn push_u32(out: &mut Vec<u8>, n: u32)
    ensures
        final(out)@ == old(out)@ + le32(n),
{
    let ghost pre = out@;
    out.push((n & 0xff) as u8);
    out.push(((n >> 8) & 0xff) as u8);
    out.push(((n >> 16) & 0xff) as u8);
    out.push(((n >> 24) & 0xff) as u8);
    proof {
        assert(out@ =~= pre + le32(n));
    }
}

/// Reads the 32-bit little-endian number at `pos`.
pub fn read_u32(b: &[u8], pos: usize) -> (r: u32)
    requires
        pos + 4 <= b@.len(),
    ensures
        le32(r) == b@.subrange(pos as int, pos + 4),
{
    let x0 = b[pos];
    let x1 = b[pos + 1];
    let x2 = b[pos + 2];
    let x3 = b[pos + 3];
    let r = (x0 as u32) | ((x1 as u32) << 8) | ((x2 as u32) << 16) | ((x3 as u32) << 24);
    proof {
        assert((((x0 as u32) | ((x1 as u32) << 8) | ((x2 as u32) << 16) | ((x3 as u32) << 24))
            & 0xff) as u8 == x0 && ((((x0 as u32) | ((x1 as u32) << 8) | ((x2 as u32) << 16) | ((
        x3 as u32) << 24)) >> 8) & 0xff) as u8 == x1 && ((((x0 as u32) | ((x1 as u32) << 8) | ((
        x2 as u32) << 16) | ((x3 as u32) << 24)) >> 16) & 0xff) as u8 == x2 && ((((x0 as u32) | ((
        x1 as u32) << 8) | ((x2 as u32) << 16) | ((x3 as u32) << 24)) >> 24) & 0xff) as u8
            == x3) by (bit_vector);
        assert(le32(r) =~= b@.subrange(pos as int, pos + 4));
    }
    r
}

/// Frames a message: its length, little endian, then its bytes.
pub fn encode_frame(msg: &[u8]) -> (r: Vec<u8>)
    requires
        msg@.len() <= u32::MAX,
    ensures
        r@ == le32(msg@.len() as u32) + msg@,
{
    let mut out: Vec<u8> = Vec::new();
    push_u32(&mut out, msg.len() as u32);
    append_bytes(&mut out, msg);
    out
}

/// Reading a stretch of `b` that holds `prefix + tail` part by part.
proof fn lemma_split_range(b: Seq<u8>, pos: int, prefix: Seq<u8>, tail: Seq<u8>)
    requires
        0 <= pos,
        pos + prefix.len() + tail.len() <= b.len(),
        b.subrange(pos, pos + prefix.len() + tail.len()) == prefix + tail,
    ensures
        b.subrange(pos, pos + prefix.len()) == prefix,
        b.subrange(pos + prefix.len(), pos + prefix.len() + tail.len()) == tail,
{
    let whole = b.subrange(pos, pos + prefix.len() + tail.len());
    assert forall|i: int| 0 <= i < prefix.len() implies b[pos + i] == prefix[i] by {
        assert(whole[i] == b[pos + i]);
        assert((prefix + tail)[i] == prefix[i]);
    }
    assert forall|i: int| 0 <= i < tail.len() implies b[pos + prefix.len() + i] == tail[i] by {
        assert(whole[prefix.len() + i] == b[pos + prefix.len() + i]);
        assert((prefix + tail)[prefix.len() + i] == tail[i]);
    }
    assert(b.subrange(pos, pos + prefix.len()) =~= prefix);
    assert(b.subrange(pos + prefix.len(), pos + prefix.len() + tail.len()) =~= tail);
}

/// Writing a stretch of `b` that holds `prefix + tail` part by part.
proof fn lemma_join_range(b: Seq<u8>, pos: int, prefix: Seq<u8>, tail: Seq<u8>)
    requires
        0 <= pos,
        pos + prefix.len() + tail.len() <= b.len(),
        b.subrange(pos, pos + prefix.len()) == prefix,
        b.subrange(pos + prefix.len(), pos + prefix.len() + tail.len()) == tail,
    ensures
        b.subrange(pos, pos + prefix.len() + tail.len()) == prefix + tail,
{
    assert forall|i: int| 0 <= i < prefix.len() + tail.len() implies b.subrange(
        pos,
        pos + prefix.len() + tail.len(),
    )[i] == (prefix + tail)[i] by {
        if i < prefix.len() {
            assert(b.subrange(pos, pos + prefix.len())[i] == b[pos + i]);
        } else {
            assert(b.subrange(pos + prefix.len(), pos + prefix.len() + tail.len())[i
                - prefix.len()] == b[pos + i]);
        }
    }
    assert(b.subrange(pos, pos + prefix.len() + tail.len()) =~= prefix + tail);
}

/// Concatenation re-association, one level.
proof fn lemma_assoc(a: Seq<u8>, b: Seq<u8>, c: Seq<u8>)
    ensures
        (a + b) + c == a + (b + c),
{
    assert((a + b) + c =~= a + (b + c));
}

/// A length-prefixed byte-string field.
pub open spec fn spec_enc_bytes(v: Seq<u8>) -> Seq<u8> {
    le32(v.len() as u32) + v
}

/// An optional byte-string field: absent, or present with its bytes.
pub open spec fn spec_enc_opt(o: Option<Seq<u8>>) -> Seq<u8> {
    match o {
        None => seq![0u8],
        Some(v) => seq![1u8] + spec_enc_bytes(v),
    }
}

/// A byte string short enough for its length prefix.
pub open spec fn bytes_ok(v: Seq<u8>) -> bool {
    v.len() <= u32::MAX
}

pub open spec fn opt_ok(o: Option<Seq<u8>>) -> bool {
    match o {
        None => true,
        Some(v) => bytes_ok(v),
    }
}

/// Appends a length-prefixed byte string.
fn push_bytes_field(out: &mut Vec<u8>, v: &Vec<u8>)
    requires
        v@.len() <= u32::MAX,
    ensures
        final(out)@ == old(out)@ + spec_enc_bytes(v@),
{
    let ghost pre = out@;
    push_u32(out, v.len() as u32);
    append_bytes(out, v.as_slice());
    proof {
        assert(out@ =~= pre + spec_enc_bytes(v@));
    }
}

/// Appends an optional byte string.
fn push_opt_field(out: &mut Vec<u8>, o: &Option<Vec<u8>>)
    requires
        opt_ok(opt_bytes(*o)),
    ensures
        final(out)@ == old(out)@ + spec_enc_opt(opt_bytes(*o)),
{
    let ghost pre = out@;
    match o {
        None => {
            out.push(0u8);
            proof {
                assert(out@ =~= pre + spec_enc_opt(opt_bytes(*o)));
            }
        },
        Some(v) => {
            out.push(1u8);
            push_bytes_field(out, v);
            proof {
                assert(out@ =~= pre + spec_enc_opt(opt_bytes(*o)));
            }
        },
    }
}

/// Reads a length-prefixed byte string at `pos`. Succeeds exactly when one
/// fits there, and consumes exactly its encoding.
fn parse_bytes_at(b: &[u8], pos: usize) -> (r: Option<(Vec<u8>, usize)>)
    requires
        pos <= b@.len(),
    ensures
        r matches Some(pr) ==> pr.1 <= b@.len() && pr.1 == pos + 4 + pr.0@.len() && bytes_ok(
            pr.0@,
        ) && b@.subrange(pos as int, pr.1 as int) == spec_enc_bytes(pr.0@),
        forall|w: Seq<u8>|
            (bytes_ok(w) && pos + 4 + w.len() <= b@.len() && b@.subrange(
                pos as int,
                pos + 4 + w.len(),
            ) == #[trigger] spec_enc_bytes(w)) ==> (r matches Some(pr) && pr.0@ == w && pr.1 == pos
                + 4 + w.len()),
{
    let n = b.len();
    if n < 4 || pos > n - 4 {
        return None;
    }
    let len32 = read_u32(b, pos);
    let len = len32 as usize;
    if len > n - (pos + 4) {
        proof {
            assert forall|w: Seq<u8>|
                !(bytes_ok(w) && pos + 4 + w.len() <= b@.len() && b@.subrange(
                    pos as int,
                    pos + 4 + w.len(),
                ) == spec_enc_bytes(w)) by {
                if bytes_ok(w) && pos + 4 + w.len() <= b@.len() && b@.subrange(
                    pos as int,
                    pos + 4 + w.len(),
                ) == spec_enc_bytes(w) {
                    lemma_split_range(b@, pos as int, le32(w.len() as u32), w);
                    lemma_le32_injective(len32, w.len() as u32);
                    assert(false);
                }
            }
        }
        return None;
    }
    let v = copy_range(b, pos + 4, pos + 4 + len);
    proof {
        lemma_join_range(b@, pos as int, le32(len32), v@);
        assert(b@.subrange(pos as int, pos + 4 + len) == spec_enc_bytes(v@));
        assert forall|w: Seq<u8>|
            (bytes_ok(w) && pos + 4 + w.len() <= b@.len() && b@.subrange(
                pos as int,
                pos + 4 + w.len(),
            ) == spec_enc_bytes(w)) implies v@ == w && pos + 4 + len == pos + 4 + w.len() by {
            lemma_split_range(b@, pos as int, le32(w.len() as u32), w);
            lemma_le32_injective(len32, w.len() as u32);
            assert(v@ =~= w);
        }
    }
    Some((v, pos + 4 + len))
}

/// Reads an optional byte string at `pos`.
fn parse_opt_at(b: &[u8], pos: usize) -> (r: Option<(Option<Vec<u8>>, usize)>)
    requires
        pos <= b@.len(),
    ensures
        r matches Some(pr) ==> pr.1 <= b@.len() && pos < pr.1 && opt_ok(opt_bytes(pr.0))
            && b@.subrange(pos as int, pr.1 as int) == spec_enc_opt(opt_bytes(pr.0)),
        forall|w: Option<Seq<u8>>|
            (opt_ok(w) && pos + (#[trigger] spec_enc_opt(w)).len() <= b@.len() && b@.subrange(
                pos as int,
                pos + spec_enc_opt(w).len(),
            ) == spec_enc_opt(w)) ==> (r matches Some(pr) && opt_bytes(pr.0) == w && pr.1 == pos
                + spec_enc_opt(w).len()),
{
    if pos >= b.len() {
        return None;
    }
    let tag = b[pos];
    if tag == 0u8 {
        proof {
            assert forall|w: Option<Seq<u8>>|
                (opt_ok(w) && pos + spec_enc_opt(w).len() <= b@.len() && b@.subrange(
                    pos as int,
                    pos + spec_enc_opt(w).len(),
                ) == spec_enc_opt(w)) implies w is None && 1 == spec_enc_opt(w).len() by {
                assert(spec_enc_opt(w)[0] == b@[pos as int]);
            }
        }
        return Some((None, pos + 1));
    }
    if tag != 1u8 {
        proof {
            assert forall|w: Option<Seq<u8>>|
                !(opt_ok(w) && pos + spec_enc_opt(w).len() <= b@.len() && b@.subrange(
                    pos as int,
                    pos + spec_enc_opt(w).len(),
                ) == spec_enc_opt(w)) by {
                if opt_ok(w) && pos + spec_enc_opt(w).len() <= b@.len() && b@.subrange(
                    pos as int,
                    pos + spec_enc_opt(w).len(),
                ) == spec_enc_opt(w) {
                    assert(spec_enc_opt(w)[0] == b@[pos as int]);
                }
            }
        }
        return None;
    }
    match parse_bytes_at(b, pos + 1) {
        Some((v, np)) => {
            proof {
                assert(b@.subrange(pos as int, pos + 1) =~= seq![1u8]);
                lemma_join_range(b@, pos as int, seq![1u8], spec_enc_bytes(v@));
                assert(b@.subrange(pos as int, np as int) == spec_enc_opt(opt_bytes(Some(v))));
                assert forall|w: Option<Seq<u8>>|
                    (opt_ok(w) && pos + spec_enc_opt(w).len() <= b@.len() && b@.subrange(
                        pos as int,
                        pos + spec_enc_opt(w).len(),
                    ) == spec_enc_opt(w)) implies w matches Some(u) && v@ == u && np == pos
                    + spec_enc_opt(w).len() by {
                    assert(spec_enc_opt(w)[0] == b@[pos as int]);
                    let u = w->Some_0;
                    lemma_split_range(b@, pos as int, seq![1u8], spec_enc_bytes(u));
                    assert(b@.subrange(pos + 1, pos + 1 + (4 + u.len() as int)) == spec_enc_bytes(
                        u,
                    ));
                }
            }
            Some((Some(v), np))
        },
        None => {
            proof {
                assert forall|w: Option<Seq<u8>>|
                    !(opt_ok(w) && pos + spec_enc_opt(w).len() <= b@.len() && b@.subrange(
                        pos as int,
                        pos + spec_enc_opt(w).len(),
                    ) == spec_enc_opt(w)) by {
                    if opt_ok(w) && pos + spec_enc_opt(w).len() <= b@.len() && b@.subrange(
                        pos as int,
                        pos + spec_enc_opt(w).len(),
                    ) == spec_enc_opt(w) {
                        assert(spec_enc_opt(w)[0] == b@[pos as int]);
                        let u = w->Some_0;
                        lemma_split_range(b@, pos as int, seq![1u8], spec_enc_bytes(u));
                        assert(b@.subrange(pos + 1, pos + 1 + (4 + u.len() as int))
                            == spec_enc_bytes(u));
                    }
                }
            }
            None
        },
    }
}

/// The error codes on the wire.
pub open spec fn err_code(e: ErrorKind) -> u8 {
    match e {
        ErrorKind::Connection => 0u8,
        ErrorKind::Protocol => 1u8,
        ErrorKind::Auth => 2u8,
        ErrorKind::SecondFactor => 3u8,
        ErrorKind::Locked => 4u8,
        ErrorKind::Crypto => 5u8,
        ErrorKind::Network => 6u8,
    }
}

/// The response envelope: a variant tag, then its payload.
pub open spec fn spec_enc_response(m: Response) -> Seq<u8> {
    match m {
        Response::Ack => seq![0u8],
        Response::Error { error } => seq![1u8, err_code(error)],
        Response::Decrypt { plaintext } => seq![2u8] + spec_enc_bytes(plaintext@),
        Response::Encrypt { cipherstring } => seq![3u8] + spec_enc_bytes(cipherstring@),
        Response::Version { version } => seq![4u8] + le32(version),
    }
}

/// Whether a response's fields fit their length prefixes.
pub open spec fn response_ok(m: Response) -> bool {
    match m {
        Response::Decrypt { plaintext } => bytes_ok(plaintext@),
        Response::Encrypt { cipherstring } => bytes_ok(cipherstring@),
        _ => true,
    }
}

/// Two responses carry the same message.
pub open spec fn response_eq(a: Response, b: Response) -> bool {
    match (a, b) {
        (Response::Ack, Response::Ack) => true,
        (Response::Error { error: e1 }, Response::Error { error: e2 }) => e1 == e2,
        (Response::Decrypt { plaintext: p1 }, Response::Decrypt { plaintext: p2 }) => p1@ == p2@,
        (Response::Encrypt { cipherstring: c1 }, Response::Encrypt { cipherstring: c2 }) => c1@
            == c2@,
        (Response::Version { version: v1 }, Response::Version { version: v2 }) => v1 == v2,
        _ => false,
    }
}

/// Encodes a response envelope.
pub fn encode_response(m: &Response) -> (r: Vec<u8>)
    requires
        response_ok(*m),
    ensures
        r@ == spec_enc_response(*m),
{
    let mut out: Vec<u8> = Vec::new();
    match m {
        Response::Ack => {
            out.push(0u8);
        },
        Response::Error { error } => {
            out.push(1u8);
            let code: u8 = match error {
                ErrorKind::Connection => 0u8,
                ErrorKind::Protocol => 1u8,
                ErrorKind::Auth => 2u8,
                ErrorKind::SecondFactor => 3u8,
                ErrorKind::Locked => 4u8,
                ErrorKind::Crypto => 5u8,
                ErrorKind::Network => 6u8,
            };
            out.push(code);
        },
        Response::Decrypt { plaintext } => {
            out.push(2u8);
            push_bytes_field(&mut out, plaintext);
        },
        Response::Encrypt { cipherstring } => {
            out.push(3u8);
            push_bytes_field(&mut out, cipherstring);
        },
        Response::Version { version } => {
            out.push(4u8);
            push_u32(&mut out, *version);
        },
    }
    proof {
        assert(out@ =~= spec_enc_response(*m));
    }
    out
}

/// Decodes a response envelope. Succeeds exactly on the encodings, and
/// yields the response that encodes to the input.
pub fn decode_response(b: &[u8]) -> (r: Option<Response>)
    ensures
        r matches Some(m) ==> response_ok(m) && b@ == spec_enc_response(m),
        forall|m: Response|
            (response_ok(m) && b@ == #[trigger] spec_enc_response(m)) ==> (r matches Some(m2)
                && response_eq(m2, m)),
{
    let n = b.len();
    if n == 0 {
        return None;
    }
    let tag = b[0];
    if tag == 0u8 {
        if n != 1 {
            return None;
        }
        proof {
            assert(b@ =~= spec_enc_response(Response::Ack));
        }
        Some(Response::Ack)
    } else if tag == 1u8 {
        if n != 2 {
            return None;
        }
        let code = b[1];
        if code > 6 {
            proof {
                assert forall|m: Response| !(response_ok(m) && b@ == spec_enc_response(m)) by {
                    if response_ok(m) && b@ == spec_enc_response(m) {
                        assert(b@[1] == err_code(m->Error_error));
                    }
                }
            }
            return None;
        }
        let error = if code == 0 {
            ErrorKind::Connection
        } else if code == 1 {
            ErrorKind::Protocol
        } else if code == 2 {
            ErrorKind::Auth
        } else if code == 3 {
            ErrorKind::SecondFactor
        } else if code == 4 {
            ErrorKind::Locked
        } else if code == 5 {
            ErrorKind::Crypto
        } else {
            ErrorKind::Network
        };
        proof {
            assert(b@ =~= spec_enc_response(Response::Error { error }));
        }
        Some(Response::Error { error })
    } else if tag == 2u8 {
        match parse_bytes_at(b, 1) {
            Some((v, np)) if np == n => {
                proof {
                    assert(b@ =~= spec_enc_response(Response::Decrypt { plaintext: v }));
                    assert forall|m: Response|
                        (response_ok(m) && b@ == spec_enc_response(m)) implies m is Decrypt && (
                    m->Decrypt_plaintext@ == v@) by {
                        let w = m->Decrypt_plaintext@;
                        assert(b@.subrange(1, 1 + (4 + w.len() as int)) =~= spec_enc_bytes(w));
                    }
                }
                Some(Response::Decrypt { plaintext: v })
            },
            _ => {
                proof {
                    assert forall|m: Response| !(response_ok(m) && b@ == spec_enc_response(m)) by {
                        if response_ok(m) && b@ == spec_enc_response(m) {
                            let w = m->Decrypt_plaintext@;
                            assert(b@.subrange(1, 1 + (4 + w.len() as int)) =~= spec_enc_bytes(w));
                        }
                    }
                }
                None
            },
        }
    } else if tag == 3u8 {
        match parse_bytes_at(b, 1) {
            Some((v, np)) if np == n => {
                proof {
                    assert(b@ =~= spec_enc_response(Response::Encrypt { cipherstring: v }));
                    assert forall|m: Response|
                        (response_ok(m) && b@ == spec_enc_response(m)) implies m is Encrypt && (
                    m->Encrypt_cipherstring@ == v@) by {
                        let w = m->Encrypt_cipherstring@;
                        assert(b@.subrange(1, 1 + (4 + w.len() as int)) =~= spec_enc_bytes(w));
                    }
                }
                Some(Response::Encrypt { cipherstring: v })
            },
            _ => {
                proof {
                    assert forall|m: Response| !(response_ok(m) && b@ == spec_enc_response(m)) by {
                        if response_ok(m) && b@ == spec_enc_response(m) {
                            let w = m->Encrypt_cipherstring@;
                            assert(b@.subrange(1, 1 + (4 + w.len() as int)) =~= spec_enc_bytes(w));
                        }
                    }
                }
                None
            },
        }
    } else if tag == 4u8 {
        if n != 5 {
            return None;
        }
        let version = read_u32(b, 1);
        proof {
            assert(b@ =~= spec_enc_response(Response::Version { version }));
            assert forall|m: Response|
                (response_ok(m) && b@ == spec_enc_response(m)) implies m is Version && (
            m->Version_version == version) by {
                assert(le32(m->Version_version) =~= b@.subrange(1, 5));
                lemma_le32_injective(m->Version_version, version);
            }
        }
        Some(Response::Version { version })
    } else {
        proof {
            assert forall|m: Response| !(response_ok(m) && b@ == spec_enc_response(m)) by {
                if response_ok(m) && b@ == spec_enc_response(m) {
                    assert(b@[0] == spec_enc_response(m)[0]);
                }
            }
        }
        None
    }
}

/// Three optional byte-string fields in a row.
pub open spec fn spec_enc_env3(x: Option<Seq<u8>>, y: Option<Seq<u8>>, z: Option<Seq<u8>>) -> Seq<
    u8,
> {
    spec_enc_opt(x) + (spec_enc_opt(y) + spec_enc_opt(z))
}

/// The caller environment on the wire: one optional field per slot, in a
/// fixed order.
pub open spec fn spec_enc_env(e: Environment) -> Seq<u8> {
    spec_enc_env3(opt_bytes(e.tty), opt_bytes(e.display), opt_bytes(e.wayland_display))
        + spec_enc_env3(
        opt_bytes(e.xauthority),
        opt_bytes(e.ssh_auth_sock),
        opt_bytes(e.gpg_tty),
    )
}

pub open spec fn env_ok(e: Environment) -> bool {
    opt_ok(opt_bytes(e.tty)) && opt_ok(opt_bytes(e.display)) && opt_ok(
        opt_bytes(e.wayland_display),
    ) && opt_ok(opt_bytes(e.xauthority)) && opt_ok(opt_bytes(e.ssh_auth_sock)) && opt_ok(
        opt_bytes(e.gpg_tty),
    )
}

/// Two environments carry the same metadata.
pub open spec fn env_eq(a: Environment, b: Environment) -> bool {
    opt_bytes(a.tty) == opt_bytes(b.tty) && opt_bytes(a.display) == opt_bytes(b.display)
        && opt_bytes(a.wayland_display) == opt_bytes(b.wayland_display) && opt_bytes(a.xauthority)
        == opt_bytes(b.xauthority) && opt_bytes(a.ssh_auth_sock) == opt_bytes(b.ssh_auth_sock)
        && opt_bytes(a.gpg_tty) == opt_bytes(b.gpg_tty)
}

/// An action on the wire: a variant tag, then its payload fields.
pub open spec fn spec_enc_action(a: Action) -> Seq<u8> {
    match a {
        Action::Register => seq![0u8],
        Action::Login => seq![1u8],
        Action::Unlock => seq![2u8],
        Action::CheckLock => seq![3u8],
        Action::Sync => seq![4u8],
        Action::Lock => seq![5u8],
        Action::Quit => seq![6u8],
        Action::Decrypt { cipherstring, entry_key, org_id } => seq![7u8] + (spec_enc_bytes(
            cipherstring@,
        ) + (spec_enc_opt(opt_bytes(entry_key)) + spec_enc_opt(opt_bytes(org_id)))),
        Action::Encrypt { plaintext, org_id } => seq![8u8] + (spec_enc_bytes(plaintext@)
            + spec_enc_opt(opt_bytes(org_id))),
        Action::ClipboardStore { text } => seq![9u8] + spec_enc_bytes(text@),
        Action::Version => seq![10u8],
    }
}

pub open spec fn action_ok(a: Action) -> bool {
    match a {
        Action::Decrypt { cipherstring, entry_key, org_id } => bytes_ok(cipherstring@) && opt_ok(
            opt_bytes(entry_key),
        ) && opt_ok(opt_bytes(org_id)),
        Action::Encrypt { plaintext, org_id } => bytes_ok(plaintext@) && opt_ok(opt_bytes(org_id)),
        Action::ClipboardStore { text } => bytes_ok(text@),
        _ => true,
    }
}

/// Two actions carry the same request.
pub open spec fn action_eq(a: Action, b: Action) -> bool {
    match (a, b) {
        (Action::Register, Action::Register) => true,
        (Action::Login, Action::Login) => true,
        (Action::Unlock, Action::Unlock) => true,
        (Action::CheckLock, Action::CheckLock) => true,
        (Action::Sync, Action::Sync) => true,
        (Action::Lock, Action::Lock) => true,
        (Action::Quit, Action::Quit) => true,
        (
            Action::Decrypt { cipherstring: c1, entry_key: e1, org_id: o1 },
            Action::Decrypt { cipherstring: c2, entry_key: e2, org_id: o2 },
        ) => c1@ == c2@ && opt_bytes(e1) == opt_bytes(e2) && opt_bytes(o1) == opt_bytes(o2),
        (
            Action::Encrypt { plaintext: p1, org_id: o1 },
            Action::Encrypt { plaintext: p2, org_id: o2 },
        ) => p1@ == p2@ && opt_bytes(o1) == opt_bytes(o2),
        (Action::ClipboardStore { text: t1 }, Action::ClipboardStore { text: t2 }) => t1@ == t2@,
        (Action::Version, Action::Version) => true,
        _ => false,
    }
}

/// The request envelope: the caller environment, then the action.
pub open spec fn spec_enc_request(q: Request) -> Seq<u8> {
    spec_enc_env(q.environment) + spec_enc_action(q.action)
}

pub open spec fn request_ok(q: Request) -> bool {
    env_ok(q.environment) && action_ok(q.action)
}

/// Two requests carry the same message.
pub open spec fn request_eq(a: Request, b: Request) -> bool {
    env_eq(a.environment, b.environment) && action_eq(a.action, b.action)
}

/// Appends an action with its payload fields.
fn push_action(out: &mut Vec<u8>, a: &Action)
    requires
        action_ok(*a),
    ensures
        final(out)@ == old(out)@ + spec_enc_action(*a),
{
    let ghost pre = out@;
    match a {
        Action::Register => {
            out.push(0u8);
        },
        Action::Login => {
            out.push(1u8);
        },
        Action::Unlock => {
            out.push(2u8);
        },
        Action::CheckLock => {
            out.push(3u8);
        },
        Action::Sync => {
            out.push(4u8);
        },
        Action::Lock => {
            out.push(5u8);
        },
        Action::Quit => {
            out.push(6u8);
        },
        Action::Decrypt { cipherstring, entry_key, org_id } => {
            out.push(7u8);
            push_bytes_field(out, cipherstring);
            push_opt_field(out, entry_key);
            push_opt_field(out, org_id);
        },
        Action::Encrypt { plaintext, org_id } => {
            out.push(8u8);
            push_bytes_field(out, plaintext);
            push_opt_field(out, org_id);
        },
        Action::ClipboardStore { text } => {
            out.push(9u8);
            push_bytes_field(out, text);
        },
        Action::Version => {
            out.push(10u8);
        },
    }
    proof {
        assert(out@ =~= pre + spec_enc_action(*a));
    }
}

/// Encodes a request envelope.
#[verifier::rlimit(100)]
pub fn encode_request(q: &Request) -> (r: Vec<u8>)
    requires
        request_ok(*q),
    ensures
        r@ == spec_enc_request(*q),
{
    let mut out: Vec<u8> = Vec::new();
    push_opt_field(&mut out, &q.environment.tty);
    push_opt_field(&mut out, &q.environment.display);
    push_opt_field(&mut out, &q.environment.wayland_display);
    push_opt_field(&mut out, &q.environment.xauthority);
    push_opt_field(&mut out, &q.environment.ssh_auth_sock);
    push_opt_field(&mut out, &q.environment.gpg_tty);
    proof {
        let o1 = spec_enc_opt(opt_bytes(q.environment.tty));
        let o2 = spec_enc_opt(opt_bytes(q.environment.display));
        let o3 = spec_enc_opt(opt_bytes(q.environment.wayland_display));
        let o4 = spec_enc_opt(opt_bytes(q.environment.xauthority));
        let o5 = spec_enc_opt(opt_bytes(q.environment.ssh_auth_sock));
        let o6 = spec_enc_opt(opt_bytes(q.environment.gpg_tty));
        assert(Seq::<u8>::empty() + o1 =~= o1);
        assert(out@ == ((((o1 + o2) + o3) + o4) + o5) + o6);
        lemma_assoc((((o1 + o2) + o3) + o4), o5, o6);
        lemma_assoc(((o1 + o2) + o3), o4, o5 + o6);
        lemma_assoc(o1, o2, o3);
        assert(out@ == ((o1 + (o2 + o3)) + (o4 + (o5 + o6))));
        assert(out@ == spec_enc_env(q.environment));
    }
    push_action(&mut out, &q.action);
    out
}

/// The wire tag of each action variant.
pub open spec fn action_tag(a: Action) -> u8 {
    match a {
        Action::Register => 0u8,
        Action::Login => 1u8,
        Action::Unlock => 2u8,
        Action::CheckLock => 3u8,
        Action::Sync => 4u8,
        Action::Lock => 5u8,
        Action::Quit => 6u8,
        Action::Decrypt { .. } => 7u8,
        Action::Encrypt { .. } => 8u8,
        Action::ClipboardStore { .. } => 9u8,
        Action::Version => 10u8,
    }
}

/// Where a valid action encoding puts its tag and its payload fields.
proof fn lemma_action_layout(b: Seq<u8>, pos: int, a: Action)
    requires
        0 <= pos,
        pos + spec_enc_action(a).len() <= b.len(),
        b.subrange(pos, pos + spec_enc_action(a).len() as int) == spec_enc_action(a),
    ensures
        b[pos] == action_tag(a),
        (a is Register || a is Login || a is Unlock || a is CheckLock || a is Sync || a is Lock
            || a is Quit || a is Version) ==> spec_enc_action(a).len() == 1,
        a matches Action::Decrypt { cipherstring, entry_key, org_id } ==> ({
            let fields = spec_enc_bytes(cipherstring@) + (spec_enc_opt(opt_bytes(entry_key))
                + spec_enc_opt(opt_bytes(org_id)));
            spec_enc_action(a).len() == 1 + fields.len() && b.subrange(
                pos + 1,
                pos + 1 + fields.len() as int,
            ) == fields
        }),
        a matches Action::Encrypt { plaintext, org_id } ==> ({
            let fields = spec_enc_bytes(plaintext@) + spec_enc_opt(opt_bytes(org_id));
            spec_enc_action(a).len() == 1 + fields.len() && b.subrange(
                pos + 1,
                pos + 1 + fields.len() as int,
            ) == fields
        }),
        a matches Action::ClipboardStore { text } ==> ({
            let fields = spec_enc_bytes(text@);
            spec_enc_action(a).len() == 1 + fields.len() && b.subrange(
                pos + 1,
                pos + 1 + fields.len() as int,
            ) == fields
        }),
{
    assert(b[pos] == b.subrange(pos, pos + spec_enc_action(a).len() as int)[0]);
    match a {
        Action::Decrypt { cipherstring, entry_key, org_id } => {
            let fields = spec_enc_bytes(cipherstring@) + (spec_enc_opt(opt_bytes(entry_key))
                + spec_enc_opt(opt_bytes(org_id)));
            lemma_split_range(b, pos, seq![7u8], fields);
        },
        Action::Encrypt { plaintext, org_id } => {
            let fields = spec_enc_bytes(plaintext@) + spec_enc_opt(opt_bytes(org_id));
            lemma_split_range(b, pos, seq![8u8], fields);
        },
        Action::ClipboardStore { text } => {
            let fields = spec_enc_bytes(text@);
            lemma_split_range(b, pos, seq![9u8], fields);
        },
        _ => {},
    }
}

/// Reads a decrypt payload (cipherstring, entry key, org id) at `pos`.
#[verifier::rlimit(100)]
fn parse_decrypt_at(b: &[u8], pos: usize) -> (r: Option<
    (Vec<u8>, Option<Vec<u8>>, Option<Vec<u8>>, usize),
>)
    requires
        pos <= b@.len(),
    ensures
        r matches Some(pr) ==> pos <= pr.3 <= b@.len() && bytes_ok(pr.0@) && opt_ok(
            opt_bytes(pr.1),
        ) && opt_ok(opt_bytes(pr.2)) && b@.subrange(pos as int, pr.3 as int) == spec_enc_bytes(
            pr.0@,
        ) + (spec_enc_opt(opt_bytes(pr.1)) + spec_enc_opt(opt_bytes(pr.2))),
        forall|c: Seq<u8>, e: Option<Seq<u8>>, o: Option<Seq<u8>>|
            #![trigger spec_enc_bytes(c), spec_enc_opt(e), spec_enc_opt(o)]
            (bytes_ok(c) && opt_ok(e) && opt_ok(o) && pos + (spec_enc_bytes(c) + (spec_enc_opt(e)
                + spec_enc_opt(o))).len() <= b@.len() && b@.subrange(
                pos as int,
                pos + (spec_enc_bytes(c) + (spec_enc_opt(e) + spec_enc_opt(o))).len(),
            ) == spec_enc_bytes(c) + (spec_enc_opt(e) + spec_enc_opt(o))) ==> (r matches Some(pr)
                && pr.0@ == c && opt_bytes(pr.1) == e && opt_bytes(pr.2) == o && pr.3 == pos + (
            spec_enc_bytes(c) + (spec_enc_opt(e) + spec_enc_opt(o))).len()),
{
    let s1 = parse_bytes_at(b, pos);
    let (cs, p1) = match s1 {
        Some(pr) => pr,
        None => {
            proof {
                assert forall|c: Seq<u8>, e: Option<Seq<u8>>, o: Option<Seq<u8>>|
                    #![trigger spec_enc_bytes(c), spec_enc_opt(e), spec_enc_opt(o)]
                    !(bytes_ok(c) && opt_ok(e) && opt_ok(o) && pos + (spec_enc_bytes(c) + (
                    spec_enc_opt(e) + spec_enc_opt(o))).len() <= b@.len() && b@.subrange(
                        pos as int,
                        pos + (spec_enc_bytes(c) + (spec_enc_opt(e) + spec_enc_opt(o))).len(),
                    ) == spec_enc_bytes(c) + (spec_enc_opt(e) + spec_enc_opt(o))) by {
                    if bytes_ok(c) && opt_ok(e) && opt_ok(o) && pos + (spec_enc_bytes(c) + (
                    spec_enc_opt(e) + spec_enc_opt(o))).len() <= b@.len() && b@.subrange(
                        pos as int,
                        pos + (spec_enc_bytes(c) + (spec_enc_opt(e) + spec_enc_opt(o))).len(),
                    ) == spec_enc_bytes(c) + (spec_enc_opt(e) + spec_enc_opt(o)) {
                        lemma_split_range(
                            b@,
                            pos as int,
                            spec_enc_bytes(c),
                            spec_enc_opt(e) + spec_enc_opt(o),
                        );
                    }
                }
            }
            return None;
        },
    };
    let s2 = parse_opt_at(b, p1);
    let (ek, p2) = match s2 {
        Some(pr) => pr,
        None => {
            proof {
                assert forall|c: Seq<u8>, e: Option<Seq<u8>>, o: Option<Seq<u8>>|
                    #![trigger spec_enc_bytes(c), spec_enc_opt(e), spec_enc_opt(o)]
                    !(bytes_ok(c) && opt_ok(e) && opt_ok(o) && pos + (spec_enc_bytes(c) + (
                    spec_enc_opt(e) + spec_enc_opt(o))).len() <= b@.len() && b@.subrange(
                        pos as int,
                        pos + (spec_enc_bytes(c) + (spec_enc_opt(e) + spec_enc_opt(o))).len(),
                    ) == spec_enc_bytes(c) + (spec_enc_opt(e) + spec_enc_opt(o))) by {
                    if bytes_ok(c) && opt_ok(e) && opt_ok(o) && pos + (spec_enc_bytes(c) + (
                    spec_enc_opt(e) + spec_enc_opt(o))).len() <= b@.len() && b@.subrange(
                        pos as int,
                        pos + (spec_enc_bytes(c) + (spec_enc_opt(e) + spec_enc_opt(o))).len(),
                    ) == spec_enc_bytes(c) + (spec_enc_opt(e) + spec_enc_opt(o)) {
                        lemma_split_range(
                            b@,
                            pos as int,
                            spec_enc_bytes(c),
                            spec_enc_opt(e) + spec_enc_opt(o),
                        );
                        lemma_split_range(
                            b@,
                            pos + spec_enc_bytes(c).len(),
                            spec_enc_opt(e),
                            spec_enc_opt(o),
                        );
                    }
                }
            }
            return None;
        },
    };
    let s3 = parse_opt_at(b, p2);
    let (org, p3) = match s3 {
        Some(pr) => pr,
        None => {
            proof {
                assert forall|c: Seq<u8>, e: Option<Seq<u8>>, o: Option<Seq<u8>>|
                    #![trigger spec_enc_bytes(c), spec_enc_opt(e), spec_enc_opt(o)]
                    !(bytes_ok(c) && opt_ok(e) && opt_ok(o) && pos + (spec_enc_bytes(c) + (
                    spec_enc_opt(e) + spec_enc_opt(o))).len() <= b@.len() && b@.subrange(
                        pos as int,
                        pos + (spec_enc_bytes(c) + (spec_enc_opt(e) + spec_enc_opt(o))).len(),
                    ) == spec_enc_bytes(c) + (spec_enc_opt(e) + spec_enc_opt(o))) by {
                    if bytes_ok(c) && opt_ok(e) && opt_ok(o) && pos + (spec_enc_bytes(c) + (
                    spec_enc_opt(e) + spec_enc_opt(o))).len() <= b@.len() && b@.subrange(
                        pos as int,
                        pos + (spec_enc_bytes(c) + (spec_enc_opt(e) + spec_enc_opt(o))).len(),
                    ) == spec_enc_bytes(c) + (spec_enc_opt(e) + spec_enc_opt(o)) {
                        lemma_split_range(
                            b@,
                            pos as int,
                            spec_enc_bytes(c),
                            spec_enc_opt(e) + spec_enc_opt(o),
                        );
                        lemma_split_range(
                            b@,
                            pos + spec_enc_bytes(c).len(),
                            spec_enc_opt(e),
                            spec_enc_opt(o),
                        );
                    }
                }
            }
            return None;
        },
    };
    proof {
        lemma_join_range(
            b@,
            p1 as int,
            b@.subrange(p1 as int, p2 as int),
            b@.subrange(p2 as int, p3 as int),
        );
        lemma_join_range(
            b@,
            pos as int,
            b@.subrange(pos as int, p1 as int),
            b@.subrange(p1 as int, p3 as int),
        );
        assert forall|c: Seq<u8>, e: Option<Seq<u8>>, o: Option<Seq<u8>>|
            #![trigger spec_enc_bytes(c), spec_enc_opt(e), spec_enc_opt(o)]
            (bytes_ok(c) && opt_ok(e) && opt_ok(o) && pos + (spec_enc_bytes(c) + (spec_enc_opt(e)
                + spec_enc_opt(o))).len() <= b@.len() && b@.subrange(
                pos as int,
                pos + (spec_enc_bytes(c) + (spec_enc_opt(e) + spec_enc_opt(o))).len(),
            ) == spec_enc_bytes(c) + (spec_enc_opt(e) + spec_enc_opt(o))) implies (cs@ == c
            && opt_bytes(ek) == e && opt_bytes(org) == o && p3 == pos + (spec_enc_bytes(c) + (
        spec_enc_opt(e) + spec_enc_opt(o))).len()) by {
            lemma_split_range(b@, pos as int, spec_enc_bytes(c), spec_enc_opt(e) + spec_enc_opt(o));
            lemma_split_range(b@, pos + spec_enc_bytes(c).len(), spec_enc_opt(e), spec_enc_opt(o));
        }
    }
    Some((cs, ek, org, p3))
}

/// Reads an encrypt payload (plaintext, org id) at `pos`.
#[verifier::rlimit(100)]
fn parse_encrypt_at(b: &[u8], pos: usize) -> (r: Option<(Vec<u8>, Option<Vec<u8>>, usize)>)
    requires
        pos <= b@.len(),
    ensures
        r matches Some(pr) ==> pos <= pr.2 <= b@.len() && bytes_ok(pr.0@) && opt_ok(
            opt_bytes(pr.1),
        ) && b@.subrange(pos as int, pr.2 as int) == spec_enc_bytes(pr.0@) + spec_enc_opt(
            opt_bytes(pr.1),
        ),
        forall|c: Seq<u8>, o: Option<Seq<u8>>|
            #![trigger spec_enc_bytes(c), spec_enc_opt(o)]
            (bytes_ok(c) && opt_ok(o) && pos + (spec_enc_bytes(c) + spec_enc_opt(o)).len()
                <= b@.len() && b@.subrange(
                pos as int,
                pos + (spec_enc_bytes(c) + spec_enc_opt(o)).len(),
            ) == spec_enc_bytes(c) + spec_enc_opt(o)) ==> (r matches Some(pr) && pr.0@ == c
                && opt_bytes(pr.1) == o && pr.2 == pos + (spec_enc_bytes(c)
                + spec_enc_opt(o)).len()),
{
    let s1 = parse_bytes_at(b, pos);
    let (pt, p1) = match s1 {
        Some(pr) => pr,
        None => {
            proof {
                assert forall|c: Seq<u8>, o: Option<Seq<u8>>|
                    #![trigger spec_enc_bytes(c), spec_enc_opt(o)]
                    !(bytes_ok(c) && opt_ok(o) && pos + (spec_enc_bytes(c) + spec_enc_opt(o)).len()
                        <= b@.len() && b@.subrange(
                        pos as int,
                        pos + (spec_enc_bytes(c) + spec_enc_opt(o)).len(),
                    ) == spec_enc_bytes(c) + spec_enc_opt(o)) by {
                    if bytes_ok(c) && opt_ok(o) && pos + (spec_enc_bytes(c)
                        + spec_enc_opt(o)).len() <= b@.len() && b@.subrange(
                        pos as int,
                        pos + (spec_enc_bytes(c) + spec_enc_opt(o)).len(),
                    ) == spec_enc_bytes(c) + spec_enc_opt(o) {
                        lemma_split_range(b@, pos as int, spec_enc_bytes(c), spec_enc_opt(o));
                    }
                }
            }
            return None;
        },
    };
    let s2 = parse_opt_at(b, p1);
    let (org, p2) = match s2 {
        Some(pr) => pr,
        None => {
            proof {
                assert forall|c: Seq<u8>, o: Option<Seq<u8>>|
                    #![trigger spec_enc_bytes(c), spec_enc_opt(o)]
                    !(bytes_ok(c) && opt_ok(o) && pos + (spec_enc_bytes(c) + spec_enc_opt(o)).len()
                        <= b@.len() && b@.subrange(
                        pos as int,
                        pos + (spec_enc_bytes(c) + spec_enc_opt(o)).len(),
                    ) == spec_enc_bytes(c) + spec_enc_opt(o)) by {
                    if bytes_ok(c) && opt_ok(o) && pos + (spec_enc_bytes(c)
                        + spec_enc_opt(o)).len() <= b@.len() && b@.subrange(
                        pos as int,
                        pos + (spec_enc_bytes(c) + spec_enc_opt(o)).len(),
                    ) == spec_enc_bytes(c) + spec_enc_opt(o) {
                        lemma_split_range(b@, pos as int, spec_enc_bytes(c), spec_enc_opt(o));
                    }
                }
            }
            return None;
        },
    };
    proof {
        lemma_join_range(
            b@,
            pos as int,
            b@.subrange(pos as int, p1 as int),
            b@.subrange(p1 as int, p2 as int),
        );
        assert forall|c: Seq<u8>, o: Option<Seq<u8>>|
            #![trigger spec_enc_bytes(c), spec_enc_opt(o)]
            (bytes_ok(c) && opt_ok(o) && pos + (spec_enc_bytes(c) + spec_enc_opt(o)).len()
                <= b@.len() && b@.subrange(
                pos as int,
                pos + (spec_enc_bytes(c) + spec_enc_opt(o)).len(),
            ) == spec_enc_bytes(c) + spec_enc_opt(o)) implies (pt@ == c && opt_bytes(org) == o
            && p2 == pos + (spec_enc_bytes(c) + spec_enc_opt(o)).len()) by {
            lemma_split_range(b@, pos as int, spec_enc_bytes(c), spec_enc_opt(o));
        }
    }
    Some((pt, org, p2))
}

/// Reads an action at `pos`. Succeeds exactly when one is encoded there,
/// and consumes exactly its encoding.
#[verifier::rlimit(100)]
#[verifier::spinoff_prover]
fn parse_action_at(b: &[u8], pos: usize) -> (r: Option<(Action, usize)>)
    requires
        pos <= b@.len(),
    ensures
        r matches Some(pr) ==> pos <= pr.1 <= b@.len() && action_ok(pr.0) && b@.subrange(
            pos as int,
            pr.1 as int,
        ) == spec_enc_action(pr.0),
        forall|a: Action|
            (action_ok(a) && pos + (#[trigger] spec_enc_action(a)).len() <= b@.len()
                && b@.subrange(pos as int, pos + spec_enc_action(a).len()) == spec_enc_action(
                a,
            )) ==> (r matches Some(pr) && action_eq(pr.0, a) && pr.1 == pos + spec_enc_action(
                a,
            ).len()),
{
    if pos >= b.len() {
        return None;
    }
    let tag = b[pos];
    proof {
        assert forall|a: Action|
            (action_ok(a) && pos + (#[trigger] spec_enc_action(a)).len() <= b@.len()
                && b@.subrange(pos as int, pos + spec_enc_action(a).len()) == spec_enc_action(
                a,
            )) implies action_tag(a) == tag by {
            lemma_action_layout(b@, pos as int, a);
        }
    }
    if tag < 7u8 || tag == 10u8 {
        let a2 = if tag == 0u8 {
            Action::Register
        } else if tag == 1u8 {
            Action::Login
        } else if tag == 2u8 {
            Action::Unlock
        } else if tag == 3u8 {
            Action::CheckLock
        } else if tag == 4u8 {
            Action::Sync
        } else if tag == 5u8 {
            Action::Lock
        } else if tag == 6u8 {
            Action::Quit
        } else {
            Action::Version
        };
        proof {
            assert(b@.subrange(pos as int, pos + 1) =~= seq![tag]);
            assert(b@.subrange(pos as int, pos + 1) == spec_enc_action(a2));
            assert forall|a: Action|
                (action_ok(a) && pos + (#[trigger] spec_enc_action(a)).len() <= b@.len()
                    && b@.subrange(pos as int, pos + spec_enc_action(a).len())
                    == spec_enc_action(a)) implies action_eq(a2, a) && pos + 1 == pos
                + spec_enc_action(a).len() by {
                lemma_action_layout(b@, pos as int, a);
            }
        }
        Some((a2, pos + 1))
    } else if tag == 7u8 {
        match parse_decrypt_at(b, pos + 1) {
            Some((cipherstring, entry_key, org_id, np)) => {
                let a2 = Action::Decrypt { cipherstring, entry_key, org_id };
                proof {
                    assert(b@.subrange(pos as int, pos + 1) =~= seq![7u8]);
                    lemma_join_range(b@, pos as int, seq![7u8], b@.subrange(pos + 1, np as int));
                    assert(b@.subrange(pos as int, np as int) == spec_enc_action(a2));
                    assert forall|a: Action|
                        (action_ok(a) && pos + (#[trigger] spec_enc_action(a)).len() <= b@.len()
                            && b@.subrange(pos as int, pos + spec_enc_action(a).len())
                            == spec_enc_action(a)) implies action_eq(a2, a) && np == pos
                        + spec_enc_action(a).len() by {
                        lemma_action_layout(b@, pos as int, a);
                    }
                }
                Some((a2, np))
            },
            None => {
                proof {
                    assert forall|a: Action|
                        !(action_ok(a) && pos + (#[trigger] spec_enc_action(a)).len() <= b@.len()
                            && b@.subrange(pos as int, pos + spec_enc_action(a).len())
                            == spec_enc_action(a)) by {
                        if action_ok(a) && pos + spec_enc_action(a).len() <= b@.len()
                            && b@.subrange(pos as int, pos + spec_enc_action(a).len())
                            == spec_enc_action(a) {
                            lemma_action_layout(b@, pos as int, a);
                        }
                    }
                }
                None
            },
        }
    } else if tag == 8u8 {
        match parse_encrypt_at(b, pos + 1) {
            Some((plaintext, org_id, np)) => {
                let a2 = Action::Encrypt { plaintext, org_id };
                proof {
                    assert(b@.subrange(pos as int, pos + 1) =~= seq![8u8]);
                    lemma_join_range(b@, pos as int, seq![8u8], b@.subrange(pos + 1, np as int));
                    assert(b@.subrange(pos as int, np as int) == spec_enc_action(a2));
                    assert forall|a: Action|
                        (action_ok(a) && pos + (#[trigger] spec_enc_action(a)).len() <= b@.len()
                            && b@.subrange(pos as int, pos + spec_enc_action(a).len())
                            == spec_enc_action(a)) implies action_eq(a2, a) && np == pos
                        + spec_enc_action(a).len() by {
                        lemma_action_layout(b@, pos as int, a);
                    }
                }
                Some((a2, np))
            },
            None => {
                proof {
                    assert forall|a: Action|
                        !(action_ok(a) && pos + (#[trigger] spec_enc_action(a)).len() <= b@.len()
                            && b@.subrange(pos as int, pos + spec_enc_action(a).len())
                            == spec_enc_action(a)) by {
                        if action_ok(a) && pos + spec_enc_action(a).len() <= b@.len()
                            && b@.subrange(pos as int, pos + spec_enc_action(a).len())
                            == spec_enc_action(a) {
                            lemma_action_layout(b@, pos as int, a);
                        }
                    }
                }
                None
            },
        }
    } else if tag == 9u8 {
        match parse_bytes_at(b, pos + 1) {
            Some((text, np)) => {
                let a2 = Action::ClipboardStore { text };
                proof {
                    assert(b@.subrange(pos as int, pos + 1) =~= seq![9u8]);
                    lemma_join_range(b@, pos as int, seq![9u8], b@.subrange(pos + 1, np as int));
                    assert(b@.subrange(pos as int, np as int) == spec_enc_action(a2));
                    assert forall|a: Action|
                        (action_ok(a) && pos + (#[trigger] spec_enc_action(a)).len() <= b@.len()
                            && b@.subrange(pos as int, pos + spec_enc_action(a).len())
                            == spec_enc_action(a)) implies action_eq(a2, a) && np == pos
                        + spec_enc_action(a).len() by {
                        lemma_action_layout(b@, pos as int, a);
                    }
                }
                Some((a2, np))
            },
            None => {
                proof {
                    assert forall|a: Action|
                        !(action_ok(a) && pos + (#[trigger] spec_enc_action(a)).len() <= b@.len()
                            && b@.subrange(pos as int, pos + spec_enc_action(a).len())
                            == spec_enc_action(a)) by {
                        if action_ok(a) && pos + spec_enc_action(a).len() <= b@.len()
                            && b@.subrange(pos as int, pos + spec_enc_action(a).len())
                            == spec_enc_action(a) {
                            lemma_action_layout(b@, pos as int, a);
                        }
                    }
                }
                None
            },
        }
    } else {
        None
    }
}

/// Where a valid three-slot group puts each slot.
proof fn lemma_env3_layout(b: Seq<u8>, pos: int, x: Option<Seq<u8>>, y: Option<Seq<u8>>, z: Option<
    Seq<u8>,
>)
    requires
        0 <= pos,
        pos + spec_enc_env3(x, y, z).len() <= b.len(),
        b.subrange(pos, pos + spec_enc_env3(x, y, z).len() as int) == spec_enc_env3(x, y, z),
    ensures
        ({
            let o1 = spec_enc_opt(x);
            let o2 = spec_enc_opt(y);
            let o3 = spec_enc_opt(z);
            let p1 = pos + o1.len();
            let p2 = p1 + o2.len();
            let p3 = p2 + o3.len();
            spec_enc_env3(x, y, z).len() == o1.len() + o2.len() + o3.len() && b.subrange(pos, p1)
                == o1 && b.subrange(p1, p2) == o2 && b.subrange(p2, p3) == o3
        }),
{
    let o1 = spec_enc_opt(x);
    let o2 = spec_enc_opt(y);
    let o3 = spec_enc_opt(z);
    lemma_split_range(b, pos, o1, o2 + o3);
    lemma_split_range(b, pos + o1.len(), o2, o3);
}

/// Reads three optional byte strings at `pos`. Succeeds exactly when a
/// three-slot group is encoded there, and consumes exactly its encoding.
#[verifier::rlimit(100)]
fn parse_env3_at(b: &[u8], pos: usize) -> (r: Option<
    (Option<Vec<u8>>, Option<Vec<u8>>, Option<Vec<u8>>, usize),
>)
    requires
        pos <= b@.len(),
    ensures
        r matches Some(pr) ==> pos <= pr.3 <= b@.len() && opt_ok(opt_bytes(pr.0)) && opt_ok(
            opt_bytes(pr.1),
        ) && opt_ok(opt_bytes(pr.2)) && b@.subrange(pos as int, pr.3 as int) == spec_enc_env3(
            opt_bytes(pr.0),
            opt_bytes(pr.1),
            opt_bytes(pr.2),
        ),
        forall|x: Option<Seq<u8>>, y: Option<Seq<u8>>, z: Option<Seq<u8>>|
            (opt_ok(x) && opt_ok(y) && opt_ok(z) && pos + (#[trigger] spec_enc_env3(
                x,
                y,
                z,
            )).len() <= b@.len() && b@.subrange(pos as int, pos + spec_enc_env3(x, y, z).len())
                == spec_enc_env3(x, y, z)) ==> (r matches Some(pr) && opt_bytes(pr.0) == x
                && opt_bytes(pr.1) == y && opt_bytes(pr.2) == z && pr.3 == pos + spec_enc_env3(
                x,
                y,
                z,
            ).len()),
{
    let s1 = parse_opt_at(b, pos);
    let (x2, p1) = match s1 {
        Some(pr) => pr,
        None => {
            proof {
                assert forall|x: Option<Seq<u8>>, y: Option<Seq<u8>>, z: Option<Seq<u8>>|
                    !(opt_ok(x) && opt_ok(y) && opt_ok(z) && pos + (#[trigger] spec_enc_env3(
                        x,
                        y,
                        z,
                    )).len() <= b@.len() && b@.subrange(
                        pos as int,
                        pos + spec_enc_env3(x, y, z).len(),
                    ) == spec_enc_env3(x, y, z)) by {
                    if opt_ok(x) && opt_ok(y) && opt_ok(z) && pos + spec_enc_env3(x, y, z).len()
                        <= b@.len() && b@.subrange(pos as int, pos + spec_enc_env3(x, y, z).len())
                        == spec_enc_env3(x, y, z) {
                        lemma_env3_layout(b@, pos as int, x, y, z);
                    }
                }
            }
            return None;
        },
    };
    let s2 = parse_opt_at(b, p1);
    let (y2, p2) = match s2 {
        Some(pr) => pr,
        None => {
            proof {
                assert forall|x: Option<Seq<u8>>, y: Option<Seq<u8>>, z: Option<Seq<u8>>|
                    !(opt_ok(x) && opt_ok(y) && opt_ok(z) && pos + (#[trigger] spec_enc_env3(
                        x,
                        y,
                        z,
                    )).len() <= b@.len() && b@.subrange(
                        pos as int,
                        pos + spec_enc_env3(x, y, z).len(),
                    ) == spec_enc_env3(x, y, z)) by {
                    if opt_ok(x) && opt_ok(y) && opt_ok(z) && pos + spec_enc_env3(x, y, z).len()
                        <= b@.len() && b@.subrange(pos as int, pos + spec_enc_env3(x, y, z).len())
                        == spec_enc_env3(x, y, z) {
                        lemma_env3_layout(b@, pos as int, x, y, z);
                    }
                }
            }
            return None;
        },
    };
    let s3 = parse_opt_at(b, p2);
    let (z2, p3) = match s3 {
        Some(pr) => pr,
        None => {
            proof {
                assert forall|x: Option<Seq<u8>>, y: Option<Seq<u8>>, z: Option<Seq<u8>>|
                    !(opt_ok(x) && opt_ok(y) && opt_ok(z) && pos + (#[trigger] spec_enc_env3(
                        x,
                        y,
                        z,
                    )).len() <= b@.len() && b@.subrange(
                        pos as int,
                        pos + spec_enc_env3(x, y, z).len(),
                    ) == spec_enc_env3(x, y, z)) by {
                    if opt_ok(x) && opt_ok(y) && opt_ok(z) && pos + spec_enc_env3(x, y, z).len()
                        <= b@.len() && b@.subrange(pos as int, pos + spec_enc_env3(x, y, z).len())
                        == spec_enc_env3(x, y, z) {
                        lemma_env3_layout(b@, pos as int, x, y, z);
                    }
                }
            }
            return None;
        },
    };
    proof {
        lemma_join_range(
            b@,
            p1 as int,
            b@.subrange(p1 as int, p2 as int),
            b@.subrange(p2 as int, p3 as int),
        );
        lemma_join_range(
            b@,
            pos as int,
            b@.subrange(pos as int, p1 as int),
            b@.subrange(p1 as int, p3 as int),
        );
        assert(b@.subrange(pos as int, p3 as int) == spec_enc_env3(
            opt_bytes(x2),
            opt_bytes(y2),
            opt_bytes(z2),
        ));
        assert forall|x: Option<Seq<u8>>, y: Option<Seq<u8>>, z: Option<Seq<u8>>|
            (opt_ok(x) && opt_ok(y) && opt_ok(z) && pos + (#[trigger] spec_enc_env3(
                x,
                y,
                z,
            )).len() <= b@.len() && b@.subrange(pos as int, pos + spec_enc_env3(x, y, z).len())
                == spec_enc_env3(x, y, z)) implies (opt_bytes(x2) == x && opt_bytes(y2) == y
            && opt_bytes(z2) == z && p3 == pos + spec_enc_env3(x, y, z).len()) by {
            lemma_env3_layout(b@, pos as int, x, y, z);
        }
    }
    Some((x2, y2, z2, p3))
}

/// Reads a caller environment at `pos`. Succeeds exactly when one is
/// encoded there, and consumes exactly its encoding.
#[verifier::rlimit(100)]
fn parse_env_at(b: &[u8], pos: usize) -> (r: Option<(Environment, usize)>)
    requires
        pos <= b@.len(),
    ensures
        r matches Some(pr) ==> pr.1 <= b@.len() && env_ok(pr.0) && b@.subrange(
            pos as int,
            pr.1 as int,
        ) == spec_enc_env(pr.0),
        forall|e: Environment|
            (env_ok(e) && pos + (#[trigger] spec_enc_env(e)).len() <= b@.len() && b@.subrange(
                pos as int,
                pos + spec_enc_env(e).len(),
            ) == spec_enc_env(e)) ==> (r matches Some(pr) && env_eq(pr.0, e) && pr.1 == pos
                + spec_enc_env(e).len()),
{
    proof {
        assert forall|e: Environment|
            (env_ok(e) && pos + (#[trigger] spec_enc_env(e)).len() <= b@.len() && b@.subrange(
                pos as int,
                pos + spec_enc_env(e).len(),
            ) == spec_enc_env(e)) implies ({
            let g1 = spec_enc_env3(
                opt_bytes(e.tty),
                opt_bytes(e.display),
                opt_bytes(e.wayland_display),
            );
            let g2 = spec_enc_env3(
                opt_bytes(e.xauthority),
                opt_bytes(e.ssh_auth_sock),
                opt_bytes(e.gpg_tty),
            );
            b@.subrange(pos as int, pos + g1.len()) == g1 && b@.subrange(
                pos + g1.len(),
                pos + g1.len() + g2.len(),
            ) == g2
        }) by {
            let g1 = spec_enc_env3(
                opt_bytes(e.tty),
                opt_bytes(e.display),
                opt_bytes(e.wayland_display),
            );
            let g2 = spec_enc_env3(
                opt_bytes(e.xauthority),
                opt_bytes(e.ssh_auth_sock),
                opt_bytes(e.gpg_tty),
            );
            lemma_split_range(b@, pos as int, g1, g2);
        }
    }
    let s1 = parse_env3_at(b, pos);
    let (tty, display, wayland_display, p1) = match s1 {
        Some(pr) => pr,
        None => {
            return None;
        },
    };
    let s2 = parse_env3_at(b, p1);
    let (xauthority, ssh_auth_sock, gpg_tty, p2) = match s2 {
        Some(pr) => pr,
        None => {
            return None;
        },
    };
    let e2 = Environment { tty, display, wayland_display, xauthority, ssh_auth_sock, gpg_tty };
    proof {
        lemma_join_range(
            b@,
            pos as int,
            b@.subrange(pos as int, p1 as int),
            b@.subrange(p1 as int, p2 as int),
        );
        assert(b@.subrange(pos as int, p2 as int) == spec_enc_env(e2));
    }
    Some((e2, p2))
}

/// Decodes a request envelope. Succeeds exactly on the encodings, and
/// yields the request that encodes to the input.
#[verifier::rlimit(100)]
pub fn decode_request(b: &[u8]) -> (r: Option<Request>)
    ensures
        r matches Some(q) ==> request_ok(q) && b@ == spec_enc_request(q),
        forall|q: Request|
            (request_ok(q) && b@ == #[trigger] spec_enc_request(q)) ==> (r matches Some(q2)
                && request_eq(q2, q)),
{
    let n = b.len();
    proof {
        assert forall|q: Request|
            request_ok(q) && b@ == spec_enc_request(q) implies b@.subrange(
            0,
            spec_enc_env(q.environment).len() as int,
        ) == spec_enc_env(q.environment) && b@.subrange(
            spec_enc_env(q.environment).len() as int,
            b@.len() as int,
        ) == spec_enc_action(q.action) by {
            assert(b@.subrange(0, b@.len() as int) =~= b@);
            lemma_split_range(b@, 0, spec_enc_env(q.environment), spec_enc_action(q.action));
        }
    }
    let se = parse_env_at(b, 0);
    let (environment, pe) = match se {
        Some(pr) => pr,
        None => {
            return None;
        },
    };
    let sa = parse_action_at(b, pe);
    let (action, pa) = match sa {
        Some(pr) => pr,
        None => {
            return None;
        },
    };
    if pa != n {
        return None;
    }
    let q2 = Request { environment, action };
    proof {
        lemma_join_range(b@, 0, spec_enc_env(q2.environment), b@.subrange(pe as int, pa as int));
        assert(b@.subrange(0, n as int) =~= b@);
        assert(b@ == spec_enc_request(q2));
    }
    Some(q2)
}

} // verus!
