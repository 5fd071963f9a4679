//! The cipherstring encoding fixed by the remote vault service: a type tag,
//! then base64 parts separated by `|`. A symmetric cipherstring
//! (`2.iv|ct|mac`) carries an AES-256-CBC ciphertext authenticated by
//! HMAC-SHA256; an asymmetric one (`4.ct`) carries an RSA-wrapped key.

use vstd::prelude::*;
use crate::b64::{all_b64_std_bytes, b64_decode, b64_encode, b64_encode_of, is_b64_std_byte};
use crate::protocol::ErrorKind;
use crate::util::append_bytes;

verus! {

/// A parsed cipherstring.
pub enum CipherString {
    Symmetric { iv: Vec<u8>, ct: Vec<u8>, mac: Vec<u8> },
    Asymmetric { ct: Vec<u8> },
}

/// The mathematical shape of a cipherstring.
pub enum CipherStringModel {
    Symmetric { iv: Seq<u8>, ct: Seq<u8>, mac: Seq<u8> },
    Asymmetric { ct: Seq<u8> },
}

impl View for CipherString {
    type V = CipherStringModel;

    open spec fn view(&self) -> CipherStringModel {
        match self {
            CipherString::Symmetric { iv, ct, mac } => CipherStringModel::Symmetric {
                iv: iv@,
                ct: ct@,
                mac: mac@,
            },
            CipherString::Asymmetric { ct } => CipherStringModel::Asymmetric { ct: ct@ },
        }
    }
}

impl CipherStringModel {
    /// Well-formed: a 16-byte initialization vector, a 32-byte
    /// authentication tag and whole, nonempty cipher blocks; or a nonempty
    /// wrapped key.
    pub open spec fn wf(self) -> bool {
        match self {
            CipherStringModel::Symmetric { iv, ct, mac } => iv.len() == 16 && mac.len() == 32
                && ct.len() >= 16 && ct.len() % 16 == 0,
            CipherStringModel::Asymmetric { ct } => ct.len() > 0,
        }
    }
}

/// The delimited textual encoding of a cipherstring.
pub open spec fn spec_format(m: CipherStringModel) -> Seq<u8> {
    match m {
        CipherStringModel::Symmetric { iv, ct, mac } => seq![50u8, 46u8] + b64_encode_of(iv) + seq![
            124u8,
        ] + b64_encode_of(ct) + seq![124u8] + b64_encode_of(mac),
        CipherStringModel::Asymmetric { ct } => seq![52u8, 46u8] + b64_encode_of(ct),
    }
}

/// The base64 parts of the encoding stay inside the standard alphabet, so
/// the `.` and `|` delimiters cannot occur inside a part. This holds of
/// everything `to_text` produces.
pub open spec fn format_parseable(m: CipherStringModel) -> bool {
    match m {
        CipherStringModel::Symmetric { iv, ct, mac } => all_b64_std_bytes(b64_encode_of(iv))
            && all_b64_std_bytes(b64_encode_of(ct)) && all_b64_std_bytes(b64_encode_of(mac)),
        CipherStringModel::Asymmetric { ct } => all_b64_std_bytes(b64_encode_of(ct)),
    }
}

proof fn lemma_format_shape(m: CipherStringModel)
    ensures
        spec_format(m).len() >= 2,
        spec_format(m)[1] == 46u8,
        m is Symmetric ==> spec_format(m)[0] == 50u8,
        m is Asymmetric ==> spec_format(m)[0] == 52u8,
{
    match m {
        CipherStringModel::Symmetric { iv, ct, mac } => {
            assert(spec_format(m)[0] == 50u8);
            assert(spec_format(m)[1] == 46u8);
        },
        CipherStringModel::Asymmetric { ct } => {
            assert(spec_format(m)[0] == 52u8);
            assert(spec_format(m)[1] == 46u8);
        },
    }
}

/// The first occurrence of `c` in `s` at or after `from`.
pub fn find_byte(s: &[u8], from: usize, c: u8) -> (r: Option<usize>)
    requires
        from <= s@.len(),
    ensures
        r matches Some(i) ==> from <= i < s@.len() && s@[i as int] == c && (forall|j: int|
            from <= j < i ==> s@[j] != c),
        r is None ==> forall|j: int| from <= j < s@.len() ==> s@[j] != c,
{
    let mut i: usize = from;
    while i < s.len()
        invariant
            from <= i <= s@.len(),
            forall|j: int| from <= j < i ==> s@[j] != c,
        decreases s@.len() - i,
    {
        if s[i] == c {
            return Some(i);
        }
        i += 1;
    }
    None
}

/// Renders a cipherstring in the delimited textual encoding.
pub fn to_text(cs: &CipherString) -> (r: Vec<u8>)
    ensures
        r@ == spec_format(cs@),
        format_parseable(cs@),
{
    match cs {
        CipherString::Symmetric { iv, ct, mac } => {
            let mut out: Vec<u8> = Vec::new();
            out.push(50u8);
            out.push(46u8);
            let e_iv = b64_encode(iv.as_slice());
            append_bytes(&mut out, e_iv.as_slice());
            out.push(124u8);
            let e_ct = b64_encode(ct.as_slice());
            append_bytes(&mut out, e_ct.as_slice());
            out.push(124u8);
            let e_mac = b64_encode(mac.as_slice());
            append_bytes(&mut out, e_mac.as_slice());
            proof {
                assert(out@ =~= spec_format(cs@));
            }
            out
        },
        CipherString::Asymmetric { ct } => {
            let mut out: Vec<u8> = Vec::new();
            out.push(52u8);
            out.push(46u8);
            let e_ct = b64_encode(ct.as_slice());
            append_bytes(&mut out, e_ct.as_slice());
            proof {
                assert(out@ =~= spec_format(cs@));
            }
            out
        },
    }
}

/// Parses the delimited textual encoding. Succeeds exactly on the
/// well-formed encodings: whatever `to_text` renders parses back to the
/// same cipherstring, and a successful parse is itself well formed and
/// renders back to its input.
pub fn parse(text: &[u8]) -> (r: Result<CipherString, ErrorKind>)
    ensures
        r matches Ok(cs) ==> cs@.wf() && text@ == spec_format(cs@),
        forall|m: CipherStringModel|
            m.wf() && format_parseable(m) && text@ == spec_format(m) ==> (r matches Ok(cs)
                && cs@ == m),
        r matches Err(e) ==> e == ErrorKind::Crypto,
{
    if text.len() < 2 || text[1] != 46u8 {
        proof {
            assert forall|m: CipherStringModel|
                m.wf() && format_parseable(m) implies text@ != spec_format(m) by {
                lemma_format_shape(m);
            }
        }
        return Err(ErrorKind::Crypto);
    }
    let tag = text[0];
    if tag == 50u8 {
        parse_symmetric(text)
    } else if tag == 52u8 {
        parse_asymmetric(text)
    } else {
        proof {
            assert forall|m: CipherStringModel|
                m.wf() && format_parseable(m) implies text@ != spec_format(m) by {
                lemma_format_shape(m);
            }
        }
        Err(ErrorKind::Crypto)
    }
}

/// Where a valid symmetric encoding would put its first delimiter: right
/// after the base64 of the initialization vector.
proof fn lemma_sym_delims(m: CipherStringModel, text: Seq<u8>)
    requires
        m is Symmetric,
        format_parseable(m),
        text == spec_format(m),
    ensures
        ({
            let e_iv = b64_encode_of(m->Symmetric_iv);
            let e_ct = b64_encode_of(m->Symmetric_ct);
            let e_mac = b64_encode_of(m->Symmetric_mac);
            text.len() == 4 + e_iv.len() + e_ct.len() + e_mac.len() && text[2 + e_iv.len() as int]
                == 124u8 && text[3 + e_iv.len() + e_ct.len() as int] == 124u8 && (forall|j: int|
                2 <= j < 2 + e_iv.len() ==> text[j] != 124u8) && (forall|j: int|
                3 + e_iv.len() <= j < 3 + e_iv.len() + e_ct.len() ==> text[j] != 124u8) && (
            forall|j: int|
                4 + e_iv.len() + e_ct.len() <= j < text.len() ==> text[j] != 124u8) && text.subrange(
                2,
                2 + e_iv.len() as int,
            ) == e_iv && text.subrange(
                3 + e_iv.len() as int,
                3 + e_iv.len() + e_ct.len() as int,
            ) == e_ct && text.subrange(4 + e_iv.len() + e_ct.len() as int, text.len() as int)
                == e_mac
        }),
{
    let e_iv = b64_encode_of(m->Symmetric_iv);
    let e_ct = b64_encode_of(m->Symmetric_ct);
    let e_mac = b64_encode_of(m->Symmetric_mac);
    let s0 = seq![50u8, 46u8];
    let d = seq![124u8];
    assert(text == s0 + e_iv + d + e_ct + d + e_mac);
    assert(s0.len() == 2);
    assert(d.len() == 1);
    assert(text.len() == s0.len() + e_iv.len() + d.len() + e_ct.len() + d.len() + e_mac.len());
    assert(text.len() == 4 + e_iv.len() + e_ct.len() + e_mac.len());
    assert(text[2 + e_iv.len() as int] == (s0 + e_iv + d)[2 + e_iv.len() as int]);
    assert(text[2 + e_iv.len() as int] == 124u8);
    assert(text[3 + e_iv.len() + e_ct.len() as int] == 124u8);
    assert(text.subrange(2, 2 + e_iv.len() as int) =~= e_iv);
    assert(text.subrange(3 + e_iv.len() as int, 3 + e_iv.len() + e_ct.len() as int) =~= e_ct);
    assert(text.subrange(4 + e_iv.len() + e_ct.len() as int, text.len() as int) =~= e_mac);
    assert forall|j: int| 2 <= j < 2 + e_iv.len() implies text[j] != 124u8 by {
        assert(text[j] == e_iv[j - 2]);
        assert(is_b64_std_byte(e_iv[j - 2]));
    }
    assert forall|j: int| 3 + e_iv.len() <= j < 3 + e_iv.len() + e_ct.len() implies text[j]
        != 124u8 by {
        assert(text[j] == e_ct[j - 3 - e_iv.len()]);
        assert(is_b64_std_byte(e_ct[j - 3 - e_iv.len()]));
    }
    assert forall|j: int| 4 + e_iv.len() + e_ct.len() <= j < text.len() implies text[j]
        != 124u8 by {
        assert(text[j] == e_mac[j - 4 - e_iv.len() - e_ct.len()]);
        assert(is_b64_std_byte(e_mac[j - 4 - e_iv.len() - e_ct.len()]));
    }
}

fn parse_symmetric(text: &[u8]) -> (r: Result<CipherString, ErrorKind>)
    requires
        text@.len() >= 2,
        text@[0] == 50u8,
        text@[1] == 46u8,
    ensures
        r matches Ok(cs) ==> cs@.wf() && text@ == spec_format(cs@),
        forall|m: CipherStringModel|
            m.wf() && format_parseable(m) && text@ == spec_format(m) ==> (r matches Ok(cs)
                && cs@ == m),
        r matches Err(e) ==> e == ErrorKind::Crypto,
{
    let n: usize = text.len();
    let p1_opt = find_byte(text, 2, 124u8);
    let p1: usize = match p1_opt {
        Some(p) => p,
        None => {
            proof {
                assert forall|m: CipherStringModel|
                    m.wf() && format_parseable(m) implies text@ != spec_format(m) by {
                    lemma_format_shape(m);
                    if m is Symmetric && text@ == spec_format(m) {
                        lemma_sym_delims(m, text@);
                    }
                }
            }
            return Err(ErrorKind::Crypto);
        },
    };
    proof {
        assert(p1_opt matches Some(i) && i == p1);
        assert(p1 < text@.len());
    }
    let p2_opt = find_byte(text, p1 + 1, 124u8);
    let p2: usize = match p2_opt {
        Some(p) => p,
        None => {
            proof {
                assert forall|m: CipherStringModel|
                    m.wf() && format_parseable(m) implies text@ != spec_format(m) by {
                    lemma_format_shape(m);
                    if m is Symmetric && text@ == spec_format(m) {
                        lemma_sym_delims(m, text@);
                        let e_iv = b64_encode_of(m->Symmetric_iv);
                        let e_ct = b64_encode_of(m->Symmetric_ct);
                        assert(p1 == 2 + e_iv.len());
                        assert(text@[3 + e_iv.len() + e_ct.len() as int] == 124u8);
                    }
                }
            }
            return Err(ErrorKind::Crypto);
        },
    };
    proof {
        assert(p2_opt matches Some(i) && i == p2);
        assert(p1 < p2 < text@.len());
    }
    proof {
        assert forall|m: CipherStringModel|
            m.wf() && format_parseable(m) && text@ == spec_format(m) implies m is Symmetric && ({
            let e_iv = b64_encode_of(m->Symmetric_iv);
            let e_ct = b64_encode_of(m->Symmetric_ct);
            p1 == 2 + e_iv.len() && p2 == 3 + e_iv.len() + e_ct.len()
        }) by {
            lemma_format_shape(m);
            lemma_sym_delims(m, text@);
        }
    }
    let iv_part = vstd::slice::slice_subrange(text, 2, p1);
    let ct_part = vstd::slice::slice_subrange(text, p1 + 1, p2);
    let mac_part = vstd::slice::slice_subrange(text, p2 + 1, n);
    let iv_res = b64_decode(iv_part);
    let ct_res = b64_decode(ct_part);
    let mac_res = b64_decode(mac_part);
    proof {
        assert forall|m: CipherStringModel|
            m.wf() && format_parseable(m) && text@ == spec_format(m) implies (
        iv_res matches Some(v) && v@ == m->Symmetric_iv) && (ct_res matches Some(v) && v@
            == m->Symmetric_ct) && (mac_res matches Some(v) && v@ == m->Symmetric_mac) by {
            lemma_format_shape(m);
            lemma_sym_delims(m, text@);
        }
    }
    let iv: Vec<u8> = match iv_res {
        Some(v) => v,
        None => {
            return Err(ErrorKind::Crypto);
        },
    };
    let ct: Vec<u8> = match ct_res {
        Some(v) => v,
        None => {
            return Err(ErrorKind::Crypto);
        },
    };
    let mac: Vec<u8> = match mac_res {
        Some(v) => v,
        None => {
            return Err(ErrorKind::Crypto);
        },
    };
    if iv.len() != 16 || mac.len() != 32 || ct.len() < 16 || ct.len() % 16 != 0 {
        return Err(ErrorKind::Crypto);
    }
    let cs = CipherString::Symmetric { iv, ct, mac };
    proof {
        assert(text@ =~= spec_format(cs@));
    }
    Ok(cs)
}

fn parse_asymmetric(text: &[u8]) -> (r: Result<CipherString, ErrorKind>)
    requires
        text@.len() >= 2,
        text@[0] == 52u8,
        text@[1] == 46u8,
    ensures
        r matches Ok(cs) ==> cs@.wf() && text@ == spec_format(cs@),
        forall|m: CipherStringModel|
            m.wf() && format_parseable(m) && text@ == spec_format(m) ==> (r matches Ok(cs)
                && cs@ == m),
        r matches Err(e) ==> e == ErrorKind::Crypto,
{
    let body = vstd::slice::slice_subrange(text, 2, text.len());
    let body_res = b64_decode(body);
    proof {
        assert forall|m: CipherStringModel|
            m.wf() && format_parseable(m) && text@ == spec_format(m) implies m is Asymmetric && (
        body_res matches Some(v) && v@ == m->Asymmetric_ct && v@.len() > 0) by {
            lemma_format_shape(m);
            assert(text@.subrange(2, text@.len() as int) =~= b64_encode_of(m->Asymmetric_ct));
        }
    }
    let ct: Vec<u8> = match body_res {
        Some(v) => v,
        None => {
            return Err(ErrorKind::Crypto);
        },
    };
    if ct.len() == 0 {
        return Err(ErrorKind::Crypto);
    }
    let cs = CipherString::Asymmetric { ct };
    proof {
        assert(text@ =~= spec_format(cs@));
    }
    Ok(cs)
}

} // verus!
