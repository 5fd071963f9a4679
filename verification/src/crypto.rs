//! The cryptographic engine: key derivation from a master password,
//! authenticated symmetric sealing/opening of cipherstrings, and asymmetric
//! unwrap of organization keys. The primitives (PBKDF2, HMAC-SHA256,
//! AES-256-CBC, RSA-OAEP) come from outside crates behind trusted
//! boundaries; everything around them — tag checking, key resolution, the
//! all-or-nothing behavior — is verified.

use vstd::prelude::*;
use aes::cipher::block_padding::Pkcs7;
use aes::cipher::{BlockDecryptMut, BlockEncryptMut, KeyIvInit};
use hmac::Mac;
use rand::RngCore;
use rsa::pkcs8::DecodePrivateKey;
use crate::cipherstring::{CipherString, CipherStringModel, format_parseable, spec_format};
use crate::protocol::ErrorKind;
use crate::util::{append_bytes, bytes_eq, copy_bytes, copy_range};

verus! {

/// What HMAC-SHA256 computes: a function of key and data alone.
pub uninterp spec fn hmac_sha256_of(key: Seq<u8>, data: Seq<u8>) -> Seq<u8>;

/// What AES-256-CBC with PKCS7 padding encrypts a message to: a function of
/// key, initialization vector and plaintext alone.
pub uninterp spec fn aes256_cbc_enc_of(key: Seq<u8>, iv: Seq<u8>, pt: Seq<u8>) -> Seq<u8>;

/// What PBKDF2-HMAC-SHA256 derives: a function of password, salt, round
/// count and output length alone.
pub uninterp spec fn pbkdf2_sha256_of(password: Seq<u8>, salt: Seq<u8>, rounds: u32, out_len: nat) -> Seq<u8>;

/// What RSA-OAEP-SHA1 decryption under a PKCS#8 DER private key yields: a
/// function of the key bytes and the wrapped bytes alone.
pub uninterp spec fn rsa_oaep_sha1_unwrap_of(key_der: Seq<u8>, wrapped: Seq<u8>) -> Option<Seq<u8>>;

/// Relies on hmac's `Hmac<Sha256>`: deterministic over key and data, with a
/// 32-byte digest; a key of any length is accepted.
#[verifier::external_body]
fn hmac_sha256(key: &[u8], data: &[u8]) -> (r: Vec<u8>)
    ensures
        r@ == hmac_sha256_of(key@, data@),
        r@.len() == 32,
{
    let mut m = <hmac::Hmac<sha2::Sha256> as Mac>::new_from_slice(key).unwrap();
    m.update(data);
    m.finalize().into_bytes().to_vec()
}

/// Relies on cbc's `Encryptor<aes::Aes256>` with PKCS7 padding:
/// deterministic over key, iv and plaintext; the output is the plaintext
/// padded to the next whole block, so always at least one block longer than
/// the unpadded length.
#[verifier::external_body]
fn aes256_cbc_encrypt(key: &[u8], iv: &[u8], pt: &[u8]) -> (r: Vec<u8>)
    requires
        key@.len() == 32,
        iv@.len() == 16,
    ensures
        r@ == aes256_cbc_enc_of(key@, iv@, pt@),
        r@.len() == pt@.len() + 16 - (pt@.len() % 16),
        r@.len() % 16 == 0,
        r@.len() >= 16,
{
    let enc = cbc::Encryptor::<aes::Aes256>::new_from_slices(key, iv).unwrap();
    enc.encrypt_padded_vec_mut::<Pkcs7>(pt)
}

/// Relies on cbc's `Decryptor<aes::Aes256>` with PKCS7 padding: CBC
/// decryption inverts CBC encryption under the same key and iv, and PKCS7
/// unpadding succeeds exactly on correctly padded blocks, so the call
/// returns exactly the unique plaintext that encrypts to `ct`, if one
/// exists.
#[verifier::external_body]
fn aes256_cbc_decrypt(key: &[u8], iv: &[u8], ct: &[u8]) -> (r: Option<Vec<u8>>)
    requires
        key@.len() == 32,
        iv@.len() == 16,
        ct@.len() % 16 == 0,
        ct@.len() >= 16,
    ensures
        match r {
            Some(v) => ct@ == aes256_cbc_enc_of(key@, iv@, v@) && (forall|p: Seq<u8>|
                ct@ == aes256_cbc_enc_of(key@, iv@, p) ==> p == v@),
            None => forall|p: Seq<u8>| ct@ != aes256_cbc_enc_of(key@, iv@, p),
        },
{
    let dec = cbc::Decryptor::<aes::Aes256>::new_from_slices(key, iv).unwrap();
    dec.decrypt_padded_vec_mut::<Pkcs7>(ct).ok()
}

/// Relies on pbkdf2's `pbkdf2_hmac::<Sha256>`: deterministic over password,
/// salt, round count and output length.
#[verifier::external_body]
fn pbkdf2_sha256(password: &[u8], salt: &[u8], rounds: u32, out_len: usize) -> (r: Vec<u8>)
    requires
        rounds >= 1,
    ensures
        r@ == pbkdf2_sha256_of(password@, salt@, rounds, out_len as nat),
        r@.len() == out_len,
{
    let mut buf = vec![0u8; out_len];
    pbkdf2::pbkdf2_hmac::<sha2::Sha256>(password, salt, rounds, &mut buf);
    buf
}

/// Relies on rand's `thread_rng`: a fresh 16-byte initialization vector.
/// Nothing is assumed of the bytes themselves.
#[verifier::external_body]
fn random_iv() -> (r: Vec<u8>)
    ensures
        r@.len() == 16,
{
    let mut iv = vec![0u8; 16];
    rand::thread_rng().fill_bytes(&mut iv);
    iv
}

/// Relies on rsa's `RsaPrivateKey::from_pkcs8_der` and unblinded
/// OAEP-SHA1 `decrypt`: both deterministic over the key bytes and the
/// ciphertext.
#[verifier::external_body]
fn rsa_oaep_sha1_unwrap(key_der: &[u8], wrapped: &[u8]) -> (r: Option<Vec<u8>>)
    ensures
        match r {
            Some(v) => rsa_oaep_sha1_unwrap_of(key_der@, wrapped@) == Some(v@),
            None => rsa_oaep_sha1_unwrap_of(key_der@, wrapped@) is None,
        },
{
    let key = match rsa::RsaPrivateKey::from_pkcs8_der(key_der) {
        Ok(k) => k,
        Err(_) => return None,
    };
    key.decrypt(rsa::Oaep::new::<sha1::Sha1>(), wrapped).ok()
}

/// A 64-byte symmetric vault key: the first half keys AES-256-CBC, the
/// second half keys HMAC-SHA256.
pub struct SymKey {
    pub bytes: Vec<u8>,
}

impl SymKey {
    pub open spec fn wf(&self) -> bool {
        self.bytes@.len() == 64
    }
}

/// The encryption half of a vault key.
pub open spec fn enc_half(key: Seq<u8>) -> Seq<u8> {
    key.subrange(0, 32)
}

/// The authentication half of a vault key.
pub open spec fn mac_half(key: Seq<u8>) -> Seq<u8> {
    key.subrange(32, 64)
}

/// `pt` is the plaintext of cipherstring `m` under `key`: the tag
/// authenticates iv and ciphertext, and the ciphertext is the encryption of
/// `pt`. At most one `pt` satisfies this for a given `m` and `key`.
pub open spec fn decrypts_to(key: Seq<u8>, m: CipherStringModel, pt: Seq<u8>) -> bool {
    match m {
        CipherStringModel::Symmetric { iv, ct, mac } => mac == hmac_sha256_of(mac_half(key), iv + ct)
            && ct == aes256_cbc_enc_of(enc_half(key), iv, pt),
        CipherStringModel::Asymmetric { .. } => false,
    }
}

/// The cipherstring that sealing `pt` under `key` with the given iv
/// produces.
pub open spec fn spec_encrypt(key: Seq<u8>, iv: Seq<u8>, pt: Seq<u8>) -> CipherStringModel {
    let ct = aes256_cbc_enc_of(enc_half(key), iv, pt);
    CipherStringModel::Symmetric { iv, ct, mac: hmac_sha256_of(mac_half(key), iv + ct) }
}

/// Round trip: whatever iv encryption picks, the sealed cipherstring
/// decrypts back to the plaintext under the same key.
pub proof fn lemma_encrypt_then_decrypt(key: Seq<u8>, iv: Seq<u8>, pt: Seq<u8>)
    ensures
        decrypts_to(key, spec_encrypt(key, iv, pt), pt),
{
}

/// Tamper detection: flipping any bit of the authentication tag of a valid
/// cipherstring leaves nothing it decrypts to — never an altered plaintext.
pub proof fn lemma_tampered_tag_rejected(
    key: Seq<u8>,
    m: CipherStringModel,
    pt: Seq<u8>,
    i: int,
    flip: u8,
)
    requires
        m is Symmetric,
        decrypts_to(key, m, pt),
        0 <= i < m->Symmetric_mac.len(),
        flip != 0,
    ensures
        forall|q: Seq<u8>|
            !decrypts_to(
                key,
                CipherStringModel::Symmetric {
                    iv: m->Symmetric_iv,
                    ct: m->Symmetric_ct,
                    mac: m->Symmetric_mac.update(i, m->Symmetric_mac[i] ^ flip),
                },
                q,
            ),
{
    let b = m->Symmetric_mac[i];
    assert(b ^ flip != b) by (bit_vector)
        requires
            flip != 0u8,
    ;
    let mac2 = m->Symmetric_mac.update(i, b ^ flip);
    assert(mac2[i] != m->Symmetric_mac[i]);
    assert(mac2 != m->Symmetric_mac);
}

/// Seals a plaintext under a vault key: a fresh random iv, AES-256-CBC, and
/// an HMAC-SHA256 tag over iv and ciphertext. The result decrypts back to
/// the plaintext under the same key.
pub fn encrypt(key: &SymKey, plaintext: &[u8]) -> (r: CipherString)
    requires
        key.wf(),
        plaintext@.len() + 32 <= usize::MAX,
    ensures
        r@ is Symmetric,
        r@.wf(),
        r@ == spec_encrypt(key.bytes@, r@->Symmetric_iv, plaintext@),
        decrypts_to(key.bytes@, r@, plaintext@),
{
    let iv = random_iv();
    let enc_k = copy_range(key.bytes.as_slice(), 0, 32);
    let mac_k = copy_range(key.bytes.as_slice(), 32, 64);
    let ct = aes256_cbc_encrypt(enc_k.as_slice(), iv.as_slice(), plaintext);
    let mut mac_input = copy_bytes(iv.as_slice());
    append_bytes(&mut mac_input, ct.as_slice());
    let mac = hmac_sha256(mac_k.as_slice(), mac_input.as_slice());
    let cs = CipherString::Symmetric { iv, ct, mac };
    proof {
        lemma_encrypt_then_decrypt(key.bytes@, cs@->Symmetric_iv, plaintext@);
    }
    cs
}

/// Opens a symmetric cipherstring under a vault key: recomputes the tag
/// over iv and ciphertext and compares before any decryption; on mismatch,
/// or on an asymmetric cipherstring, fails with a crypto error and yields
/// no plaintext, partial or otherwise. Succeeds exactly when the
/// cipherstring has a plaintext under this key, and returns that plaintext.
pub fn decrypt(key: &SymKey, cs: &CipherString) -> (r: Result<Vec<u8>, ErrorKind>)
    requires
        key.wf(),
        cs@.wf(),
    ensures
        r matches Ok(p) ==> decrypts_to(key.bytes@, cs@, p@),
        forall|p: Seq<u8>| decrypts_to(key.bytes@, cs@, p) ==> (r matches Ok(v) && v@ == p),
        r matches Err(e) ==> e == ErrorKind::Crypto && (forall|p: Seq<u8>|
            !decrypts_to(key.bytes@, cs@, p)),
{
    match cs {
        CipherString::Symmetric { iv, ct, mac } => {
            let mac_k = copy_range(key.bytes.as_slice(), 32, 64);
            let mut mac_input = copy_bytes(iv.as_slice());
            append_bytes(&mut mac_input, ct.as_slice());
            let expected = hmac_sha256(mac_k.as_slice(), mac_input.as_slice());
            if !bytes_eq(mac.as_slice(), expected.as_slice()) {
                return Err(ErrorKind::Crypto);
            }
            let enc_k = copy_range(key.bytes.as_slice(), 0, 32);
            match aes256_cbc_decrypt(enc_k.as_slice(), iv.as_slice(), ct.as_slice()) {
                Some(v) => Ok(v),
                None => Err(ErrorKind::Crypto),
            }
        },
        CipherString::Asymmetric { .. } => Err(ErrorKind::Crypto),
    }
}

/// Opens a cipherstring that wraps another 64-byte vault key (an entry key
/// or the user's protected key). Succeeds exactly when the cipherstring
/// decrypts under `key` to 64 bytes.
pub fn decrypt_key(key: &SymKey, cs: &CipherString) -> (r: Result<SymKey, ErrorKind>)
    requires
        key.wf(),
        cs@.wf(),
    ensures
        r matches Ok(k) ==> k.wf() && decrypts_to(key.bytes@, cs@, k.bytes@),
        forall|p: Seq<u8>|
            decrypts_to(key.bytes@, cs@, p) && p.len() == 64 ==> (r matches Ok(k) && k.bytes@
                == p),
        r matches Err(e) ==> e == ErrorKind::Crypto,
{
    match decrypt(key, cs) {
        Ok(bytes) => {
            if bytes.len() == 64 {
                Ok(SymKey { bytes })
            } else {
                Err(ErrorKind::Crypto)
            }
        },
        Err(e) => Err(e),
    }
}

/// The vault key derived from a master password: PBKDF2-HMAC-SHA256 over
/// the password and the account salt, 64 bytes.
pub open spec fn spec_master_key(password: Seq<u8>, salt: Seq<u8>, iterations: u32) -> Seq<u8> {
    pbkdf2_sha256_of(password, salt, iterations, 64)
}

/// The locally stored verification value: one further PBKDF2 round of the
/// derived key over the password, 32 bytes. Comparing against it requires
/// no network round trip.
pub open spec fn spec_verification_hash(key: Seq<u8>, password: Seq<u8>) -> Seq<u8> {
    pbkdf2_sha256_of(key, password, 1, 32)
}

/// Derives the vault key from a master password and the account's KDF
/// parameters; deterministic for identical inputs.
pub fn derive_master_key(password: &[u8], salt: &[u8], iterations: u32) -> (r: SymKey)
    requires
        iterations >= 1,
    ensures
        r.wf(),
        r.bytes@ == spec_master_key(password@, salt@, iterations),
{
    SymKey { bytes: pbkdf2_sha256(password, salt, iterations, 64) }
}

/// Recomputes the verification value for a derived key.
pub fn verification_hash(key: &SymKey, password: &[u8]) -> (r: Vec<u8>)
    requires
        key.wf(),
    ensures
        r@ == spec_verification_hash(key.bytes@, password@),
        r@.len() == 32,
{
    pbkdf2_sha256(key.bytes.as_slice(), password, 1, 32)
}

/// Purely local password verification: derives the key and compares its
/// verification value against the stored one. Yields the key exactly when
/// the values match; a wrong password yields nothing, and no key material.
pub fn verify_master_password(
    password: &[u8],
    salt: &[u8],
    iterations: u32,
    stored_hash: &[u8],
) -> (r: Option<SymKey>)
    requires
        iterations >= 1,
    ensures
        match r {
            Some(k) => k.wf() && k.bytes@ == spec_master_key(password@, salt@, iterations)
                && stored_hash@ == spec_verification_hash(k.bytes@, password@),
            None => stored_hash@ != spec_verification_hash(
                spec_master_key(password@, salt@, iterations),
                password@,
            ),
        },
{
    let key = derive_master_key(password, salt, iterations);
    let hash = verification_hash(&key, password);
    if bytes_eq(stored_hash, hash.as_slice()) {
        Some(key)
    } else {
        let mut key = key;
        crate::util::wipe_bytes(&mut key.bytes);
        None
    }
}

/// Unwraps an organization key: parses the asymmetric cipherstring and
/// opens it with RSA-OAEP-SHA1 under the user's private key. Succeeds
/// exactly when the text is a well-formed asymmetric cipherstring whose
/// unwrap yields 64 bytes; on such a text, success is owed.
pub fn unwrap_org_key(private_key_der: &[u8], wrapped_text: &[u8]) -> (r: Result<
    SymKey,
    ErrorKind,
>)
    ensures
        r matches Ok(k) ==> k.wf() && (exists|ct: Seq<u8>|
            wrapped_text@ == spec_format(CipherStringModel::Asymmetric { ct })
                && rsa_oaep_sha1_unwrap_of(private_key_der@, ct) == Some(k.bytes@)),
        forall|m: CipherStringModel|
            (m.wf() && format_parseable(m) && m is Asymmetric && wrapped_text@ == spec_format(m)
                && (rsa_oaep_sha1_unwrap_of(private_key_der@, m->Asymmetric_ct) matches Some(b)
                && b.len() == 64)) ==> (r matches Ok(k) && rsa_oaep_sha1_unwrap_of(
                private_key_der@,
                m->Asymmetric_ct,
            ) == Some(k.bytes@)),
        r matches Err(e) ==> e == ErrorKind::Crypto,
{
    let cs = match crate::cipherstring::parse(wrapped_text) {
        Ok(c) => c,
        Err(e) => {
            proof {
                assert forall|m: CipherStringModel|
                    !(m.wf() && format_parseable(m) && wrapped_text@ == spec_format(m)) by {}
            }
            return Err(e);
        },
    };
    match cs {
        CipherString::Asymmetric { ct } => {
            match rsa_oaep_sha1_unwrap(private_key_der, ct.as_slice()) {
                Some(bytes) => {
                    if bytes.len() == 64 {
                        let k = SymKey { bytes };
                        proof {
                            assert(wrapped_text@ == spec_format(
                                CipherStringModel::Asymmetric { ct: ct@ },
                            ));
                        }
                        Ok(k)
                    } else {
                        proof {
                            assert forall|m: CipherStringModel|
                                (m.wf() && format_parseable(m) && wrapped_text@ == spec_format(
                                    m,
                                )) implies (m == cs@ && rsa_oaep_sha1_unwrap_of(
                                private_key_der@,
                                m->Asymmetric_ct,
                            ) == Some(bytes@)) by {}
                        }
                        Err(ErrorKind::Crypto)
                    }
                },
                None => {
                    proof {
                        assert forall|m: CipherStringModel|
                            (m.wf() && format_parseable(m) && wrapped_text@ == spec_format(
                                m,
                            )) implies (m == cs@ && rsa_oaep_sha1_unwrap_of(
                            private_key_der@,
                            m->Asymmetric_ct,
                        ) is None) by {}
                    }
                    Err(ErrorKind::Crypto)
                },
            }
        },
        CipherString::Symmetric { .. } => {
            proof {
                assert forall|m: CipherStringModel|
                    (m.wf() && format_parseable(m) && wrapped_text@ == spec_format(
                        m,
                    )) implies m is Symmetric by {}
            }
            Err(ErrorKind::Crypto)
        },
    }
}

} // verus!
