//! Encryption envelope: a key derived from a password and a random salt by a
//! memory-hard KDF, and the whole container wrapped by an authenticated
//! cipher. At rest the envelope is `salt[16] ‖ nonce[12] ‖ ciphertext`; the
//! cipher's tag makes any bit-level corruption, and any wrong password, a
//! detected failure rather than garbage plaintext.

use aes_gcm::aead::Aead;
use aes_gcm::KeyInit;
use argon2::PasswordHasher;
use rand::RngCore;
use vstd::prelude::*;

verus! {

pub const SALT_LEN: usize = 16;

pub const NONCE_LEN: usize = 12;

pub const KEY_LEN: usize = 32;

pub const TAG_LEN: usize = 16;

/// Fixed prefix of an envelope: the salt and the nonce.
pub const ENVELOPE_OVERHEAD: usize = 28;

/// Longest plaintext the cipher accepts in one call.
pub const MAX_PLAINTEXT_LEN: u64 = 68719476736;

/// Longest password, in UTF-8 bytes, that the key-derivation function
/// accepts.
pub const MAX_PASSWORD_LEN: u64 = 4294967295;

/// The key-derivation function accepts the password: its UTF-8 encoding is
/// no longer than `MAX_PASSWORD_LEN` bytes.
pub open spec fn password_ok(password: Seq<char>) -> bool {
    vstd::utf8::encode_utf8(password).len() <= MAX_PASSWORD_LEN
}

/// The 32-byte key the KDF derives from a password and a 16-byte salt.
pub uninterp spec fn argon2_key(password: Seq<char>, salt: Seq<u8>) -> Seq<u8>;

/// The ciphertext (tag included) the cipher produces from a 32-byte key, a
/// 12-byte nonce and a plaintext.
pub uninterp spec fn aes_gcm_seal(key: Seq<u8>, nonce: Seq<u8>, plaintext: Seq<u8>) -> Seq<u8>;

/// What authenticated decryption recovers: `None` whenever the tag does not
/// verify.
pub uninterp spec fn aes_gcm_open(key: Seq<u8>, nonce: Seq<u8>, ciphertext: Seq<u8>) -> Option<
    Seq<u8>,
>;

/// Failure of the encryption envelope.
#[derive(Debug, PartialEq, Eq, Structural)]
pub enum CryptoError {
    /// The envelope is shorter than its fixed salt-and-nonce prefix.
    TooShort,
    /// Wrong password, or bit-level corruption of the ciphertext: the
    /// authentication tag did not verify.
    AuthenticationFailed,
}

/// Derives a 256-bit key from password and salt.
///
/// Relies on argon2::Argon2::hash_password with the crate's default
/// algorithm, version and parameters: the hash is a deterministic function of
/// the password and the salt, and is 32 bytes long by default. The function
/// rejects a password longer than `MAX_PASSWORD_LEN` bytes, so such a
/// password is excluded here.
#[verifier::external_body]
pub fn derive_key(password: &str, salt: &[u8]) -> (r: [u8; 32])
    requires
        salt@.len() == SALT_LEN,
        password_ok(password@),
    ensures
        r@ == argon2_key(password@, salt@),
{
    let salt_str = argon2::password_hash::SaltString::encode_b64(salt).unwrap();
    let argon = argon2::Argon2::default();
    let hash = argon.hash_password(password.as_bytes(), &salt_str).unwrap();
    let out = hash.hash.unwrap();
    let mut key = [0u8; 32];
    key.copy_from_slice(&out.as_bytes()[..32]);
    key
}

/// Relies on rand::rngs::OsRng::fill_bytes to fill the array with fresh
/// random bytes from the operating system.
#[verifier::external_body]
fn random_salt() -> [u8; 16] {
    let mut b = [0u8; 16];
    rand::rngs::OsRng.fill_bytes(&mut b);
    b
}

/// Relies on rand::rngs::OsRng::fill_bytes to fill the array with fresh
/// random bytes from the operating system.
#[verifier::external_body]
fn random_nonce() -> [u8; 12] {
    let mut b = [0u8; 12];
    rand::rngs::OsRng.fill_bytes(&mut b);
    b
}

/// Relies on aes_gcm::Aes256Gcm::encrypt (AES-256-GCM): for a 32-byte key and
/// a 12-byte nonce the ciphertext is a deterministic function of key, nonce
/// and plaintext; it is the plaintext's length plus the 16-byte tag; and
/// decrypting it under the same key and nonce yields the plaintext back. The
/// cipher only accepts plaintexts up to `MAX_PLAINTEXT_LEN`.
#[verifier::external_body]
fn aes_encrypt(key: &[u8], nonce: &[u8], data: &[u8]) -> (r: Vec<u8>)
    requires
        key@.len() == KEY_LEN,
        nonce@.len() == NONCE_LEN,
        data@.len() <= MAX_PLAINTEXT_LEN,
    ensures
        r@ == aes_gcm_seal(key@, nonce@, data@),
        r@.len() == data@.len() + TAG_LEN,
        aes_gcm_open(key@, nonce@, r@) == Some(data@),
{
    let cipher = aes_gcm::Aes256Gcm::new_from_slice(key).unwrap();
    cipher.encrypt(aes_gcm::Nonce::from_slice(nonce), data).unwrap()
}

/// Relies on aes_gcm::Aes256Gcm::decrypt: deterministic in key, nonce and
/// ciphertext, and it fails exactly when the authentication tag does not
/// verify.
#[verifier::external_body]
fn aes_decrypt(key: &[u8], nonce: &[u8], ciphertext: &[u8]) -> (r: Option<Vec<u8>>)
    requires
        key@.len() == KEY_LEN,
        nonce@.len() == NONCE_LEN,
    ensures
        match aes_gcm_open(key@, nonce@, ciphertext@) {
            Some(pt) => r matches Some(v) && v@ == pt,
            None => r is None,
        },
{
    let cipher = aes_gcm::Aes256Gcm::new_from_slice(key).unwrap();
    cipher.decrypt(aes_gcm::Nonce::from_slice(nonce), ciphertext).ok()
}

/// What an envelope decrypts to under a password: split the fixed fields,
/// re-derive the key from the password and the recovered salt, and open the
/// ciphertext under the recovered nonce.
pub open spec fn envelope_opens_to(env: Seq<u8>, password: Seq<char>) -> Option<Seq<u8>> {
    if env.len() < ENVELOPE_OVERHEAD {
        None
    } else {
        aes_gcm_open(
            argon2_key(password, env.subrange(0, SALT_LEN as int)),
            env.subrange(SALT_LEN as int, ENVELOPE_OVERHEAD as int),
            env.skip(ENVELOPE_OVERHEAD as int),
        )
    }
}

/// Encrypts bytes under a password. Returns (salt, nonce, ciphertext), with
/// the salt and the nonce freshly random on every call.
pub fn encrypt(data: &[u8], password: &str) -> (r: (Vec<u8>, Vec<u8>, Vec<u8>))
    requires
        data@.len() <= MAX_PLAINTEXT_LEN,
        password_ok(password@),
    ensures
        r.0@.len() == SALT_LEN,
        r.1@.len() == NONCE_LEN,
        r.2@ == aes_gcm_seal(argon2_key(password@, r.0@), r.1@, data@),
        r.2@.len() == data@.len() + TAG_LEN,
        aes_gcm_open(argon2_key(password@, r.0@), r.1@, r.2@) == Some(data@),
{
    let salt = random_salt();
    let nonce = random_nonce();
    let key = derive_key(password, salt.as_slice());
    let ciphertext = aes_encrypt(key.as_slice(), nonce.as_slice(), data);
    (
        vstd::slice::slice_to_vec(salt.as_slice()),
        vstd::slice::slice_to_vec(nonce.as_slice()),
        ciphertext,
    )
}

/// Decrypts ciphertext using password, salt and nonce.
pub fn decrypt(salt: &[u8], nonce: &[u8], ciphertext: &[u8], password: &str) -> (r: Result<
    Vec<u8>,
    CryptoError,
>)
    requires
        salt@.len() == SALT_LEN,
        nonce@.len() == NONCE_LEN,
        password_ok(password@),
    ensures
        match aes_gcm_open(argon2_key(password@, salt@), nonce@, ciphertext@) {
            Some(pt) => r matches Ok(v) && v@ == pt,
            None => r matches Err(e) && e == CryptoError::AuthenticationFailed,
        },
{
    let key = derive_key(password, salt);
    match aes_decrypt(key.as_slice(), nonce, ciphertext) {
        Some(v) => Ok(v),
        None => Err(CryptoError::AuthenticationFailed),
    }
}

/// Seals a container under a password: a fresh random 16-byte salt and
/// 12-byte nonce, the derived key, and the authenticated ciphertext, laid out
/// as `salt ‖ nonce ‖ ciphertext`. Returns `None` only when the plaintext is
/// longer than the cipher accepts.
pub fn seal_envelope(plaintext: &[u8], password: &str) -> (r: Option<Vec<u8>>)
    requires
        password_ok(password@),
    ensures
        r is None <==> plaintext@.len() > MAX_PLAINTEXT_LEN,
        r matches Some(env) ==> envelope_opens_to(env@, password@) == Some(plaintext@)
            && env@.len() == plaintext@.len() + ENVELOPE_OVERHEAD + TAG_LEN,
{
    if plaintext.len() as u64 > MAX_PLAINTEXT_LEN {
        return None;
    }
    let (salt, nonce, ciphertext) = encrypt(plaintext, password);
    let mut env = salt;
    let ghost salt_bytes = env@;
    let mut nonce_v = nonce;
    env.append(&mut nonce_v);
    let mut ct_v = ciphertext;
    env.append(&mut ct_v);
    proof {
        assert(env@.subrange(0, SALT_LEN as int) =~= salt_bytes);
        assert(env@.subrange(SALT_LEN as int, ENVELOPE_OVERHEAD as int) =~= nonce@);
        assert(env@.skip(ENVELOPE_OVERHEAD as int) =~= ciphertext@);
    }
    Some(env)
}

/// Opens an envelope under a password. Fails on an envelope shorter than its
/// fixed prefix, and whenever the authentication tag does not verify (wrong
/// password, or any corruption of the ciphertext): it never returns garbage
/// plaintext.
pub fn open_envelope(envelope: &[u8], password: &str) -> (r: Result<Vec<u8>, CryptoError>)
    requires
        password_ok(password@),
    ensures
        envelope@.len() < ENVELOPE_OVERHEAD ==> (r matches Err(e) && e == CryptoError::TooShort),
        envelope@.len() >= ENVELOPE_OVERHEAD ==> match envelope_opens_to(envelope@, password@) {
            Some(pt) => r matches Ok(v) && v@ == pt,
            None => r matches Err(e) && e == CryptoError::AuthenticationFailed,
        },
        r is Ok <==> envelope_opens_to(envelope@, password@) is Some,
{
    if envelope.len() < ENVELOPE_OVERHEAD {
        return Err(CryptoError::TooShort);
    }
    let salt = vstd::slice::slice_subrange(envelope, 0, SALT_LEN);
    let nonce = vstd::slice::slice_subrange(envelope, SALT_LEN, ENVELOPE_OVERHEAD);
    let ciphertext = vstd::slice::slice_subrange(envelope, ENVELOPE_OVERHEAD, envelope.len());
    proof {
        assert(ciphertext@ =~= envelope@.skip(ENVELOPE_OVERHEAD as int));
    }
    decrypt(salt, nonce, ciphertext, password)
}

} // verus!
