use vstd::prelude::*;

use aes_gcm::aead::{Aead, KeyInit, OsRng};
use aes_gcm::{Aes256Gcm, Nonce};
use rand::RngCore;

verus! {

/// The size of the nonce that starts every encrypted message.
pub const NONCE_SIZE: usize = 12;

/// The size of the authentication tag that AES-GCM appends to the ciphertext.
pub const TAG_SIZE: usize = 16;

/// The largest plaintext, in bytes, that AES-GCM encrypts.
pub const MAX_PLAINTEXT_SIZE: u64 = 68719476736;

/// The ciphertext (tag included) that AES-256-GCM produces from `plaintext` under `key` and
/// `nonce`, with no associated data.
pub uninterp spec fn aes256gcm_encrypt(key: Seq<u8>, nonce: Seq<u8>, plaintext: Seq<u8>) -> Seq<u8>;

/// The plaintext that AES-256-GCM recovers from `ciphertext` (tag included) under `key` and
/// `nonce`, with no associated data; `None` when the tag does not authenticate it.
pub uninterp spec fn aes256gcm_decrypt(key: Seq<u8>, nonce: Seq<u8>, ciphertext: Seq<u8>) -> Option<Seq<u8>>;

/// What decrypting an encrypted message gives: its first 12 bytes are the nonce, the rest the ciphertext.
pub open spec fn open_message(key: Seq<u8>, message: Seq<u8>) -> Option<Seq<u8>> {
    aes256gcm_decrypt(key, message.take(NONCE_SIZE as int), message.skip(NONCE_SIZE as int))
}

/// Twelve random bytes from the operating system's generator, through `rand::RngCore::fill_bytes`
/// on `aes_gcm::aead::OsRng`. Nothing is claimed of the bytes but their number; the generator
/// panics if the operating system cannot supply randomness.
#[verifier::external_body]
fn random_nonce() -> (nonce: Vec<u8>)
    ensures
        nonce@.len() == NONCE_SIZE,
{
    let mut nonce = vec![0u8; NONCE_SIZE];
    OsRng.fill_bytes(&mut nonce);
    nonce
}

/// `Aead::encrypt` of `aes_gcm::Aes256Gcm`, with the key and nonce read by `from_slice`.
/// Claimed: it fails exactly when the plaintext is longer than 2^36 bytes (`P_MAX` in the
/// crate's source); otherwise the ciphertext is the named AES-256-GCM result, 16 bytes longer
/// than the plaintext, and `Aead::decrypt` under the same key and nonce gives the plaintext back.
#[verifier::external_body]
fn aes256gcm_seal(key: &[u8], nonce: &[u8], plaintext: &[u8]) -> (ciphertext: Option<Vec<u8>>)
    requires
        key@.len() == 32,
        nonce@.len() == NONCE_SIZE,
    ensures
        ciphertext is Some <==> plaintext@.len() <= MAX_PLAINTEXT_SIZE,
        ciphertext matches Some(c) ==> {
            &&& c@ == aes256gcm_encrypt(key@, nonce@, plaintext@)
            &&& c@.len() == plaintext@.len() + TAG_SIZE
            &&& aes256gcm_decrypt(key@, nonce@, c@) == Some(plaintext@)
        },
{
    let cipher = Aes256Gcm::new(aes_gcm::Key::<Aes256Gcm>::from_slice(key));
    cipher.encrypt(Nonce::from_slice(nonce), plaintext).ok()
}

/// `Aead::decrypt` of `aes_gcm::Aes256Gcm`, with the key and nonce read by `from_slice`.
/// Claimed: the result is the named AES-256-GCM decryption, and a recovered plaintext is 16
/// bytes shorter than the ciphertext.
#[verifier::external_body]
fn aes256gcm_open(key: &[u8], nonce: &[u8], ciphertext: &[u8]) -> (plaintext: Option<Vec<u8>>)
    requires
        key@.len() == 32,
        nonce@.len() == NONCE_SIZE,
    ensures
        match aes256gcm_decrypt(key@, nonce@, ciphertext@) {
            Some(p) => plaintext matches Some(q) && q@ == p && ciphertext@.len() == p.len() + TAG_SIZE,
            None => plaintext is None,
        },
{
    let cipher = Aes256Gcm::new(aes_gcm::Key::<Aes256Gcm>::from_slice(key));
    cipher.decrypt(Nonce::from_slice(nonce), ciphertext).ok()
}

/// Encrypts `data` with AES-256-GCM under `key` and a random nonce; the result is the nonce
/// followed by the ciphertext.
pub fn encrypt(data: Vec<u8>, key: &[u8]) -> (result: Result<Vec<u8>, String>)
    requires
        key@.len() == 32,
    ensures
        result is Ok <==> data@.len() <= MAX_PLAINTEXT_SIZE,
        result matches Ok(message) ==> {
            &&& message@.len() == data@.len() + NONCE_SIZE + TAG_SIZE
            &&& open_message(key@, message@) == Some(data@)
        },
        result matches Err(e) ==> e@ == "Error encrypting data"@,
{
    // Generate a random nonce
    let nonce = random_nonce();

    let ciphertext = match aes256gcm_seal(key, nonce.as_slice(), data.as_slice()) {
        Some(ciphertext) => ciphertext,
        None => {
            return Err(String::from_str("Error encrypting data"));
        },
    };

    let mut encrypted_data = nonce;
    let ghost nonce_bytes = encrypted_data@;
    let mut i: usize = 0;
    while i < ciphertext.len()
        invariant
            i <= ciphertext.len(),
            encrypted_data@ == nonce_bytes + ciphertext@.take(i as int),
        decreases ciphertext.len() - i,
    {
        encrypted_data.push(ciphertext[i]);
        i = i + 1;
        assert(encrypted_data@ =~= nonce_bytes + ciphertext@.take(i as int));
    }
    assert(ciphertext@.take(i as int) =~= ciphertext@);
    assert(encrypted_data@.take(NONCE_SIZE as int) =~= nonce_bytes);
    assert(encrypted_data@.skip(NONCE_SIZE as int) =~= ciphertext@);
    Ok(encrypted_data)
}

/// Decrypts a message made by [`encrypt`]: its first 12 bytes are the nonce, the rest the ciphertext.
pub fn decrypt(encrypted_data: &[u8], key: &[u8]) -> (result: Result<Vec<u8>, String>)
    requires
        key@.len() == 32,
        encrypted_data@.len() >= NONCE_SIZE,
    ensures
        match open_message(key@, encrypted_data@) {
            Some(data) => result matches Ok(d) && d@ == data
                && encrypted_data@.len() == data.len() + NONCE_SIZE + TAG_SIZE,
            None => result matches Err(e) && e@ == "Error decrypting data"@,
        },
{
    // Split the nonce and ciphertext
    let (nonce, ciphertext) = encrypted_data.split_at(NONCE_SIZE);
    assert(nonce@ =~= encrypted_data@.take(NONCE_SIZE as int));
    assert(ciphertext@ =~= encrypted_data@.skip(NONCE_SIZE as int));

    match aes256gcm_open(key, nonce, ciphertext) {
        Some(data) => Ok(data),
        None => Err(String::from_str("Error decrypting data")),
    }
}

} // verus!
