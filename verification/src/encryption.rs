//! Authenticated encryption of one message under a key derived from the
//! operator's secret.
//!
//! The key is the hexadecimal MD5 digest of the secret, the cipher is
//! AES-256-GCM-SIV, and every message gets a nonce of its own, which is kept
//! beside the ciphertext.

use crate::config::Config;
use aes_gcm::aead::generic_array::GenericArray;
use aes_gcm_siv::aead::{Aead, KeyInit};
use aes_gcm_siv::{Aes256GcmSiv, Nonce};
use rand::distributions::Alphanumeric;
use rand::Rng;
use vstd::prelude::*;
use vstd::string::*;
use vstd::utf8::*;

verus! {

/// The longest plaintext, in bytes, that the cipher accepts.
pub const MAX_PLAINTEXT_BYTES: u64 = 0x10_0000_0000;

/// The number of characters, and of bytes, of a nonce.
pub const NONCE_LEN: usize = 12;

/// The number of bytes of the tag that ends a ciphertext.
pub const TAG_LEN: usize = 16;

/// The error that the cipher reports; it carries no detail.
#[verifier::external_type_specification]
#[verifier::external_body]
pub struct ExAeadError(aes_gcm_siv::aead::Error);

/// The 32 bytes of the hexadecimal MD5 digest of `secret`, as `md5::compute`
/// and the digest's lower-case hexadecimal formatting give them.
pub uninterp spec fn md5_hex(secret: Seq<char>) -> Seq<u8>;

/// The ciphertext, tag included, that AES-256-GCM-SIV gives for `plaintext`
/// under `key` and `nonce`, with no associated data.
pub uninterp spec fn sealed(key: Seq<u8>, nonce: Seq<u8>, plaintext: Seq<u8>) -> Seq<u8>;

/// The plaintext that AES-256-GCM-SIV recovers from `ciphertext` under `key`
/// and `nonce`, or `None` where it rejects the ciphertext.
pub uninterp spec fn opened(key: Seq<u8>, nonce: Seq<u8>, ciphertext: Seq<u8>) -> Option<
    Seq<u8>,
>;

/// The text that `String::from_utf8_lossy` makes of bytes that are not
/// valid UTF-8.
pub uninterp spec fn utf8_lossy(bytes: Seq<u8>) -> Seq<char>;

/// The text that decrypted bytes stand for: their decoding where they are
/// valid UTF-8, and a repaired text otherwise.
pub open spec fn text_of(bytes: Seq<u8>) -> Seq<char> {
    if valid_utf8(bytes) {
        decode_utf8(bytes)
    } else {
        utf8_lossy(bytes)
    }
}

/// An ASCII letter or digit.
pub open spec fn is_alphanumeric(c: char) -> bool {
    ||| '0' <= c <= '9'
    ||| 'a' <= c <= 'z'
    ||| 'A' <= c <= 'Z'
}

/// A nonce as this module generates it: twelve ASCII letters and digits.
pub open spec fn is_nonce(nonce: Seq<char>) -> bool {
    &&& nonce.len() == NONCE_LEN
    &&& forall|i: int| 0 <= i < nonce.len() ==> is_alphanumeric(#[trigger] nonce[i])
}

/// The ciphertext of `text` under the key of `secret` and `nonce`.
pub open spec fn encrypted(text: Seq<char>, nonce: Seq<char>, secret: Seq<char>) -> Seq<u8> {
    sealed(md5_hex(secret), encode_utf8(nonce), encode_utf8(text))
}

/// The text that `data` decrypts to under the key of `secret` and `nonce`,
/// or `None` where the nonce does not hold twelve bytes or the cipher
/// rejects the data.
pub open spec fn decrypted(data: Seq<u8>, nonce: Seq<char>, secret: Seq<char>) -> Option<
    Seq<char>,
> {
    if encode_utf8(nonce).len() != NONCE_LEN {
        None
    } else {
        match opened(md5_hex(secret), encode_utf8(nonce), data) {
            Some(plaintext) => Some(text_of(plaintext)),
            None => None,
        }
    }
}

/// Errors of encryption and decryption.
#[derive(Debug)]
pub enum CryptionError {
    /// The cipher refused the plaintext.
    EncryptFailed(String),
    /// The nonce is malformed, or the cipher rejected the ciphertext.
    DecryptFailed(String),
    /// No nonce was given.
    MissingNonce,
    /// No ciphertext was given.
    MissingCipher,
}

impl CryptionError {
    /// The message shown to the operator.
    pub fn to_string(&self) -> (text: String)
        ensures
            text@ == match *self {
                CryptionError::EncryptFailed(detail) => "Failed to encrypt string: "@ + detail@,
                CryptionError::DecryptFailed(detail) => "Failed to decrypt string: "@ + detail@,
                CryptionError::MissingNonce => "Could not find nonce"@,
                CryptionError::MissingCipher => "Missing ciphered text (this shouldn't appear!)"@,
            },
    {
        match self {
            CryptionError::EncryptFailed(detail) => {
                "Failed to encrypt string: ".to_owned().concat(detail.as_str())
            },
            CryptionError::DecryptFailed(detail) => {
                "Failed to decrypt string: ".to_owned().concat(detail.as_str())
            },
            CryptionError::MissingNonce => "Could not find nonce".to_owned(),
            CryptionError::MissingCipher => {
                "Missing ciphered text (this shouldn't appear!)".to_owned()
            },
        }
    }
}

/// Calls `md5::compute` on the secret and formats the digest in lower-case
/// hexadecimal. The digest has 16 bytes and each is written as two digits,
/// so the key has 32 bytes.
#[verifier::external_body]
fn get_key(secret: &str) -> (key: Vec<u8>)
    ensures
        key@ == md5_hex(secret@),
        key@.len() == 32,
{
    format!("{:x}", md5::compute(secret)).into_bytes()
}

/// Samples `len` characters from rand's `Alphanumeric` distribution, whose
/// outcomes are the ASCII letters and digits. Nothing is promised about
/// which characters.
#[verifier::external_body]
fn sample_alphanumeric(len: usize) -> (text: String)
    ensures
        text@.len() == len,
        forall|i: int| 0 <= i < text@.len() ==> is_alphanumeric(#[trigger] text@[i]),
{
    rand::thread_rng().sample_iter(&Alphanumeric).take(len).map(char::from).collect::<String>()
}

/// Makes a fresh nonce.
fn gen_nonce() -> (nonce: String)
    ensures
        is_nonce(nonce@),
{
    sample_alphanumeric(NONCE_LEN)
}

/// Calls `Aes256GcmSiv::encrypt` with a cipher made from `key`. The cipher
/// fails exactly on a plaintext above its length limit; what it returns
/// otherwise is the named ciphertext, which is as long as the plaintext and
/// the tag, and which the same key and nonce open to the plaintext again.
#[verifier::external_body]
fn seal(key: &Vec<u8>, nonce: &[u8], plaintext: &[u8]) -> (result: Result<
    Vec<u8>,
    aes_gcm_siv::aead::Error,
>)
    requires
        key@.len() == 32,
        nonce@.len() == NONCE_LEN,
    ensures
        result is Ok <==> plaintext@.len() <= MAX_PLAINTEXT_BYTES,
        result matches Ok(ciphertext) ==> ciphertext@ == sealed(key@, nonce@, plaintext@)
            && ciphertext@.len() == plaintext@.len() + TAG_LEN && opened(
            key@,
            nonce@,
            ciphertext@,
        ) == Some(plaintext@),
{
    Aes256GcmSiv::new(GenericArray::from_slice(key)).encrypt(Nonce::from_slice(nonce), plaintext)
}

/// Calls `Aes256GcmSiv::decrypt` with a cipher made from `key`: the named
/// plaintext, or the cipher's error where it rejects the ciphertext.
#[verifier::external_body]
fn open(key: &Vec<u8>, nonce: &[u8], ciphertext: &[u8]) -> (result: Result<
    Vec<u8>,
    aes_gcm_siv::aead::Error,
>)
    requires
        key@.len() == 32,
        nonce@.len() == NONCE_LEN,
    ensures
        match result {
            Ok(plaintext) => opened(key@, nonce@, ciphertext@) == Some(plaintext@),
            Err(_) => opened(key@, nonce@, ciphertext@) is None,
        },
{
    Aes256GcmSiv::new(GenericArray::from_slice(key)).decrypt(Nonce::from_slice(nonce), ciphertext)
}

/// Formats the cipher's error with its `Display`.
#[verifier::external_body]
fn describe(error: &aes_gcm_siv::aead::Error) -> String {
    format!("{}", error)
}

/// Calls `String::from_utf8_lossy`, which decodes valid UTF-8 as it is and
/// puts a replacement character for each invalid sequence.
#[verifier::external_body]
fn lossy_text(bytes: &Vec<u8>) -> (text: String)
    ensures
        valid_utf8(bytes@) ==> text@ == decode_utf8(bytes@),
        !valid_utf8(bytes@) ==> text@ == utf8_lossy(bytes@),
{
    String::from_utf8_lossy(bytes).into_owned()
}

/// A nonce holds twelve bytes.
pub proof fn lemma_nonce_bytes(nonce: Seq<char>)
    requires
        is_nonce(nonce),
    ensures
        encode_utf8(nonce).len() == NONCE_LEN,
{
    assert(is_ascii_chars(nonce)) by {
        assert forall|i: int| 0 <= i < nonce.len() implies '\0' <= #[trigger] nonce[i]
            <= '\u{7f}' by {
            assert(is_alphanumeric(nonce[i]));
        }
    }
    is_ascii_chars_encode_utf8(nonce);
}

/// Nothing can be decrypted under a nonce that does not hold twelve bytes.
pub proof fn lemma_malformed_nonce(data: Seq<u8>, nonce: Seq<char>, secret: Seq<char>)
    requires
        encode_utf8(nonce).len() != NONCE_LEN,
    ensures
        decrypted(data, nonce, secret) is None,
{
}

/// Encrypts `text` under the key of the configured secret and a fresh nonce.
///
/// Returns the ciphertext and the nonce. The ciphertext is as long as the
/// text and the tag. Decrypting the two under the same secret gives `text`
/// again. Fails only on a text above the cipher's length limit.
pub fn encrypt(text: &str, config: &Config) -> (result: Result<(Vec<u8>, String), CryptionError>)
    ensures
        match result {
            Ok((data, nonce)) => {
                &&& encode_utf8(text@).len() <= MAX_PLAINTEXT_BYTES
                &&& is_nonce(nonce@)
                &&& data@ == encrypted(text@, nonce@, config.secret_key())
                &&& data@.len() == encode_utf8(text@).len() + TAG_LEN
                &&& decrypted(data@, nonce@, config.secret_key()) == Some(text@)
            },
            Err(error) => {
                &&& encode_utf8(text@).len() > MAX_PLAINTEXT_BYTES
                &&& error is EncryptFailed
            },
        },
{
    let nonce = gen_nonce();
    let key = get_key(config.get_secret_key().as_str());
    proof {
        lemma_nonce_bytes(nonce@);
        encode_utf8_valid_utf8(text@);
        encode_utf8_decode_utf8(text@);
    }
    match seal(&key, nonce.as_str().as_bytes(), text.as_bytes()) {
        Ok(data) => Ok((data, nonce)),
        Err(error) => Err(CryptionError::EncryptFailed(describe(&error))),
    }
}

/// Decrypts the ciphertext `input.0` under the key of the configured secret
/// and the nonce `input.1`.
///
/// Fails where the nonce does not hold twelve bytes and where the cipher
/// rejects the ciphertext, as it does for data that was encrypted under
/// another key or nonce or was changed since.
pub fn decrypt(input: (&Vec<u8>, &String), config: &Config) -> (result: Result<
    String,
    CryptionError,
>)
    ensures
        match result {
            Ok(text) => decrypted(input.0@, input.1@, config.secret_key()) == Some(text@),
            Err(error) => {
                &&& decrypted(input.0@, input.1@, config.secret_key()) is None
                &&& error is DecryptFailed
            },
        },
{
    let nonce = input.1.as_str().as_bytes();
    if nonce.len() != NONCE_LEN {
        return Err(CryptionError::DecryptFailed("the nonce does not hold 12 bytes".to_owned()));
    }
    let key = get_key(config.get_secret_key().as_str());
    match open(&key, nonce, input.0.as_slice()) {
        Ok(plaintext) => Ok(lossy_text(&plaintext)),
        Err(error) => Err(CryptionError::DecryptFailed(describe(&error))),
    }
}

} // verus!
