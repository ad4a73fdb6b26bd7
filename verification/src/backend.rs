//! The calls into the cipher, the text codecs and the random sources, and
//! what is taken on trust of the standard library.
//!
//! Nothing in this file is proved. Each item states what the code it
//! names does, and the rest of the library is verified against these
//! statements.

use base64::Engine;
use std::path::PathBuf;
use vstd::prelude::*;

verus! {

/// `PathBuf` of the standard library, carried through unread.
#[verifier::external_type_specification]
#[verifier::external_body]
pub struct ExPathBuf(PathBuf);

/// `Clone::clone` of `PathBuf` in the standard library: the copy equals
/// the path it was made of.
pub assume_specification[ <PathBuf as Clone>::clone ](path: &PathBuf) -> (copy: PathBuf)
    ensures
        copy == *path,
;

/// `String::push` of the standard library: the character is appended.
pub assume_specification[ String::push ](s: &mut String, ch: char)
    ensures
        final(s)@ == old(s)@.push(ch),
;

/// The error of `base64`'s decoders, carried through unread.
#[verifier::external_type_specification]
#[verifier::external_body]
pub struct ExBase64DecodeError(base64::DecodeError);

/// The error of `base_x::decode`, carried through unread.
#[verifier::external_type_specification]
#[verifier::external_body]
pub struct ExBaseXDecodeError(base_x::DecodeError);

/// The error of the `aes_gcm` cipher, which deliberately says nothing.
#[verifier::external_type_specification]
#[verifier::external_body]
pub struct ExAeadError(aes_gcm::Error);

/// The text that `base64`'s `STANDARD` engine makes of `bytes`.
pub uninterp spec fn base64_standard_text(bytes: Seq<u8>) -> Seq<char>;

/// The bytes that `base64`'s `STANDARD` engine reads from `text`, if it
/// accepts it.
pub uninterp spec fn base64_standard_bytes(text: Seq<char>) -> Option<Seq<u8>>;

/// The text that `base64`'s `URL_SAFE_NO_PAD` engine makes of `bytes`.
pub uninterp spec fn base64_url_text(bytes: Seq<u8>) -> Seq<char>;

/// The bytes that `base64`'s `URL_SAFE_NO_PAD` engine reads from `text`, if
/// it accepts it.
pub uninterp spec fn base64_url_bytes(text: Seq<char>) -> Option<Seq<u8>>;

/// The text that `base_x::encode` makes of `bytes` over `alphabet`.
pub uninterp spec fn base_x_text(alphabet: Seq<char>, bytes: Seq<u8>) -> Seq<char>;

/// The bytes that `base_x::decode` reads from `text` over `alphabet`, if it
/// accepts it.
pub uninterp spec fn base_x_bytes(alphabet: Seq<char>, text: Seq<char>) -> Option<Seq<u8>>;

/// What AES-256-GCM makes of `plaintext` under `key` and `nonce`, with no
/// associated data: the ciphertext followed by its tag.
pub uninterp spec fn aes_gcm_sealed(key: Seq<u8>, nonce: Seq<u8>, plaintext: Seq<u8>) -> Seq<u8>;

/// The plaintext that AES-256-GCM recovers from `sealed` under `key` and
/// `nonce`, if the tag verifies.
pub uninterp spec fn aes_gcm_opened(key: Seq<u8>, nonce: Seq<u8>, sealed: Seq<u8>) -> Option<
    Seq<u8>,
>;

/// The longest plaintext that the cipher accepts, in bytes.
pub const AES_GCM_MAX_PLAINTEXT: u64 = 0x10_0000_0000;

/// The length of the tag that the cipher appends.
pub const AES_GCM_TAG_LEN: usize = 16;

/// The longest input for which the length of the base64 text still fits
/// in a `usize`.
pub open spec fn base64_encodable(len: nat) -> bool {
    len / 3 * 4 + 4 <= usize::MAX
}

/// Whether `c` is a letter, a digit, `+`, `/` or `=`.
pub open spec fn is_base64_standard_char(c: char) -> bool {
    let n = c as u32;
    (0x41 <= n <= 0x5A) || (0x61 <= n <= 0x7A) || (0x30 <= n <= 0x39) || n == 0x2B || n == 0x2F
        || n == 0x3D
}

/// What `base_x` needs of an alphabet: between 2 and 255 ASCII characters,
/// no two of them the same.
pub open spec fn base_x_alphabet(alphabet: Seq<char>) -> bool {
    &&& 2 <= alphabet.len() <= 255
    &&& forall|i: int| 0 <= i < alphabet.len() ==> (#[trigger] alphabet[i] as u32) < 128
    &&& forall|i: int, j: int|
        0 <= i < j < alphabet.len() ==> #[trigger] alphabet[i] != #[trigger] alphabet[j]
}

/// `Engine::encode` of `base64`, on the engine `STANDARD`.
///
/// Claims that the call returns the text named `base64_standard_text`, that
/// the same engine decodes this text to `bytes` again, and that the text
/// holds only characters of the standard alphabet and the padding sign.
/// The call panics where the text's length overflows, which the
/// precondition leaves out.
#[verifier::external_body]
pub(crate) fn base64_standard_encode(bytes: &[u8]) -> (text: String)
    requires
        base64_encodable(bytes@.len()),
    ensures
        text@ == base64_standard_text(bytes@),
        base64_standard_bytes(text@) == Some(bytes@),
        forall|i: int| 0 <= i < text@.len() ==> is_base64_standard_char(#[trigger] text@[i]),
{
    base64::engine::general_purpose::STANDARD.encode(bytes)
}

/// `Engine::decode` of `base64`, on the engine `STANDARD`.
///
/// Claims that the call succeeds exactly on the texts for which
/// `base64_standard_bytes` is defined, and returns those bytes.
#[verifier::external_body]
pub(crate) fn base64_standard_decode(text: &str) -> (r: Result<Vec<u8>, base64::DecodeError>)
    ensures
        match r {
            Ok(bytes) => base64_standard_bytes(text@) == Some(bytes@),
            Err(_) => base64_standard_bytes(text@) is None,
        },
{
    base64::engine::general_purpose::STANDARD.decode(text)
}

/// `Engine::encode` of `base64`, on the engine `URL_SAFE_NO_PAD`.
///
/// Claims that the call returns the text named `base64_url_text`, and that
/// the same engine decodes this text to `bytes` again. The call panics
/// where the text's length overflows, which the precondition leaves out.
#[verifier::external_body]
pub(crate) fn base64_url_encode(bytes: &[u8]) -> (text: String)
    requires
        base64_encodable(bytes@.len()),
    ensures
        text@ == base64_url_text(bytes@),
        base64_url_bytes(text@) == Some(bytes@),
{
    base64::engine::general_purpose::URL_SAFE_NO_PAD.encode(bytes)
}

/// `Engine::decode` of `base64`, on the engine `URL_SAFE_NO_PAD`.
///
/// Claims that the call succeeds exactly on the texts for which
/// `base64_url_bytes` is defined, and returns those bytes.
#[verifier::external_body]
pub(crate) fn base64_url_decode(text: &str) -> (r: Result<Vec<u8>, base64::DecodeError>)
    ensures
        match r {
            Ok(bytes) => base64_url_bytes(text@) == Some(bytes@),
            Err(_) => base64_url_bytes(text@) is None,
        },
{
    base64::engine::general_purpose::URL_SAFE_NO_PAD.decode(text)
}

/// `base_x::encode`.
///
/// Claims that the call returns the text named `base_x_text`, and that
/// `base_x::decode` reads `bytes` from it again: leading zero bytes become
/// leading first characters of the alphabet, one for one. The call divides
/// by the alphabet's length and indexes the alphabet by remainders, so the
/// precondition asks for an alphabet that `base_x` can use.
#[verifier::external_body]
pub(crate) fn base_x_encode(alphabet: &str, bytes: &[u8]) -> (text: String)
    requires
        base_x_alphabet(alphabet@),
    ensures
        text@ == base_x_text(alphabet@, bytes@),
        base_x_bytes(alphabet@, text@) == Some(bytes@),
{
    base_x::encode(alphabet, bytes)
}

/// `base_x::decode`.
///
/// Claims that the call succeeds exactly where every character of `text`
/// is one of `alphabet`, and that it then returns the bytes named
/// `base_x_bytes`.
#[verifier::external_body]
pub(crate) fn base_x_decode(alphabet: &str, text: &str) -> (r: Result<
    Vec<u8>,
    base_x::DecodeError,
>)
    requires
        base_x_alphabet(alphabet@),
    ensures
        r is Ok <==> forall|i: int| 0 <= i < text@.len() ==> alphabet@.contains(#[trigger] text@[i]),
        match r {
            Ok(bytes) => base_x_bytes(alphabet@, text@) == Some(bytes@),
            Err(_) => base_x_bytes(alphabet@, text@) is None,
        },
{
    base_x::decode(alphabet, text)
}

/// `Aead::encrypt` of `aes_gcm`, on `Aes256Gcm` with no associated data.
///
/// Claims that the call fails exactly on a plaintext longer than the
/// cipher's limit, that it otherwise returns the bytes named
/// `aes_gcm_sealed`, which are 16 bytes longer than the plaintext, and
/// that `Aead::decrypt` recovers the plaintext from them under the same
/// key and nonce.
#[verifier::external_body]
pub(crate) fn aes_gcm_seal(key: &[u8; 32], nonce: &[u8; 12], plaintext: &[u8]) -> (r: Result<
    Vec<u8>,
    aes_gcm::Error,
>)
    ensures
        r is Ok <==> plaintext@.len() <= AES_GCM_MAX_PLAINTEXT,
        r matches Ok(sealed) ==> {
            &&& sealed@ == aes_gcm_sealed(key@, nonce@, plaintext@)
            &&& sealed@.len() == plaintext@.len() + AES_GCM_TAG_LEN
            &&& aes_gcm_opened(key@, nonce@, sealed@) == Some(plaintext@)
        },
{
    let cipher = <aes_gcm::Aes256Gcm as aes_gcm::KeyInit>::new(
        aes_gcm::Key::<aes_gcm::Aes256Gcm>::from_slice(key),
    );
    aes_gcm::aead::Aead::encrypt(&cipher, aes_gcm::Nonce::from_slice(nonce), plaintext)
}

/// `Aead::decrypt` of `aes_gcm`, on `Aes256Gcm` with no associated data.
///
/// Claims that the call succeeds exactly on the inputs for which
/// `aes_gcm_opened` is defined, and returns that plaintext; that it
/// fails on an input too short to hold a tag; and that the plaintext is
/// the input without the 16 bytes of its tag.
#[verifier::external_body]
pub(crate) fn aes_gcm_open(key: &[u8; 32], nonce: &[u8; 12], sealed: &[u8]) -> (r: Result<
    Vec<u8>,
    aes_gcm::Error,
>)
    ensures
        match r {
            Ok(plaintext) => aes_gcm_opened(key@, nonce@, sealed@) == Some(plaintext@),
            Err(_) => aes_gcm_opened(key@, nonce@, sealed@) is None,
        },
        sealed@.len() < AES_GCM_TAG_LEN ==> r is Err,
        r matches Ok(plaintext) ==> plaintext@.len() + AES_GCM_TAG_LEN == sealed@.len(),
{
    let cipher = <aes_gcm::Aes256Gcm as aes_gcm::KeyInit>::new(
        aes_gcm::Key::<aes_gcm::Aes256Gcm>::from_slice(key),
    );
    aes_gcm::aead::Aead::decrypt(&cipher, aes_gcm::Nonce::from_slice(nonce), sealed)
}

/// `RngCore::fill_bytes` of `rand`, on the generator that `rand::rng`
/// hands out.
///
/// Claims nothing of the 32 bytes: each call may return others. The call
/// does not return if the generator cannot be seeded.
#[verifier::external_body]
pub(crate) fn random_key_bytes() -> [u8; 32] {
    let mut bytes = [0u8; 32];
    rand::RngCore::fill_bytes(&mut rand::rng(), &mut bytes);
    bytes
}

/// `RngCore::fill_bytes` on `OsRng`, as `aes_gcm` re-exports them.
///
/// Claims nothing of the 12 bytes: each call may return others. The call
/// does not return if the operating system's generator fails.
#[verifier::external_body]
pub(crate) fn random_nonce() -> [u8; 12] {
    let mut nonce = [0u8; 12];
    aes_gcm::aead::rand_core::RngCore::fill_bytes(&mut aes_gcm::aead::OsRng, &mut nonce);
    nonce
}

} // verus!
