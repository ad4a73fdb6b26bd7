//! Keys, their text encodings, and authenticated encryption under a key.

use crate::backend::{
    aes_gcm_open, aes_gcm_opened, aes_gcm_seal, aes_gcm_sealed, base64_url_bytes,
    base64_url_decode, base64_url_encode, base64_url_text, base_x_alphabet, base_x_bytes,
    base64_encodable, base64_standard_text, base_x_decode, base_x_encode, base_x_text,
    random_key_bytes, random_nonce, AES_GCM_MAX_PLAINTEXT, AES_GCM_TAG_LEN,
};
use crate::error::VaultError;
use crate::filepacker::{
    lemma_pack_bytes_len, pack_bytes, pack_view, parsed, EnvironmentPack, PackModel,
};
use crate::text::{chars_of, string_of, trim, trimmed};
use crate::transport::{bytes_view, unwrap, unwrapped, wrap, wrapped};
use std::path::PathBuf;
use vstd::prelude::*;

verus! {

/// The length of a key, in bytes.
pub const KEY_LEN: usize = 32;

/// The length of the nonce that precedes every ciphertext, in bytes.
pub const NONCE_LEN: usize = 12;

/// A symmetric key: exactly 32 bytes.
pub struct Key {
    bytes: [u8; 32],
}

/// Where a loaded key came from. It is told for the record only and
/// changes nothing in what the key does.
#[derive(Eq, PartialEq, Debug, Clone)]
pub enum KeySource {
    /// The key was read from the keyfile at this path.
    File(PathBuf),
    /// The key was handed in as text.
    Env,
}

impl View for Key {
    type V = Seq<u8>;

    closed spec fn view(&self) -> Seq<u8> {
        self.bytes@
    }
}

/// The key material in `r`, or its error.
pub open spec fn key_view(r: Result<Key, VaultError>) -> Result<Seq<u8>, VaultError> {
    match r {
        Ok(key) => Ok(key@),
        Err(e) => Err(e),
    }
}

/// The characters of `s`, where there is a string.
pub open spec fn text_view(s: Option<String>) -> Option<Seq<char>> {
    match s {
        Some(text) => Some(text@),
        None => None,
    }
}

/// The key that `bytes` are: themselves, where they are 32.
pub open spec fn key_of_bytes(bytes: Seq<u8>) -> Result<Seq<u8>, VaultError> {
    if bytes.len() == KEY_LEN {
        Ok(bytes)
    } else {
        Err(VaultError::InvalidKeyLength)
    }
}

/// The key that the URL-safe, unpadded base64 text `text` stands for.
pub open spec fn key_of_base64(text: Seq<char>) -> Result<Seq<u8>, VaultError> {
    match base64_url_bytes(text) {
        Some(bytes) => key_of_bytes(bytes),
        None => Err(VaultError::EncodingError),
    }
}

/// The `i`-th character of the printable alphabet: `A` to `Z`, then `a`
/// to `z`, then `0` to `9`.
pub open spec fn base62_digit(i: int) -> char {
    if i < 26 {
        ((65 + i) as u8) as char
    } else if i < 52 {
        ((71 + i) as u8) as char
    } else {
        ((i - 4) as u8) as char
    }
}

/// The printable alphabet: 62 letters and digits, safe to paste anywhere
/// without quoting.
pub open spec fn base62_alphabet() -> Seq<char> {
    Seq::new(62, |i: int| base62_digit(i))
}

/// The key that the printable text `text` stands for.
pub open spec fn key_of_printable(text: Seq<char>) -> Result<Seq<u8>, VaultError> {
    match base_x_bytes(base62_alphabet(), text) {
        Some(bytes) => key_of_bytes(bytes),
        None => Err(VaultError::EncodingError),
    }
}

/// The key and its source that come of an explicit value and a keyfile.
/// The explicit value wins wherever there is one: the keyfile is then not
/// looked at. `content` is what the keyfile holds, or `None` where it
/// could not be read.
pub open spec fn loaded(key: Option<Seq<char>>, keyfile: PathBuf, content: Option<Seq<char>>)
    -> Result<(Seq<u8>, KeySource), VaultError> {
    match key {
        Some(text) => match key_of_printable(text) {
            Ok(bytes) => Ok((bytes, KeySource::Env)),
            Err(e) => Err(e),
        },
        None => match content {
            None => Err(VaultError::KeyfileUnreadable),
            Some(text) => if trimmed(text).len() == 0 {
                Err(VaultError::KeyfileEmpty)
            } else {
                match key_of_printable(trimmed(text)) {
                    Ok(bytes) => Ok((bytes, KeySource::File(keyfile))),
                    Err(e) => Err(e),
                }
            },
        },
    }
}

/// A nonce followed by what the cipher makes of `plaintext` under it.
pub open spec fn sealed_with(key: Seq<u8>, nonce: Seq<u8>, plaintext: Seq<u8>) -> Seq<u8> {
    nonce + aes_gcm_sealed(key, nonce, plaintext)
}

/// The plaintext that `data` holds under `key`: `data` is split into its
/// 12-byte nonce and the rest, and the rest is opened under that nonce.
pub open spec fn opened(key: Seq<u8>, data: Seq<u8>) -> Result<Seq<u8>, VaultError> {
    if data.len() < NONCE_LEN {
        Err(VaultError::TruncatedInput)
    } else {
        match aes_gcm_opened(key, data.take(NONCE_LEN as int), data.skip(NONCE_LEN as int)) {
            Some(plaintext) => Ok(plaintext),
            None => Err(VaultError::AuthenticationFailed),
        }
    }
}

/// The vault text that holds `pack` under `key` and `nonce`: the pack's
/// binary form, encrypted after the nonce, as wrapped base64.
pub open spec fn vault_text(key: Seq<u8>, nonce: Seq<u8>, pack: PackModel) -> Seq<char> {
    wrapped(base64_standard_text(sealed_with(key, nonce, pack_bytes(pack))))
}

/// The pack that the vault text `text` holds under `key`, or the error
/// of the first step that fails: unwrapping, decrypting, reading.
pub open spec fn vault_pack(key: Seq<u8>, text: Seq<char>) -> Result<PackModel, VaultError> {
    match unwrapped(text) {
        Err(e) => Err(e),
        Ok(data) => match opened(key, data) {
            Err(e) => Err(e),
            Ok(plaintext) => parsed(plaintext),
        },
    }
}

/// The bytes by which a vault's data is longer than the payload of its
/// pack, at most: tag, length, nonce and authentication tag.
pub const VAULT_OVERHEAD: usize = 38;

/// The printable alphabet is one that the codec can use.
pub proof fn lemma_base62_alphabet()
    ensures
        base_x_alphabet(base62_alphabet()),
{
    let a = base62_alphabet();
    assert forall|i: int| 0 <= i < a.len() implies (#[trigger] a[i] as u32) < 128 by {}
    assert forall|i: int, j: int| 0 <= i < j < a.len() implies #[trigger] a[i] != #[trigger] a[j] by {
        assert(a[i] as u32 != a[j] as u32);
    }
}

/// The printable alphabet as a string.
fn base62() -> (alphabet: String)
    ensures
        alphabet@ == base62_alphabet(),
{
    let mut alphabet = String::new();
    let mut i: u8 = 0;
    while i < 62
        invariant
            i <= 62,
            alphabet@ == base62_alphabet().take(i as int),
        decreases 62 - i,
    {
        let c: char = if i < 26 {
            (65 + i) as char
        } else if i < 52 {
            (71 + i) as char
        } else {
            (i - 4) as char
        };
        alphabet.push(c);
        assert(alphabet@ == base62_alphabet().take(i + 1)) by {
            assert(c == base62_digit(i as int));
            assert(base62_alphabet().take(i + 1) == base62_alphabet().take(i as int).push(c));
        }
        i += 1;
    }
    assert(base62_alphabet().take(62) == base62_alphabet());
    alphabet
}

/// The first 12 bytes of `data` as a nonce, and the rest.
pub fn split_nonce(data: &[u8]) -> (r: Result<([u8; 12], &[u8]), VaultError>)
    ensures
        match r {
            Ok((nonce, rest)) => {
                &&& data@.len() >= NONCE_LEN
                &&& nonce@ == data@.take(NONCE_LEN as int)
                &&& rest@ == data@.skip(NONCE_LEN as int)
            },
            Err(e) => e == VaultError::TruncatedInput && data@.len() < NONCE_LEN,
        },
{
    if data.len() < 12 {
        return Err(VaultError::TruncatedInput);
    }
    let mut nonce = [0u8; 12];
    let mut i: usize = 0;
    while i < 12
        invariant
            i <= 12,
            data@.len() >= 12,
            forall|j: int| 0 <= j < i ==> nonce@[j] == data@[j],
        decreases 12 - i,
    {
        nonce[i] = data[i];
        i += 1;
    }
    let rest = vstd::slice::slice_subrange(data, 12, data.len());
    assert(nonce@ == data@.take(12));
    assert(rest@ == data@.skip(12));
    Ok((nonce, rest))
}

/// `nonce` followed by `sealed`.
pub fn join_nonce(nonce: &[u8; 12], sealed: &[u8]) -> (out: Vec<u8>)
    ensures
        out@ == nonce@ + sealed@,
{
    let mut out: Vec<u8> = Vec::new();
    let mut i: usize = 0;
    while i < 12
        invariant
            i <= 12,
            out@ == nonce@.take(i as int),
        decreases 12 - i,
    {
        out.push(nonce[i]);
        assert(nonce@.take(i + 1) == nonce@.take(i as int).push(nonce@[i as int]));
        i += 1;
    }
    assert(nonce@.take(12) == nonce@);
    out.extend_from_slice(sealed);
    out
}

impl Key {
    /// Every key has 32 bytes.
    pub proof fn lemma_len(&self)
        ensures
            self@.len() == KEY_LEN,
    {
    }

    /// A new key from the thread's random generator.
    pub fn generate() -> (key: Key)
        ensures
            key@.len() == KEY_LEN,
    {
        Key { bytes: random_key_bytes() }
    }

    /// The key given as text, or else the key in the keyfile.
    ///
    /// An explicit `key` always wins, so that a pipeline can hand in its
    /// secret without touching the disk; `keyfile_content` is then not
    /// looked at. Otherwise `keyfile_content` is what was read from
    /// `keyfile`, or `None` where reading failed. Whitespace around the
    /// keyfile's text is ignored.
    pub fn load_key(key: &Option<String>, keyfile: PathBuf, keyfile_content: &Option<String>) -> (r:
        Result<(Key, KeySource), VaultError>)
        ensures
            match r {
                Ok((loaded_key, source)) => loaded(
                    text_view(*key),
                    keyfile,
                    text_view(*keyfile_content),
                ) == Ok::<(Seq<u8>, KeySource), VaultError>((loaded_key@, source)),
                Err(e) => loaded(text_view(*key), keyfile, text_view(*keyfile_content)) == Err::<
                    (Seq<u8>, KeySource),
                    VaultError,
                >(e),
            },
    {
        match key {
            Some(text) => {
                match Key::from_printable(text.as_str()) {
                    Ok(loaded_key) => Ok((loaded_key, KeySource::Env)),
                    Err(e) => Err(e),
                }
            },
            None => {
                match keyfile_content {
                    None => Err(VaultError::KeyfileUnreadable),
                    Some(content) => {
                        let chars = chars_of(content.as_str());
                        let kept = trim(chars.as_slice());
                        if kept.len() == 0 {
                            Err(VaultError::KeyfileEmpty)
                        } else {
                            let text = string_of(kept);
                            match Key::from_printable(text.as_str()) {
                                Ok(loaded_key) => Ok((loaded_key, KeySource::File(keyfile))),
                                Err(e) => Err(e),
                            }
                        }
                    },
                }
            },
        }
    }

    /// The key made of `bytes`, which must be exactly 32.
    pub fn from_bytes(bytes: &[u8]) -> (r: Result<Key, VaultError>)
        ensures
            key_view(r) == key_of_bytes(bytes@),
    {
        if bytes.len() != 32 {
            return Err(VaultError::InvalidKeyLength);
        }
        let mut array = [0u8; 32];
        let mut i: usize = 0;
        while i < 32
            invariant
                i <= 32,
                bytes@.len() == 32,
                forall|j: int| 0 <= j < i ==> array@[j] == bytes@[j],
            decreases 32 - i,
        {
            array[i] = bytes[i];
            i += 1;
        }
        assert(array@ == bytes@);
        Ok(Key { bytes: array })
    }

    /// The key that URL-safe, unpadded base64 text stands for.
    pub fn from_base64(encoded: &str) -> (r: Result<Key, VaultError>)
        ensures
            key_view(r) == key_of_base64(encoded@),
    {
        match base64_url_decode(encoded) {
            Ok(bytes) => Key::from_bytes(bytes.as_slice()),
            Err(_) => Err(VaultError::EncodingError),
        }
    }

    /// The key's bytes.
    pub fn as_bytes(&self) -> (bytes: &[u8])
        ensures
            bytes@ == self@,
            bytes@.len() == KEY_LEN,
    {
        self.bytes.as_slice()
    }

    /// The key as URL-safe, unpadded base64 text. `from_base64` reads the
    /// same key from it.
    pub fn to_base64(&self) -> (text: String)
        ensures
            text@ == base64_url_text(self@),
            key_of_base64(text@) == Ok::<Seq<u8>, VaultError>(self@),
    {
        base64_url_encode(self.bytes.as_slice())
    }

    /// The key as printable text over 62 letters and digits.
    /// `from_printable` reads the same key from it.
    pub fn to_printable(&self) -> (text: String)
        ensures
            text@ == base_x_text(base62_alphabet(), self@),
            key_of_printable(text@) == Ok::<Seq<u8>, VaultError>(self@),
    {
        let alphabet = base62();
        proof {
            lemma_base62_alphabet();
        }
        base_x_encode(alphabet.as_str(), self.bytes.as_slice())
    }

    /// The key that printable text stands for. Text with a character
    /// that is no letter or digit is no encoding.
    pub fn from_printable(encoded: &str) -> (r: Result<Key, VaultError>)
        ensures
            key_view(r) == key_of_printable(encoded@),
            (exists|i: int|
                0 <= i < encoded@.len() && !base62_alphabet().contains(#[trigger] encoded@[i]))
                ==> r is Err && r->Err_0 == VaultError::EncodingError,
    {
        let alphabet = base62();
        proof {
            lemma_base62_alphabet();
        }
        match base_x_decode(alphabet.as_str(), encoded) {
            Ok(bytes) => Key::from_bytes(bytes.as_slice()),
            Err(_) => Err(VaultError::EncodingError),
        }
    }

    /// `plaintext` encrypted under this key and `nonce`, after the nonce.
    ///
    /// A nonce must never serve twice under one key: `encrypt` draws a
    /// fresh one for each call and is the function to use.
    pub fn encrypt_with_nonce(&self, nonce: &[u8; 12], plaintext: &[u8]) -> (r: Result<
        Vec<u8>,
        VaultError,
    >)
        ensures
            plaintext@.len() <= AES_GCM_MAX_PLAINTEXT ==> bytes_view(r) == Ok::<
                Seq<u8>,
                VaultError,
            >(sealed_with(self@, nonce@, plaintext@)),
            plaintext@.len() > AES_GCM_MAX_PLAINTEXT ==> bytes_view(r) == Err::<
                Seq<u8>,
                VaultError,
            >(VaultError::CryptoError),
            r matches Ok(out) ==> out@.len() == plaintext@.len() + NONCE_LEN + AES_GCM_TAG_LEN
                && opened(self@, out@) == Ok::<Seq<u8>, VaultError>(plaintext@),
    {
        match aes_gcm_seal(&self.bytes, nonce, plaintext) {
            Ok(sealed) => {
                let out = join_nonce(nonce, sealed.as_slice());
                proof {
                    assert(out@.take(12) == nonce@);
                    assert(out@.skip(12) == sealed@);
                }
                Ok(out)
            },
            Err(_) => Err(VaultError::CryptoError),
        }
    }

    /// `plaintext` encrypted under this key and a fresh random nonce,
    /// after the nonce. `decrypt` recovers the plaintext from the result.
    /// Fails only on a plaintext that is too long for the cipher.
    pub fn encrypt(&self, plaintext: &[u8]) -> (r: Result<Vec<u8>, VaultError>)
        ensures
            match r {
                Ok(out) => {
                    &&& plaintext@.len() <= AES_GCM_MAX_PLAINTEXT
                    &&& out@.len() == plaintext@.len() + NONCE_LEN + AES_GCM_TAG_LEN
                    &&& out@ == sealed_with(self@, out@.take(NONCE_LEN as int), plaintext@)
                    &&& opened(self@, out@) == Ok::<Seq<u8>, VaultError>(plaintext@)
                },
                Err(e) => e == VaultError::CryptoError && plaintext@.len() > AES_GCM_MAX_PLAINTEXT,
            },
    {
        let nonce = random_nonce();
        let r = self.encrypt_with_nonce(&nonce, plaintext);
        proof {
            if r is Ok {
                assert(r->Ok_0@.take(12) == nonce@);
            }
        }
        r
    }

    /// The plaintext of `data`, which is a nonce and what was encrypted
    /// under it. One error stands for a wrong key, changed data and a
    /// changed nonce alike.
    pub fn decrypt(&self, data: &[u8]) -> (r: Result<Vec<u8>, VaultError>)
        ensures
            bytes_view(r) == opened(self@, data@),
            r matches Ok(plaintext) ==> plaintext@.len() + NONCE_LEN + AES_GCM_TAG_LEN
                == data@.len(),
            NONCE_LEN <= data@.len() < NONCE_LEN + AES_GCM_TAG_LEN ==> r is Err && r->Err_0
                == VaultError::AuthenticationFailed,
    {
        match split_nonce(data) {
            Err(e) => Err(e),
            Ok((nonce, rest)) => match aes_gcm_open(&self.bytes, &nonce, rest) {
                Ok(plaintext) => Ok(plaintext),
                Err(_) => Err(VaultError::AuthenticationFailed),
            },
        }
    }

    /// The vault text for `pack`: its binary form, encrypted under this
    /// key and a fresh nonce, as wrapped base64. `decrypt_base64` reads
    /// the same pack from it. Fails only on a pack that is too long for
    /// the cipher.
    pub fn encrypt_base64(&self, pack: &EnvironmentPack) -> (r: Result<String, VaultError>)
        requires
            base64_encodable((pack@.payload().len() + VAULT_OVERHEAD) as nat),
        ensures
            match r {
                Ok(text) => {
                    &&& pack_bytes(pack@).len() <= AES_GCM_MAX_PLAINTEXT
                    &&& exists|nonce: Seq<u8>|
                        nonce.len() == NONCE_LEN && text@ == #[trigger] vault_text(
                            self@,
                            nonce,
                            pack@,
                        )
                    &&& vault_pack(self@, text@) == Ok::<PackModel, VaultError>(pack@)
                },
                Err(e) => e == VaultError::CryptoError && pack_bytes(pack@).len()
                    > AES_GCM_MAX_PLAINTEXT,
            },
            pack@.payload().len() + 10 <= AES_GCM_MAX_PLAINTEXT ==> r is Ok,
    {
        let plaintext = pack.to_bytes();
        proof {
            lemma_pack_bytes_len(pack@);
        }
        match self.encrypt(plaintext.as_slice()) {
            Err(e) => Err(e),
            Ok(data) => {
                let text = wrap(data.as_slice());
                proof {
                    let nonce = data@.take(NONCE_LEN as int);
                    assert(text@ == vault_text(self@, nonce, pack@));
                }
                Ok(text)
            },
        }
    }

    /// The pack that vault text holds under this key.
    pub fn decrypt_base64(&self, text: &str) -> (r: Result<EnvironmentPack, VaultError>)
        ensures
            pack_view(r) == vault_pack(self@, text@),
    {
        match unwrap(text) {
            Err(e) => Err(e),
            Ok(data) => match self.decrypt(data.as_slice()) {
                Err(e) => Err(e),
                Ok(plaintext) => EnvironmentPack::from_bytes(plaintext.as_slice()),
            },
        }
    }
}

} // verus!
