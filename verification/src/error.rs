use vstd::prelude::*;

verus! {

/// Every way in which an operation of this crate can fail.
#[derive(Debug, Clone, Copy, PartialEq, Eq, Structural)]
pub enum VaultError {
    /// Key material that is not exactly 32 bytes long.
    InvalidKeyLength,
    /// Text that is not a valid encoding of bytes.
    EncodingError,
    /// A keyfile that holds nothing but whitespace.
    KeyfileEmpty,
    /// A keyfile that could not be read.
    KeyfileUnreadable,
    /// Ciphertext that is too short to hold a nonce.
    TruncatedInput,
    /// Ciphertext whose authentication tag does not verify.
    AuthenticationFailed,
    /// A path at which nothing exists.
    PathNotFound,
    /// A path that is neither a regular file nor a directory.
    UnsupportedPathType,
    /// A directory archive that could not be extracted.
    ExtractionError,
    /// A file that could not be written.
    WriteError,
    /// A failure inside the cipher.
    CryptoError,
}

} // verus!
