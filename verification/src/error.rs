//! The errors of the library.

use crate::text::{append_str, from_chars, to_chars};
use vstd::prelude::*;

verus! {

/// What can go wrong while keys are loaded, values are encrypted or decrypted,
/// and files are read or parsed.
#[derive(Debug)]
pub enum SecretsError {
    /// No identity could be loaded from any source.
    KeyLoadFailed(String),
    /// The identity could not be saved.
    KeySaveFailed(String),
    /// A value could not be encrypted.
    EncryptionFailed(String),
    /// A value could not be decrypted: bad base64, a wrong key, a corrupted
    /// payload, or a plaintext that is not UTF-8.
    DecryptionFailed(String),
    /// A file could not be read.
    EnvFileReadFailed {
        /// The file's path.
        path: String,
        /// Why it could not be read.
        reason: String,
    },
    /// A file could not be parsed.
    EnvFileParseFailed {
        /// The file's path.
        path: String,
        /// The line, the key and why its value could not be taken.
        reason: String,
    },
    /// A variable is not set in the configuration view.
    EnvVarNotFound {
        /// The variable's name.
        key: String,
    },
}

/// A specialized result type.
pub type SecretsResult<T> = Result<T, SecretsError>;

impl SecretsError {
    /// The text that describes this error.
    pub open spec fn text(&self) -> Seq<char> {
        match self {
            SecretsError::KeyLoadFailed(m) => "key load failed: "@ + m@,
            SecretsError::KeySaveFailed(m) => "key save failed: "@ + m@,
            SecretsError::EncryptionFailed(m) => "encryption failed: "@ + m@,
            SecretsError::DecryptionFailed(m) => "decryption failed: "@ + m@,
            SecretsError::EnvFileReadFailed { path, reason } => "env file read failed for "@
                + path@ + ": "@ + reason@,
            SecretsError::EnvFileParseFailed { path, reason } => "env file parse failed for "@
                + path@ + ": "@ + reason@,
            SecretsError::EnvVarNotFound { key } => "env var not found: "@ + key@,
        }
    }

    /// The text that describes this error.
    pub fn to_string(&self) -> (r: String)
        ensures
            r@ == self.text(),
    {
        let mut out: Vec<char> = Vec::new();
        match self {
            SecretsError::KeyLoadFailed(m) => {
                out = to_chars("key load failed: ");
                append_str(&mut out, m.as_str());
            },
            SecretsError::KeySaveFailed(m) => {
                out = to_chars("key save failed: ");
                append_str(&mut out, m.as_str());
            },
            SecretsError::EncryptionFailed(m) => {
                out = to_chars("encryption failed: ");
                append_str(&mut out, m.as_str());
            },
            SecretsError::DecryptionFailed(m) => {
                out = to_chars("decryption failed: ");
                append_str(&mut out, m.as_str());
            },
            SecretsError::EnvFileReadFailed { path, reason } => {
                out = to_chars("env file read failed for ");
                append_str(&mut out, path.as_str());
                append_str(&mut out, ": ");
                append_str(&mut out, reason.as_str());
            },
            SecretsError::EnvFileParseFailed { path, reason } => {
                out = to_chars("env file parse failed for ");
                append_str(&mut out, path.as_str());
                append_str(&mut out, ": ");
                append_str(&mut out, reason.as_str());
            },
            SecretsError::EnvVarNotFound { key } => {
                out = to_chars("env var not found: ");
                append_str(&mut out, key.as_str());
            },
        }
        from_chars(out.as_slice())
    }
}

} // verus!
