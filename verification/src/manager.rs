//! The secret cipher: values encrypted to the identity's own public key and
//! stored in a compact, self-describing text form.
//!
//! A value is encrypted where, once trimmed, it begins with the compact tag
//! `ENC[AGE:b64:` or with the header of the legacy armored form. A compact
//! envelope also ends with `]`; between tag and bracket stands the standard
//! base64 of the envelope bytes. Anything else is plaintext, and decryption
//! hands it back unchanged.

use crate::error::SecretsError;
use crate::text::{
    append_str, chars_end_with, chars_start_with, copy_range, ends_with, from_chars,
    lemma_trim_fixed, starts_with, to_chars, trim, trim_chars,
};
use age::secrecy::ExposeSecret;
use age::x25519::Identity;
use base64::Engine;
use std::io::{Read, Write};
use std::iter::once;
use vstd::prelude::*;
use vstd::utf8::{decode_utf8, encode_utf8, valid_utf8};

verus! {

/// Whether a text is the serialized form of an X25519 identity, as
/// `age::x25519::Identity::from_str` decides it.
pub uninterp spec fn identity_valid(text: Seq<char>) -> bool;

/// The public recipient of an identity, in its text form: what
/// `Identity::to_public` gives for the identity that `identity` spells,
/// formatted with `Display`.
pub uninterp spec fn recipient_of(identity: Seq<char>) -> Seq<char>;

/// The plaintext bytes that an age envelope decrypts to under the identity
/// that `identity` spells; none where it spells no identity or age refuses
/// the envelope.
pub uninterp spec fn opened(identity: Seq<char>, envelope: Seq<u8>) -> Option<Seq<u8>>;

/// The plaintext bytes that an armored age file decrypts to under the
/// identity that `identity` spells; none where it spells no identity or age
/// refuses the file.
pub uninterp spec fn opened_armor(identity: Seq<char>, armored: Seq<char>) -> Option<Seq<u8>>;

/// The standard base64 text of a byte sequence.
pub uninterp spec fn base64_text(bytes: Seq<u8>) -> Seq<char>;

/// The bytes that a standard base64 text decodes to; none where it is not
/// valid base64.
pub uninterp spec fn base64_bytes(text: Seq<char>) -> Option<Seq<u8>>;

/// Trusted: calls `age::x25519::Identity::generate` and serializes the new
/// identity with `Identity::to_string`. The identity is random; the contract
/// claims only that its text parses back as an identity.
#[verifier::external_body]
fn age_generate() -> (r: String)
    ensures
        identity_valid(r@),
{
    Identity::generate().to_string().expose_secret().to_string()
}

/// Trusted: calls `age::x25519::Identity::from_str`. The contract names the
/// outcome: `Ok` exactly where the text parses. The error holds age's
/// message.
#[verifier::external_body]
fn age_check_identity(text: &str) -> (r: Result<(), String>)
    ensures
        r is Ok <==> identity_valid(text@),
{
    match text.parse::<Identity>() {
        Ok(_) => Ok(()),
        Err(e) => Err(e.to_string()),
    }
}

/// Trusted: parses the identity with `Identity::from_str`, derives its
/// recipient with `Identity::to_public` and formats it. The contract names
/// the result; there is none exactly where the identity does not parse.
#[verifier::external_body]
fn age_recipient(identity: &str) -> (r: Option<String>)
    ensures
        r is Some <==> identity_valid(identity@),
        r matches Some(t) ==> t@ == recipient_of(identity@),
{
    identity.parse::<Identity>().ok().map(|k| k.to_public().to_string())
}

/// Trusted: encrypts `plaintext` to the identity's own recipient with
/// `age::Encryptor::with_recipients`, `Encryptor::wrap_output`,
/// `Write::write_all` and `StreamWriter::finish`. The envelope is random
/// (age draws a file key and a nonce from the operating system); the
/// contract claims what age documents of every envelope it writes: the
/// identity decrypts it to the plaintext. The error holds age's message.
#[verifier::external_body]
fn age_seal(identity: &str, plaintext: &[u8]) -> (r: Result<Vec<u8>, String>)
    ensures
        r matches Ok(sealed) ==> opened(identity@, sealed@) == Some(plaintext@),
{
    let key = identity.parse::<Identity>().map_err(|e| e.to_string())?;
    let to = key.to_public();
    let encryptor = age::Encryptor::with_recipients(once(&to as &dyn age::Recipient)).map_err(|e| e.to_string())?;
    let mut sealed = Vec::new();
    let mut writer = encryptor.wrap_output(&mut sealed).map_err(|e| e.to_string())?;
    writer.write_all(plaintext).map_err(|e| e.to_string())?;
    writer.finish().map_err(|e| e.to_string())?;
    Ok(sealed)
}

/// Trusted: decrypts an envelope with `age::Decryptor::new`,
/// `Decryptor::decrypt` and `Read::read_to_end`, under the identity that
/// `Identity::from_str` parses. The contract names the outcome. The error
/// holds age's message.
#[verifier::external_body]
fn age_open(identity: &str, envelope: &[u8]) -> (r: Result<Vec<u8>, String>)
    ensures
        r matches Ok(plain) ==> opened(identity@, envelope@) == Some(plain@),
        r is Err ==> opened(identity@, envelope@) is None,
{
    let key = identity.parse::<Identity>().map_err(|e| e.to_string())?;
    let decryptor = age::Decryptor::new(envelope).map_err(|e| e.to_string())?;
    let mut reader = decryptor.decrypt(once(&key as &dyn age::Identity)).map_err(|e| e.to_string())?;
    let mut plain = Vec::new();
    reader.read_to_end(&mut plain).map_err(|e| e.to_string())?;
    Ok(plain)
}

/// Trusted: decrypts an armored age file with `age::armor::ArmoredReader::new`,
/// `age::Decryptor::new`, `Decryptor::decrypt` and `Read::read_to_end`, under
/// the identity that `Identity::from_str` parses. The contract names the
/// outcome. The error holds age's message.
#[verifier::external_body]
fn age_open_armor(identity: &str, armored: &str) -> (r: Result<Vec<u8>, String>)
    ensures
        r matches Ok(plain) ==> opened_armor(identity@, armored@) == Some(plain@),
        r is Err ==> opened_armor(identity@, armored@) is None,
{
    let key = identity.parse::<Identity>().map_err(|e| e.to_string())?;
    let input = age::armor::ArmoredReader::new(armored.as_bytes());
    let decryptor = age::Decryptor::new(input).map_err(|e| e.to_string())?;
    let mut reader = decryptor.decrypt(once(&key as &dyn age::Identity)).map_err(|e| e.to_string())?;
    let mut plain = Vec::new();
    reader.read_to_end(&mut plain).map_err(|e| e.to_string())?;
    Ok(plain)
}

/// Whether base64 can encode `n` bytes: the length of the text fits in
/// `usize`.
pub open spec fn base64_fits(n: nat) -> bool {
    (n / 3) * 4 + 4 <= usize::MAX
}

/// Trusted: calls `Engine::encode` of `base64::engine::general_purpose::STANDARD`,
/// which panics where the length of the text overflows `usize`. The contract
/// names the text and claims that it decodes back to the bytes.
#[verifier::external_body]
fn base64_encode(bytes: &[u8]) -> (r: String)
    requires
        base64_fits(bytes@.len()),
    ensures
        r@ == base64_text(bytes@),
        base64_bytes(r@) == Some(bytes@),
{
    base64::engine::general_purpose::STANDARD.encode(bytes)
}

/// Trusted: calls `Engine::decode` of `base64::engine::general_purpose::STANDARD`.
/// The contract names the outcome. The error holds the crate's message.
#[verifier::external_body]
fn base64_decode(text: &str) -> (r: Result<Vec<u8>, String>)
    ensures
        r matches Ok(bytes) ==> base64_bytes(text@) == Some(bytes@),
        r is Err ==> base64_bytes(text@) is None,
{
    base64::engine::general_purpose::STANDARD.decode(text).map_err(|e| e.to_string())
}

/// Trusted: calls `String::from_utf8`, which std documents as giving the
/// string with exactly these bytes where they are valid UTF-8, and an error
/// otherwise. The error holds std's message.
#[verifier::external_body]
fn utf8_text(bytes: Vec<u8>) -> (r: Result<String, String>)
    ensures
        r is Ok <==> valid_utf8(bytes@),
        r matches Ok(s) ==> encode_utf8(s@) == bytes@,
{
    String::from_utf8(bytes).map_err(|e| e.to_string())
}

/// The tag that a compact envelope begins with.
pub open spec fn envelope_tag() -> Seq<char> {
    "ENC[AGE:b64:"@
}

/// The header that the legacy armored form begins with.
pub open spec fn armor_header() -> Seq<char> {
    "-----BEGIN AGE ENCRYPTED FILE-----"@
}

/// What kind of value a text is.
#[derive(Debug, Clone, Copy, PartialEq, Eq, Structural)]
pub enum ValueKind {
    /// Plaintext.
    Plain,
    /// A compact envelope: the tag, base64, a closing bracket.
    Envelope,
    /// The legacy armored form.
    LegacyArmor,
}

/// The kind of `value`, decided on its trimmed form.
pub open spec fn kind_of(value: Seq<char>) -> ValueKind {
    let t = trim(value);
    if starts_with(t, envelope_tag()) && ends_with(t.skip(envelope_tag().len() as int), "]"@) {
        ValueKind::Envelope
    } else if starts_with(t, armor_header()) {
        ValueKind::LegacyArmor
    } else {
        ValueKind::Plain
    }
}

/// The base64 payload of a compact envelope: what stands between the tag and
/// the closing bracket of the trimmed value.
pub open spec fn payload_of(value: Seq<char>) -> Seq<char> {
    let t = trim(value);
    t.subrange(envelope_tag().len() as int, t.len() - 1)
}

/// Whether `value` is in an encrypted form: trimmed, it begins with the
/// compact tag or with the legacy armor header.
pub open spec fn encrypted(value: Seq<char>) -> bool {
    starts_with(trim(value), envelope_tag()) || starts_with(trim(value), armor_header())
}

/// The text that plaintext bytes stand for; none where they are not UTF-8.
pub open spec fn text_of_bytes(bytes: Option<Seq<u8>>) -> Option<Seq<char>> {
    match bytes {
        Some(b) => if valid_utf8(b) {
            Some(decode_utf8(b))
        } else {
            None
        },
        None => None,
    }
}

/// What `value` decrypts to under `identity`; none where decryption fails.
/// Plaintext decrypts to itself.
pub open spec fn decrypted(identity: Seq<char>, value: Seq<char>) -> Option<Seq<char>> {
    match kind_of(value) {
        ValueKind::Plain => Some(value),
        ValueKind::Envelope => match base64_bytes(payload_of(value)) {
            Some(envelope) => text_of_bytes(opened(identity, envelope)),
            None => None,
        },
        ValueKind::LegacyArmor => text_of_bytes(opened_armor(identity, trim(value))),
    }
}

/// The compact envelope around a base64 text.
pub open spec fn envelope_around(b64: Seq<char>) -> Seq<char> {
    envelope_tag() + b64 + "]"@
}

/// A value that is not in an encrypted form decrypts to itself.
pub proof fn lemma_plaintext_passes(identity: Seq<char>, value: Seq<char>)
    requires
        !encrypted(value),
    ensures
        kind_of(value) == ValueKind::Plain,
        decrypted(identity, value) == Some(value),
{
}

/// An envelope is never passed through: a compact envelope or an armored
/// value decrypts only to the text of the bytes that the cipher opens it
/// to, and decryption fails where its base64 is bad, the cipher refuses it,
/// or those bytes are not UTF-8. So a value in an encrypted form comes back
/// as it went in only where it is no envelope at all (the tag without its
/// closing bracket) or the cipher opens it to its own text.
pub proof fn lemma_refused_envelope_fails(identity: Seq<char>, value: Seq<char>)
    ensures
        kind_of(value) == ValueKind::Envelope ==> decrypted(identity, value) == match base64_bytes(
            payload_of(value),
        ) {
            Some(envelope) => match opened(identity, envelope) {
                Some(bytes) => if valid_utf8(bytes) {
                    Some(decode_utf8(bytes))
                } else {
                    None
                },
                None => None,
            },
            None => None,
        },
        kind_of(value) == ValueKind::LegacyArmor ==> decrypted(identity, value) == match opened_armor(
            identity,
            trim(value),
        ) {
            Some(bytes) => if valid_utf8(bytes) {
                Some(decode_utf8(bytes))
            } else {
                None
            },
            None => None,
        },
        encrypted(value) && decrypted(identity, value) == Some(value) ==> kind_of(value)
            == ValueKind::Plain || (exists|bytes: Seq<u8>|
            valid_utf8(bytes) && #[trigger] decode_utf8(bytes) == value),
{
    if encrypted(value) && decrypted(identity, value) == Some(value) && kind_of(value)
        != ValueKind::Plain {
        if kind_of(value) == ValueKind::Envelope {
            let bytes = opened(identity, base64_bytes(payload_of(value))->Some_0)->Some_0;
            assert(valid_utf8(bytes) && decode_utf8(bytes) == value);
        } else {
            let bytes = opened_armor(identity, trim(value))->Some_0;
            assert(valid_utf8(bytes) && decode_utf8(bytes) == value);
        }
    }
}

/// The shape of a compact envelope: it is its own trimmed form, is
/// recognized as an envelope and as encrypted, and its payload is the base64
/// text it was built around.
pub proof fn lemma_envelope_shape(b64: Seq<char>)
    ensures
        trim(envelope_around(b64)) == envelope_around(b64),
        kind_of(envelope_around(b64)) == ValueKind::Envelope,
        payload_of(envelope_around(b64)) == b64,
        encrypted(envelope_around(b64)),
{
    reveal_strlit("ENC[AGE:b64:");
    reveal_strlit("]");
    let e = envelope_around(b64);
    let tag = envelope_tag();
    assert(e.len() == tag.len() + b64.len() + 1);
    assert(e[0] == 'E');
    assert(e.last() == ']');
    lemma_trim_fixed(e);
    assert(e.take(tag.len() as int) == tag);
    let rest = e.skip(tag.len() as int);
    assert(rest == b64 + "]"@);
    assert(rest.skip(rest.len() - 1) == "]"@);
    assert(e.subrange(tag.len() as int, e.len() - 1) == b64);
}

/// Round trip: an envelope built around the base64 of bytes that the
/// identity opens to the UTF-8 form of a plaintext decrypts to that
/// plaintext.
pub proof fn lemma_round_trip(
    identity: Seq<char>,
    plaintext: Seq<char>,
    envelope: Seq<u8>,
    b64: Seq<char>,
)
    requires
        opened(identity, envelope) == Some(encode_utf8(plaintext)),
        base64_bytes(b64) == Some(envelope),
    ensures
        decrypted(identity, envelope_around(b64)) == Some(plaintext),
        encrypted(envelope_around(b64)),
{
    lemma_envelope_shape(b64);
    vstd::utf8::encode_utf8_valid_utf8(plaintext);
    vstd::utf8::encode_utf8_decode_utf8(plaintext);
}

/// Encrypts and decrypts values under one identity, which it holds for as
/// long as it lives.
pub struct SecretManager {
    identity: String,
}

impl Clone for SecretManager {
    fn clone(&self) -> (r: Self)
        ensures
            r.key() == self.key(),
    {
        proof {
            use_type_invariant(self);
        }
        SecretManager { identity: self.identity.clone() }
    }
}

impl SecretManager {
    #[verifier::type_invariant]
    spec fn holds_identity(&self) -> bool {
        identity_valid(self.identity@)
    }

    /// The identity, in its serialized form.
    pub closed spec fn key(&self) -> Seq<char> {
        self.identity@
    }

    /// A manager with a new random identity.
    pub fn generate() -> (r: Result<SecretManager, SecretsError>)
        ensures
            r is Ok,
            r matches Ok(m) ==> identity_valid(m.key()),
    {
        Ok(SecretManager { identity: age_generate() })
    }

    /// A manager for the identity that `identity` spells. Fails with
    /// `KeyLoadFailed` exactly where the text is not an identity.
    pub fn from_identity(identity: &str) -> (r: Result<SecretManager, SecretsError>)
        ensures
            match r {
                Ok(m) => identity_valid(identity@) && m.key() == identity@,
                Err(e) => !identity_valid(identity@) && (e matches SecretsError::KeyLoadFailed(m)
                    && starts_with(m@, "parse key: "@)),
            },
    {
        match age_check_identity(identity) {
            Ok(_) => Ok(SecretManager { identity: identity.to_owned() }),
            Err(msg) => {
                let mut text = to_chars("parse key: ");
                append_str(&mut text, msg.as_str());
                let out = from_chars(text.as_slice());
                assert(out@.take("parse key: "@.len() as int) == "parse key: "@);
                Err(SecretsError::KeyLoadFailed(out))
            },
        }
    }

    /// The identity in its serialized form, as it is written to a key file.
    pub fn identity_string(&self) -> (r: String)
        ensures
            r@ == self.key(),
            identity_valid(self.key()),
    {
        proof {
            use_type_invariant(self);
        }
        self.identity.clone()
    }

    /// The public key that corresponds to the identity, in age's text form.
    pub fn public_key(&self) -> (r: String)
        ensures
            r@ == recipient_of(self.key()),
    {
        proof {
            use_type_invariant(self);
        }
        age_recipient(self.identity.as_str()).unwrap()
    }

    /// The public key as a string in age's format.
    pub fn public_key_string(&self) -> (r: String)
        ensures
            r@ == recipient_of(self.key()),
    {
        self.public_key()
    }

    /// The kind of `value`: plaintext, a compact envelope, or the legacy
    /// armored form.
    pub fn classify(value: &str) -> (r: ValueKind)
        ensures
            r == kind_of(value@),
    {
        let v = to_chars(value);
        let t = trim_chars(v.as_slice());
        let tag = to_chars("ENC[AGE:b64:");
        let header = to_chars("-----BEGIN AGE ENCRYPTED FILE-----");
        let close = to_chars("]");
        if chars_start_with(t.as_slice(), tag.as_slice()) {
            let rest = copy_range(t.as_slice(), tag.len(), t.len());
            assert(rest@ == t@.skip(envelope_tag().len() as int));
            if chars_end_with(rest.as_slice(), close.as_slice()) {
                return ValueKind::Envelope;
            }
        }
        if chars_start_with(t.as_slice(), header.as_slice()) {
            ValueKind::LegacyArmor
        } else {
            ValueKind::Plain
        }
    }

    /// Whether `value` is in an encrypted form: trimmed, it begins with the
    /// compact tag or with the legacy armor header.
    pub fn is_encrypted(value: &str) -> (r: bool)
        ensures
            r == encrypted(value@),
    {
        let v = to_chars(value);
        let t = trim_chars(v.as_slice());
        let tag = to_chars("ENC[AGE:b64:");
        let header = to_chars("-----BEGIN AGE ENCRYPTED FILE-----");
        chars_start_with(t.as_slice(), tag.as_slice()) || chars_start_with(
            t.as_slice(),
            header.as_slice(),
        )
    }

    /// The compact envelope for what the cipher gave: the tag, the base64 of
    /// the envelope bytes, a closing bracket. Fails with `EncryptionFailed`
    /// where the cipher failed, with its message, or where the envelope is
    /// too long for its base64 to be addressed.
    pub fn wrap_sealed(sealed: Result<Vec<u8>, String>) -> (r: Result<String, SecretsError>)
        ensures
            match sealed {
                Ok(bytes) => if base64_fits(bytes@.len()) {
                    r matches Ok(c) && c@ == envelope_around(base64_text(bytes@)) && base64_bytes(
                        base64_text(bytes@),
                    ) == Some(bytes@)
                } else {
                    r matches Err(SecretsError::EncryptionFailed(_))
                },
                Err(msg) => r matches Err(SecretsError::EncryptionFailed(m)) && m@ == msg@,
            },
    {
        match sealed {
            Ok(bytes) => {
                if bytes.len() / 3 > (usize::MAX - 4) / 4 {
                    return Err(SecretsError::EncryptionFailed("envelope too long".to_owned()));
                }
                let b64 = base64_encode(bytes.as_slice());
                let mut text = to_chars("ENC[AGE:b64:");
                append_str(&mut text, b64.as_str());
                append_str(&mut text, "]");
                Ok(from_chars(text.as_slice()))
            },
            Err(msg) => Err(SecretsError::EncryptionFailed(msg)),
        }
    }

    /// Encrypts `plaintext` to the identity's own public key and wraps the
    /// envelope as `ENC[AGE:b64:<base64>]`. Whatever envelope the cipher
    /// produces, the result is recognized as encrypted and decrypts to
    /// `plaintext` under this identity. Fails only with `EncryptionFailed`.
    pub fn encrypt_value(&self, plaintext: &str) -> (r: Result<String, SecretsError>)
        ensures
            match r {
                Ok(c) => encrypted(c@) && kind_of(c@) == ValueKind::Envelope && decrypted(
                    self.key(),
                    c@,
                ) == Some(plaintext@) && exists|bytes: Seq<u8>|
                    c@ == envelope_around(#[trigger] base64_text(bytes)),
                Err(e) => e is EncryptionFailed,
            },
    {
        let sealed = age_seal(self.identity.as_str(), plaintext.as_bytes());
        let ghost seen = sealed;
        let r = SecretManager::wrap_sealed(sealed);
        proof {
            if r is Ok {
                let bytes = seen->Ok_0@;
                lemma_round_trip(self.key(), plaintext@, bytes, base64_text(bytes));
                lemma_envelope_shape(base64_text(bytes));
            }
        }
        r
    }

    /// The plaintext for what the cipher gave when it opened an envelope:
    /// the bytes as UTF-8 text. Fails with `DecryptionFailed` where the
    /// cipher failed, with its message, or where the bytes are not UTF-8.
    pub fn unwrap_opened(plain: Result<Vec<u8>, String>) -> (r: Result<String, SecretsError>)
        ensures
            match plain {
                Ok(bytes) => if valid_utf8(bytes@) {
                    r matches Ok(s) && s@ == decode_utf8(bytes@)
                } else {
                    r matches Err(SecretsError::DecryptionFailed(_))
                },
                Err(msg) => r matches Err(SecretsError::DecryptionFailed(m)) && m@ == msg@,
            },
    {
        match plain {
            Ok(bytes) => {
                let ghost b = bytes@;
                match utf8_text(bytes) {
                    Ok(s) => {
                        proof {
                            vstd::utf8::encode_utf8_decode_utf8(s@);
                        }
                        Ok(s)
                    },
                    Err(msg) => Err(SecretsError::DecryptionFailed(msg)),
                }
            },
            Err(msg) => Err(SecretsError::DecryptionFailed(msg)),
        }
    }

    /// Decrypts `value` where it is in an encrypted form, and hands it back
    /// unchanged where it is plaintext. Fails with `DecryptionFailed`
    /// exactly where the value is an envelope or armored and its base64 is
    /// bad, the cipher refuses it, or its plaintext is not UTF-8.
    pub fn decrypt_value(&self, value: &str) -> (r: Result<String, SecretsError>)
        ensures
            match decrypted(self.key(), value@) {
                Some(p) => r matches Ok(s) && s@ == p,
                None => r matches Err(SecretsError::DecryptionFailed(_)),
            },
            kind_of(value@) == ValueKind::Envelope && base64_bytes(payload_of(value@)) is None
                ==> (r matches Err(SecretsError::DecryptionFailed(m)) && starts_with(
                m@,
                "invalid base64: "@,
            )),
    {
        match SecretManager::classify(value) {
            ValueKind::Plain => Ok(value.to_owned()),
            ValueKind::Envelope => {
                let v = to_chars(value);
                let t = trim_chars(v.as_slice());
                let ghost tag = envelope_tag();
                proof {
                    reveal_strlit("ENC[AGE:b64:");
                    reveal_strlit("]");
                }
                let inner = copy_range(t.as_slice(), 12, t.len() - 1);
                let payload = from_chars(inner.as_slice());
                match base64_decode(payload.as_str()) {
                    Ok(envelope) => {
                        let plain = age_open(self.identity.as_str(), envelope.as_slice());
                        SecretManager::unwrap_opened(plain)
                    },
                    Err(msg) => {
                        let mut text = to_chars("invalid base64: ");
                        append_str(&mut text, msg.as_str());
                        let out = from_chars(text.as_slice());
                        assert(out@.take("invalid base64: "@.len() as int) == "invalid base64: "@);
                        Err(SecretsError::DecryptionFailed(out))
                    },
                }
            },
            ValueKind::LegacyArmor => {
                let v = to_chars(value);
                let t = trim_chars(v.as_slice());
                let armored = from_chars(t.as_slice());
                let plain = age_open_armor(self.identity.as_str(), armored.as_str());
                SecretManager::unwrap_opened(plain)
            },
        }
    }
}

} // verus!
