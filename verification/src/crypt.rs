//! The cell codec: an RSA keypair that encrypts plaintext into hex
//! ciphertext and decrypts it back.
//!
//! What RSA itself computes is opaque; it is named by `rsa_decrypt_of`,
//! keyed by the PEM text the pair was built from, and the facts stated
//! about it are the documented inverse relation between encryption and
//! decryption under the same key, and that encryption succeeds exactly when
//! the padded plaintext fits the modulus (`rsa_key_size_of`).

use vstd::prelude::*;
use crate::errors::VaultError;
use crate::hexcode;

verus! {

#[verifier::external_type_specification]
#[verifier::external_body]
pub struct ExRsaPublicKey(rsa::RsaPublicKey);

#[verifier::external_type_specification]
#[verifier::external_body]
pub struct ExRsaPrivateKey(rsa::RsaPrivateKey);

/// What PKCS#1 v1.5 decryption under the private key of the pair built from
/// the given PEM text returns for a ciphertext: the recovered plaintext
/// bytes, or nothing when the ciphertext does not unpad.
pub uninterp spec fn rsa_decrypt_of(key: Seq<char>, ciphertext: Seq<u8>) -> Option<Seq<u8>>;

/// Whether the given text parses as a PKCS#1 PEM private key.
pub uninterp spec fn rsa_pem_parses(pem: Seq<char>) -> bool;

/// The byte length of the modulus of the key pair built from the given PEM
/// text, as PKCS#1 v1.5 encryption uses it — and zero when the key cannot
/// encrypt at all (it fails the public-key well-formedness check).
pub uninterp spec fn rsa_key_size_of(key: Seq<char>) -> nat;

/// What `str::as_bytes` returns: the UTF-8 encoding of the characters.
pub uninterp spec fn utf8_encode_of(text: Seq<char>) -> Seq<u8>;

/// What `String::from_utf8` returns for a byte string: its characters if the
/// bytes are valid UTF-8, nothing otherwise.
pub uninterp spec fn utf8_decode_of(bytes: Seq<u8>) -> Option<Seq<char>>;

/// When PKCS#1 v1.5 encryption under the pair built from `key` accepts a
/// plaintext: its UTF-8 encoding plus the eleven padding bytes must fit the
/// modulus.
pub open spec fn spec_can_encrypt(key: Seq<char>, plain: Seq<char>) -> bool {
    utf8_encode_of(plain).len() + 11 <= rsa_key_size_of(key)
}

/// The asymmetric keypair used for every encrypted cell, loaded once at
/// process start.
pub struct KeyPair {
    public: rsa::RsaPublicKey,
    private: rsa::RsaPrivateKey,
    pem: String,
}

/// The result of decrypting one hex ciphertext: each variant names the
/// sub-step that failed.
#[derive(Clone, Copy, Debug, PartialEq, Eq, Structural)]
pub enum DecryptionError {
    /// The ciphertext is not a hex string.
    ParseHex,
    /// RSA decryption rejected the ciphertext bytes.
    Rsa,
    /// The decrypted bytes are not valid UTF-8.
    ParseString,
}

/// What `decrypt_string_from_hex` returns: hex-decode, RSA-decrypt and
/// UTF-8-validate in that order, each failure reported as its own error.
pub open spec fn spec_decrypt(key: Seq<char>, hex: Seq<char>) -> Result<Seq<char>, DecryptionError> {
    if !hexcode::valid_hex(hex) {
        Err(DecryptionError::ParseHex)
    } else {
        match rsa_decrypt_of(key, hexcode::spec_hex_decode(hex)) {
            Option::None => Err(DecryptionError::Rsa),
            Option::Some(bytes) => match utf8_decode_of(bytes) {
                Option::None => Err(DecryptionError::ParseString),
                Option::Some(s) => Ok(s),
            },
        }
    }
}

/// Relies on `str::as_bytes` (the UTF-8 encoding of the characters, a
/// function of the characters alone) and on `String::from_utf8` decoding
/// that encoding back to exactly the same characters.
#[verifier::external_body]
pub fn str_bytes(s: &str) -> (r: Vec<u8>)
    ensures
        r@ == utf8_encode_of(s@),
        utf8_decode_of(r@) == Some(s@),
{
    s.as_bytes().to_vec()
}

/// Relies on `String::from_utf8`: it succeeds exactly on valid UTF-8 and
/// then returns the decoded characters.
#[verifier::external_body]
pub fn bytes_to_string(b: &Vec<u8>) -> (r: Option<String>)
    ensures
        match r {
            Some(s) => utf8_decode_of(b@) == Some(s@),
            None => utf8_decode_of(b@) is None,
        },
{
    String::from_utf8(b.clone()).ok()
}

impl KeyPair {
    /// The spec-level identity of this pair: the PEM text it was built from.
    pub closed spec fn key_id(&self) -> Seq<char> {
        self.pem@
    }

    /// Relies on `rsa::RsaPrivateKey::from_pkcs1_pem` to parse the key
    /// (deterministic in the text, so parsing succeeds exactly on valid
    /// PKCS#1 PEM) and on `RsaPrivateKey::to_public_key` to derive the
    /// matching public half.
    #[verifier::external_body]
    pub fn new(private_key_pem: &str) -> (r: Result<Self, VaultError>)
        ensures
            r is Ok <==> rsa_pem_parses(private_key_pem@),
            r matches Ok(kp) ==> kp.key_id() == private_key_pem@,
            r matches Err(e) ==> e == VaultError::CryptoError,
    {
        match <rsa::RsaPrivateKey as rsa::pkcs1::DecodeRsaPrivateKey>::from_pkcs1_pem(
            private_key_pem,
        ) {
            Ok(private) => Ok(KeyPair {
                public: private.to_public_key(),
                private,
                pem: private_key_pem.to_string(),
            }),
            Err(_) => Err(VaultError::CryptoError),
        }
    }

    /// Relies on `rsa::RsaPublicKey::encrypt` with PKCS#1 v1.5 padding.
    /// Only the padding bytes are random: encryption succeeds exactly when
    /// the key is well formed and the message plus eleven padding bytes
    /// fits the modulus; the ciphertext is always one modulus worth of
    /// bytes; and whatever ciphertext the padding produces, decrypting it
    /// under the matching private key returns exactly the message.
    #[verifier::external_body]
    fn rsa_encrypt(&self, msg: &Vec<u8>) -> (r: Option<Vec<u8>>)
        ensures
            r is Some <==> msg@.len() + 11 <= rsa_key_size_of(self.key_id()),
            r matches Some(ct) ==> {
                &&& rsa_decrypt_of(self.key_id(), ct@) == Some(msg@)
                &&& ct@.len() == rsa_key_size_of(self.key_id())
            },
    {
        self.public.encrypt(&mut rand::rngs::OsRng, rsa::Pkcs1v15Encrypt, msg.as_slice()).ok()
    }

    /// Relies on `rsa::RsaPrivateKey::decrypt` with PKCS#1 v1.5 padding: it
    /// is deterministic in the key and the ciphertext.
    #[verifier::external_body]
    fn rsa_decrypt(&self, ciphertext: &Vec<u8>) -> (r: Option<Vec<u8>>)
        ensures
            match r {
                Some(v) => rsa_decrypt_of(self.key_id(), ciphertext@) == Some(v@),
                None => rsa_decrypt_of(self.key_id(), ciphertext@) is None,
            },
    {
        self.private.decrypt(rsa::Pkcs1v15Encrypt, ciphertext.as_slice()).ok()
    }

    /// Encrypts a plaintext cell into hex ciphertext.  Encryption succeeds
    /// exactly when the plaintext fits the key (`spec_can_encrypt`); the
    /// result is then one modulus worth of hex digits that decrypts back
    /// to exactly the plaintext.  An oversized plaintext is a
    /// `CryptoError`.
    pub fn encrypt_string_to_hex(&self, s: &str) -> (r: Result<String, VaultError>)
        ensures
            r is Ok <==> spec_can_encrypt(self.key_id(), s@),
            r matches Ok(h) ==> {
                &&& spec_decrypt(self.key_id(), h@) == Ok::<_, DecryptionError>(s@)
                &&& h@.len() == 2 * rsa_key_size_of(self.key_id())
            },
            r matches Err(e) ==> e == VaultError::CryptoError,
    {
        let msg = str_bytes(s);
        match self.rsa_encrypt(&msg) {
            Some(ct) => {
                let h = hexcode::hex_encode(&ct);
                proof {
                    hexcode::lemma_hex_round_trip(ct@);
                    hexcode::lemma_spec_hex_encode_len(ct@);
                }
                Ok(h)
            },
            None => Err(VaultError::CryptoError),
        }
    }

    /// Decrypts one hex ciphertext cell: hex-decode, RSA-decrypt,
    /// UTF-8-validate, in that order; any sub-step failure is reported as
    /// that step's `DecryptionError`.
    pub fn decrypt_string_from_hex(&self, hex: &str) -> (r: Result<String, DecryptionError>)
        ensures
            match r {
                Ok(s) => spec_decrypt(self.key_id(), hex@) == Ok::<_, DecryptionError>(s@),
                Err(e) => spec_decrypt(self.key_id(), hex@) == Err::<Seq<char>, _>(e),
            },
    {
        match hexcode::hex_decode(hex) {
            None => Err(DecryptionError::ParseHex),
            Some(bytes) => match self.rsa_decrypt(&bytes) {
                None => Err(DecryptionError::Rsa),
                Some(plain) => match bytes_to_string(&plain) {
                    None => Err(DecryptionError::ParseString),
                    Some(s) => Ok(s),
                },
            },
        }
    }
}

} // verus!
