//! The cipher engine: authenticated symmetric encryption of byte content
//! under a password-derived key, plus the password-validation check.
//!
//! A 256-bit key is derived by repeating the password's bytes end-to-end
//! until 32 bytes are reached. Content is sealed with AES-256-GCM under a
//! fixed, engine-configured nonce and stored text-encoded (base64). The
//! engine also carries a reference ciphertext: a password validates exactly
//! when the reference decrypts, under that password, to the password itself.

use vstd::prelude::*;
use crate::bytes::bytes_eq;

verus! {

/// Failure of `decrypt`: either the stored text is not validly encoded,
/// or the authentication tag does not verify (wrong password, or
/// corrupted/tampered ciphertext).
#[derive(PartialEq, Eq, Structural, Clone, Copy, Debug)]
pub enum CipherError {
    AuthenticationFailure,
    DecodeError,
}

/// The ciphertext (with its authentication tag) that AES-256-GCM produces
/// from a key, a nonce and a plaintext. The result depends on the three
/// arguments alone.
pub uninterp spec fn aead_seal(key: Seq<u8>, nonce: Seq<u8>, plain: Seq<u8>) -> Seq<u8>;

/// What AES-256-GCM decryption returns for a key, a nonce and a ciphertext:
/// the recovered plaintext, or `None` when the authentication tag does not
/// verify. The result depends on the three arguments alone.
pub uninterp spec fn aead_open(key: Seq<u8>, nonce: Seq<u8>, sealed: Seq<u8>) -> Option<Seq<u8>>;

/// The standard base64 text encoding of a byte string.
pub uninterp spec fn base64_encoding(data: Seq<u8>) -> Seq<u8>;

/// What standard base64 decoding returns for a text: the decoded bytes, or
/// `None` when the text is not valid base64.
pub uninterp spec fn base64_decoding(text: Seq<u8>) -> Option<Seq<u8>>;

/// Largest plaintext AES-GCM accepts (NIST limit: 2^36 - 32 bytes).
pub open spec fn aead_max_plain() -> int {
    0x10_0000_0000 - 32
}

/// The 32-byte key derived from a non-empty password by repeating its bytes
/// end-to-end and truncating to exactly 32 bytes.
pub open spec fn derived_key(password: Seq<u8>) -> Seq<u8>
    recommends
        password.len() > 0,
{
    Seq::new(32, |i: int| password[i % password.len() as int])
}

/// The stored form of a plaintext: sealed, then text-encoded.
pub open spec fn encrypt_text(nonce: Seq<u8>, key: Seq<u8>, plain: Seq<u8>) -> Seq<u8> {
    base64_encoding(aead_seal(key, nonce, plain))
}

/// What decryption of a stored text yields: the plaintext, or the error
/// that names which step refused it.
pub open spec fn decrypt_text(nonce: Seq<u8>, key: Seq<u8>, text: Seq<u8>) -> Result<
    Seq<u8>,
    CipherError,
> {
    match base64_decoding(text) {
        Option::None => Err(CipherError::DecodeError),
        Option::Some(sealed) => match aead_open(key, nonce, sealed) {
            Option::None => Err(CipherError::AuthenticationFailure),
            Option::Some(plain) => Ok(plain),
        },
    }
}

/// A password validates against a reference ciphertext exactly when the
/// reference decrypts, under the key derived from that password, to the
/// password's own bytes. The empty password never validates.
pub open spec fn validate_spec(nonce: Seq<u8>, reference: Seq<u8>, key: Seq<u8>) -> bool {
    key.len() > 0 && decrypt_text(nonce, derived_key(key), reference) == Ok::<
        Seq<u8>,
        CipherError,
    >(key)
}

/// Relies on `aes_gcm::Aes256Gcm` (`aead::Aead::encrypt`): deterministic
/// AES-256-GCM sealing; the ciphertext carries a 16-byte postfix tag, and
/// decryption under the same key and nonce recovers the plaintext. Sealing
/// succeeds whenever the plaintext is within the AES-GCM length limit.
#[verifier::external_body]
fn aead_encrypt(key: &[u8], nonce: &[u8], plain: &[u8]) -> (r: Option<Vec<u8>>)
    requires
        key@.len() == 32,
        nonce@.len() == 12,
    ensures
        r matches Some(sealed) ==> sealed@ == aead_seal(key@, nonce@, plain@),
        r matches Some(sealed) ==> aead_open(key@, nonce@, sealed@) == Some(plain@),
        r matches Some(sealed) ==> sealed@.len() == plain@.len() + 16,
        plain@.len() <= aead_max_plain() ==> r is Some,
{
    let cipher = match <aes_gcm::Aes256Gcm as aes_gcm::KeyInit>::new_from_slice(key) {
        Ok(cipher) => cipher,
        Err(_) => return None,
    };
    let nonce = match <&aes_gcm::Nonce<aes_gcm::aead::consts::U12>>::try_from(nonce) {
        Ok(nonce) => nonce,
        Err(_) => return None,
    };
    aes_gcm::aead::Aead::encrypt(&cipher, nonce, plain).ok()
}

/// Relies on `aes_gcm::Aes256Gcm` (`aead::Aead::decrypt`): AES-256-GCM
/// opening, which returns the plaintext or fails when the authentication
/// tag does not verify.
#[verifier::external_body]
fn aead_decrypt(key: &[u8], nonce: &[u8], sealed: &[u8]) -> (r: Option<Vec<u8>>)
    requires
        key@.len() == 32,
        nonce@.len() == 12,
    ensures
        r matches Some(plain) ==> aead_open(key@, nonce@, sealed@) == Some(plain@),
        r is None ==> aead_open(key@, nonce@, sealed@) is None,
{
    let cipher = match <aes_gcm::Aes256Gcm as aes_gcm::KeyInit>::new_from_slice(key) {
        Ok(cipher) => cipher,
        Err(_) => return None,
    };
    let nonce = match <&aes_gcm::Nonce<aes_gcm::aead::consts::U12>>::try_from(nonce) {
        Ok(nonce) => nonce,
        Err(_) => return None,
    };
    aes_gcm::aead::Aead::decrypt(&cipher, nonce, sealed).ok()
}

/// Relies on `base64::Engine::encode` with the standard alphabet: canonical
/// base64 text, which `base64::Engine::decode` inverts.
#[verifier::external_body]
fn b64_encode(data: &[u8]) -> (r: Vec<u8>)
    requires
        data@.len() * 4 + 32 <= usize::MAX as int * 3,
    ensures
        r@ == base64_encoding(data@),
        base64_decoding(r@) == Some(data@),
{
    base64::Engine::encode(&base64::engine::general_purpose::STANDARD, data).into_bytes()
}

/// Relies on `base64::Engine::decode` with the standard alphabet: the
/// decoded bytes, or an error when the text is not valid base64.
#[verifier::external_body]
fn b64_decode(text: &[u8]) -> (r: Option<Vec<u8>>)
    ensures
        r matches Some(data) ==> base64_decoding(text@) == Some(data@),
        r is None ==> base64_decoding(text@) is None,
{
    base64::Engine::decode(&base64::engine::general_purpose::STANDARD, text).ok()
}

/// The 32-byte repeat-and-truncate key for a non-empty password.
fn derive_key(password: &[u8]) -> (r: Vec<u8>)
    requires
        password@.len() > 0,
    ensures
        r@ == derived_key(password@),
        r@.len() == 32,
{
    let n = password.len();
    let mut r: Vec<u8> = Vec::new();
    let mut i: usize = 0;
    while i < 32
        invariant
            n == password@.len(),
            n > 0,
            i <= 32,
            r@.len() == i,
            forall|j: int| 0 <= j < i ==> r@[j] == password@[j % n as int],
        decreases 32 - i,
    {
        r.push(password[i % n]);
        i = i + 1;
    }
    assert(r@ =~= derived_key(password@));
    r
}

/// The cipher engine, parameterized by its fixed nonce and the reference
/// ciphertext that `validate` checks passwords against.
pub struct CipherEngine {
    pub nonce: Vec<u8>,
    pub reference: Vec<u8>,
}

impl CipherEngine {
    /// The nonce has the 96-bit size AES-GCM is configured for.
    pub open spec fn wf(&self) -> bool {
        self.nonce@.len() == 12
    }

    /// An engine over an externally provisioned reference ciphertext.
    pub fn new(nonce: Vec<u8>, reference: Vec<u8>) -> (r: CipherEngine)
        requires
            nonce@.len() == 12,
        ensures
            r.wf(),
            r.nonce == nonce,
            r.reference == reference,
    {
        CipherEngine { nonce, reference }
    }

    /// An engine whose reference ciphertext is produced from `password`
    /// itself, so that exactly that password validates against it.
    pub fn provision(nonce: Vec<u8>, password: &Vec<u8>) -> (r: CipherEngine)
        requires
            nonce@.len() == 12,
            password@.len() > 0,
            password@.len() <= aead_max_plain(),
            password@.len() * 4 + 96 <= usize::MAX as int * 3,
        ensures
            r.wf(),
            r.nonce@ == nonce@,
            r.reference@ == encrypt_text(nonce@, derived_key(password@), password@),
            decrypt_text(nonce@, derived_key(password@), r.reference@) == Ok::<
                Seq<u8>,
                CipherError,
            >(password@),
    {
        let reference = seal_with(nonce.as_slice(), password.as_slice(), password.as_slice());
        CipherEngine { nonce, reference }
    }

    /// Seals a plaintext under the key derived from `password` and returns
    /// its stored text form. Round trip: the result decrypts, under the same
    /// password, to exactly `plain`.
    pub fn encrypt(&self, plain: &Vec<u8>, password: &Vec<u8>) -> (r: Vec<u8>)
        requires
            self.wf(),
            password@.len() > 0,
            plain@.len() <= aead_max_plain(),
            plain@.len() * 4 + 96 <= usize::MAX as int * 3,
        ensures
            r@ == encrypt_text(self.nonce@, derived_key(password@), plain@),
            decrypt_text(self.nonce@, derived_key(password@), r@) == Ok::<
                Seq<u8>,
                CipherError,
            >(plain@),
    {
        seal_with(self.nonce.as_slice(), password.as_slice(), plain.as_slice())
    }

    /// Decodes and opens a stored text under the key derived from `password`.
    /// Fails with `DecodeError` when the text is not valid base64, and with
    /// `AuthenticationFailure` when the authentication tag does not verify.
    pub fn decrypt(&self, text: &Vec<u8>, password: &Vec<u8>) -> (r: Result<Vec<u8>, CipherError>)
        requires
            self.wf(),
            password@.len() > 0,
        ensures
            r matches Ok(plain) ==> decrypt_text(self.nonce@, derived_key(password@), text@) == Ok::<
                Seq<u8>,
                CipherError,
            >(plain@),
            r matches Err(e) ==> decrypt_text(self.nonce@, derived_key(password@), text@) == Err::<
                Seq<u8>,
                CipherError,
            >(e),
    {
        let key = derive_key(password.as_slice());
        let sealed = match b64_decode(text.as_slice()) {
            Some(sealed) => sealed,
            None => return Err(CipherError::DecodeError),
        };
        match aead_decrypt(key.as_slice(), self.nonce.as_slice(), sealed.as_slice()) {
            Some(plain) => Ok(plain),
            None => Err(CipherError::AuthenticationFailure),
        }
    }

    /// True exactly when the reference ciphertext decrypts under `key` to
    /// `key` itself; false for the empty password, and never panics on a
    /// wrong one.
    pub fn validate(&self, key: &Vec<u8>) -> (r: bool)
        requires
            self.wf(),
        ensures
            r == validate_spec(self.nonce@, self.reference@, key@),
    {
        if key.len() == 0 {
            return false;
        }
        match self.decrypt(&self.reference, key) {
            Ok(plain) => bytes_eq(plain.as_slice(), key.as_slice()),
            Err(_) => false,
        }
    }
}

/// Sealing under a caller-supplied nonce; shared by `encrypt` and `provision`.
fn seal_with(nonce: &[u8], password: &[u8], plain: &[u8]) -> (r: Vec<u8>)
    requires
        nonce@.len() == 12,
        password@.len() > 0,
        plain@.len() <= aead_max_plain(),
        plain@.len() * 4 + 96 <= usize::MAX as int * 3,
    ensures
        r@ == encrypt_text(nonce@, derived_key(password@), plain@),
        decrypt_text(nonce@, derived_key(password@), r@) == Ok::<Seq<u8>, CipherError>(plain@),
{
    let key = derive_key(password);
    let sealed = match aead_encrypt(key.as_slice(), nonce, plain) {
        Some(sealed) => sealed,
        None => unreached(),
    };
    b64_encode(sealed.as_slice())
}

/// Law: against a reference ciphertext produced from password `k0`, the
/// password `k0` itself validates; a different password whose derived key
/// coincides with `k0`'s does not; and the empty password does not.
pub proof fn lemma_validate_reference(nonce: Seq<u8>, reference: Seq<u8>, k0: Seq<u8>, k: Seq<u8>)
    requires
        k0.len() > 0,
        decrypt_text(nonce, derived_key(k0), reference) == Ok::<Seq<u8>, CipherError>(k0),
    ensures
        k == k0 ==> validate_spec(nonce, reference, k),
        k != k0 && derived_key(k) == derived_key(k0) ==> !validate_spec(nonce, reference, k),
        k.len() == 0 ==> !validate_spec(nonce, reference, k),
{
}

} // verus!
