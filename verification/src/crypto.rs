//! The crypto/hash boundary: content hashing, authenticated encryption,
//! compression and key derivation.  Each outside primitive is consumed
//! through a single trusted declaration; everything around the calls
//! (framing, dispatch, length handling) is verified.

use vstd::prelude::*;

use aes_gcm::KeyInit;
use argon2::PasswordHasher;
use base64::Engine;
use rand::RngCore;

verus! {

/// The digest that the content hash assigns to a byte string, as lowercase
/// hex text.  Equal bytes always map to the equal digest; nothing else is
/// assumed of it.
pub uninterp spec fn digest_of(data: Seq<u8>) -> Seq<char>;

/// What AES-256-GCM decryption returns for a key, nonce and ciphertext:
/// the plaintext on authentication success, nothing on failure.
pub uninterp spec fn aes_gcm_open_of(key: Seq<u8>, nonce: Seq<u8>, cipher: Seq<u8>) -> Option<
    Seq<u8>,
>;

/// What XChaCha20-Poly1305 decryption returns for a key, nonce and
/// ciphertext.
pub uninterp spec fn xchacha_open_of(key: Seq<u8>, nonce: Seq<u8>, cipher: Seq<u8>) -> Option<
    Seq<u8>,
>;

/// What zstd decompression returns for a byte string: the decoded bytes for
/// a well-formed frame, nothing otherwise.
pub uninterp spec fn decompress_of(data: Seq<u8>) -> Option<Seq<u8>>;

/// The key that Argon2 (default parameters) derives from a password and a
/// salt: a deterministic function of the two.
pub uninterp spec fn derived_key_of(password: Seq<char>, salt: Seq<u8>) -> Seq<u8>;

/// The standard-alphabet base64 rendering of a byte string.
pub uninterp spec fn b64_of(data: Seq<u8>) -> Seq<char>;

/// Why a crypto/hash boundary operation failed.
#[derive(Clone, Copy, Debug, PartialEq, Eq, Structural)]
pub enum CryptoError {
    /// The operating system's randomness source failed.
    RandomFailure,
    /// The key has the wrong length for the selected algorithm.
    InvalidKey,
    /// The AEAD backend rejected the plaintext.
    EncryptFailure,
    /// Authentication failed on decryption.
    DecryptFailure,
    /// The ciphertext is too short to hold a nonce.
    InvalidCiphertext,
    /// The compressor rejected the input.
    CompressFailure,
    /// The input is not a well-formed compressed frame.
    DecompressFailure,
    /// Key derivation rejected the password or salt.
    KeyDerivationFailure,
}

/// The supported AEAD schemes, each with its own key and nonce size,
/// selected once and carried alongside the key material.
#[derive(Clone, Copy, Debug, PartialEq, Eq, Structural)]
pub enum AeadAlgorithm {
    Aes256Gcm,
    XChaCha20Poly1305,
}

impl AeadAlgorithm {
    /// The key size of the scheme, in bytes.
    pub open spec fn spec_key_len(self) -> nat {
        match self {
            AeadAlgorithm::Aes256Gcm => 32,
            AeadAlgorithm::XChaCha20Poly1305 => 32,
        }
    }

    /// The nonce size of the scheme, in bytes.
    pub open spec fn spec_nonce_len(self) -> nat {
        match self {
            AeadAlgorithm::Aes256Gcm => 12,
            AeadAlgorithm::XChaCha20Poly1305 => 24,
        }
    }

    pub fn key_len(&self) -> (r: usize)
        ensures
            r == self.spec_key_len(),
    {
        match self {
            AeadAlgorithm::Aes256Gcm => 32,
            AeadAlgorithm::XChaCha20Poly1305 => 32,
        }
    }

    pub fn nonce_len(&self) -> (r: usize)
        ensures
            r == self.spec_nonce_len(),
    {
        match self {
            AeadAlgorithm::Aes256Gcm => 12,
            AeadAlgorithm::XChaCha20Poly1305 => 24,
        }
    }
}

/// What decryption under `alg` returns for a key, nonce and ciphertext.
pub open spec fn aead_open_spec(
    alg: AeadAlgorithm,
    key: Seq<u8>,
    nonce: Seq<u8>,
    cipher: Seq<u8>,
) -> Option<Seq<u8>> {
    match alg {
        AeadAlgorithm::Aes256Gcm => aes_gcm_open_of(key, nonce, cipher),
        AeadAlgorithm::XChaCha20Poly1305 => xchacha_open_of(key, nonce, cipher),
    }
}

/// What decryption returns for a sealed payload laid out as
/// `nonce || ciphertext`.
pub open spec fn sealed_open(alg: AeadAlgorithm, key: Seq<u8>, payload: Seq<u8>) -> Option<
    Seq<u8>,
> {
    let nl = alg.spec_nonce_len();
    if payload.len() >= nl {
        aead_open_spec(alg, key, payload.take(nl as int), payload.skip(nl as int))
    } else {
        None
    }
}

/// What `Crypto::decrypt` returns for a key and a sealed payload.
pub open spec fn decrypt_spec(alg: AeadAlgorithm, key: Seq<u8>, data: Seq<u8>) -> Result<
    Seq<u8>,
    CryptoError,
> {
    if data.len() < alg.spec_nonce_len() {
        Err(CryptoError::InvalidCiphertext)
    } else if key.len() != alg.spec_key_len() {
        Err(CryptoError::InvalidKey)
    } else {
        match sealed_open(alg, key, data) {
            Some(p) => Ok(p),
            None => Err(CryptoError::DecryptFailure),
        }
    }
}

/// Relies on rand's `OsRng::try_fill_bytes`: fills a fresh buffer of length
/// `n` from the operating system's randomness source.  Nothing is assumed of
/// the bytes themselves.
#[verifier::external_body]
fn fill_random(n: usize) -> (r: Result<Vec<u8>, CryptoError>)
    ensures
        r matches Ok(v) ==> v@.len() == n,
{
    let mut buf = vec![0u8; n];
    match rand::rngs::OsRng.try_fill_bytes(&mut buf) {
        Ok(()) => Ok(buf),
        Err(_) => Err(CryptoError::RandomFailure),
    }
}

/// Relies on `blake3::hash` and `Hash::to_hex`: a 32-byte digest of the
/// input, rendered as 64 lowercase hex characters, depending on the input
/// bytes alone.
#[verifier::external_body]
pub(crate) fn blake3_hex(data: &Vec<u8>) -> (r: String)
    ensures
        r@ == digest_of(data@),
        r@.len() == 64,
        r.is_ascii(),
{
    blake3::hash(data.as_slice()).to_hex().to_string()
}

/// Relies on aes_gcm's `Aes256Gcm` (`KeyInit::new_from_slice` and
/// `Aead::encrypt`): seals `data` under a 32-byte key and a 12-byte nonce;
/// decrypting the result with the same key and nonce yields `data` again.
#[verifier::external_body]
fn aes_gcm_seal(key: &Vec<u8>, nonce: &Vec<u8>, data: &Vec<u8>) -> (r: Result<Vec<u8>, CryptoError>)
    requires
        nonce@.len() == 12,
    ensures
        r matches Ok(c) ==> key@.len() == 32 && aes_gcm_open_of(key@, nonce@, c@) == Some(data@),
{
    let cipher = match aes_gcm::Aes256Gcm::new_from_slice(key.as_slice()) {
        Ok(c) => c,
        Err(_) => return Err(CryptoError::InvalidKey),
    };
    let n = aes_gcm::Nonce::from_slice(nonce.as_slice());
    match aes_gcm::aead::Aead::encrypt(&cipher, n, data.as_slice()) {
        Ok(ct) => Ok(ct),
        Err(_) => Err(CryptoError::EncryptFailure),
    }
}

/// Relies on aes_gcm's `Aes256Gcm` (`KeyInit::new_from_slice` and
/// `Aead::decrypt`): opening is a deterministic function of key, nonce and
/// ciphertext; it returns the plaintext exactly when authentication
/// succeeds, and fails on a key of the wrong length.
#[verifier::external_body]
fn aes_gcm_open(key: &Vec<u8>, nonce: &Vec<u8>, cipher: &Vec<u8>) -> (r: Result<
    Vec<u8>,
    CryptoError,
>)
    requires
        nonce@.len() == 12,
    ensures
        match r {
            Ok(p) => key@.len() == 32 && aes_gcm_open_of(key@, nonce@, cipher@) == Some(p@),
            Err(e) => (e == CryptoError::InvalidKey && key@.len() != 32) || (e
                == CryptoError::DecryptFailure && key@.len() == 32 && aes_gcm_open_of(
                key@,
                nonce@,
                cipher@,
            ) is None),
        },
{
    let c = match aes_gcm::Aes256Gcm::new_from_slice(key.as_slice()) {
        Ok(c) => c,
        Err(_) => return Err(CryptoError::InvalidKey),
    };
    let n = aes_gcm::Nonce::from_slice(nonce.as_slice());
    match aes_gcm::aead::Aead::decrypt(&c, n, cipher.as_slice()) {
        Ok(p) => Ok(p),
        Err(_) => Err(CryptoError::DecryptFailure),
    }
}

/// Relies on chacha20poly1305's `XChaCha20Poly1305`
/// (`KeyInit::new_from_slice` and `Aead::encrypt`): seals `data` under a
/// 32-byte key and a 24-byte nonce; decrypting the result with the same key
/// and nonce yields `data` again.
#[verifier::external_body]
fn xchacha_seal(key: &Vec<u8>, nonce: &Vec<u8>, data: &Vec<u8>) -> (r: Result<Vec<u8>, CryptoError>)
    requires
        nonce@.len() == 24,
    ensures
        r matches Ok(c) ==> key@.len() == 32 && xchacha_open_of(key@, nonce@, c@) == Some(data@),
{
    let cipher = match chacha20poly1305::XChaCha20Poly1305::new_from_slice(key.as_slice()) {
        Ok(c) => c,
        Err(_) => return Err(CryptoError::InvalidKey),
    };
    let n = chacha20poly1305::XNonce::from_slice(nonce.as_slice());
    match chacha20poly1305::aead::Aead::encrypt(&cipher, n, data.as_slice()) {
        Ok(ct) => Ok(ct),
        Err(_) => Err(CryptoError::EncryptFailure),
    }
}

/// Relies on chacha20poly1305's `XChaCha20Poly1305`
/// (`KeyInit::new_from_slice` and `Aead::decrypt`): opening is a
/// deterministic function of key, nonce and ciphertext; it returns the
/// plaintext exactly when authentication succeeds, and fails on a key of
/// the wrong length.
#[verifier::external_body]
fn xchacha_open(key: &Vec<u8>, nonce: &Vec<u8>, cipher: &Vec<u8>) -> (r: Result<
    Vec<u8>,
    CryptoError,
>)
    requires
        nonce@.len() == 24,
    ensures
        match r {
            Ok(p) => key@.len() == 32 && xchacha_open_of(key@, nonce@, cipher@) == Some(p@),
            Err(e) => (e == CryptoError::InvalidKey && key@.len() != 32) || (e
                == CryptoError::DecryptFailure && key@.len() == 32 && xchacha_open_of(
                key@,
                nonce@,
                cipher@,
            ) is None),
        },
{
    let c = match chacha20poly1305::XChaCha20Poly1305::new_from_slice(key.as_slice()) {
        Ok(c) => c,
        Err(_) => return Err(CryptoError::InvalidKey),
    };
    let n = chacha20poly1305::XNonce::from_slice(nonce.as_slice());
    match chacha20poly1305::aead::Aead::decrypt(&c, n, cipher.as_slice()) {
        Ok(p) => Ok(p),
        Err(_) => Err(CryptoError::DecryptFailure),
    }
}

/// Relies on `zstd::encode_all` at level 3: the output is a frame that
/// `zstd::decode_all` decodes back to the input.
#[verifier::external_body]
pub(crate) fn zstd_compress(data: &Vec<u8>) -> (r: Result<Vec<u8>, CryptoError>)
    ensures
        r matches Ok(c) ==> decompress_of(c@) == Some(data@),
{
    match zstd::encode_all(data.as_slice(), 3) {
        Ok(c) => Ok(c),
        Err(_) => Err(CryptoError::CompressFailure),
    }
}

/// Relies on `zstd::decode_all`: a deterministic function of the input that
/// decodes a well-formed frame and rejects anything else.
#[verifier::external_body]
pub(crate) fn zstd_decompress(data: &Vec<u8>) -> (r: Result<Vec<u8>, CryptoError>)
    ensures
        match r {
            Ok(p) => decompress_of(data@) == Some(p@),
            Err(_) => decompress_of(data@) is None,
        },
{
    match zstd::decode_all(data.as_slice()) {
        Ok(p) => Ok(p),
        Err(_) => Err(CryptoError::DecompressFailure),
    }
}

/// Relies on argon2's `Argon2::hash_password` with default parameters
/// (salt carried via `SaltString::encode_b64`): a deterministic function of
/// password and salt whose output is 32 bytes.
#[verifier::external_body]
fn argon2_derive(password: &str, salt: &Vec<u8>) -> (r: Result<Vec<u8>, CryptoError>)
    ensures
        r matches Ok(k) ==> k@ == derived_key_of(password@, salt@) && k@.len() == 32,
{
    let salt_string = match argon2::password_hash::SaltString::encode_b64(salt.as_slice()) {
        Ok(s) => s,
        Err(_) => return Err(CryptoError::KeyDerivationFailure),
    };
    let hashed = match argon2::Argon2::default().hash_password(password.as_bytes(), &salt_string) {
        Ok(h) => h,
        Err(_) => return Err(CryptoError::KeyDerivationFailure),
    };
    match hashed.hash {
        Some(out) => Ok(out.as_bytes().to_vec()),
        None => Err(CryptoError::KeyDerivationFailure),
    }
}

/// Relies on base64's standard-alphabet engine (`Engine::encode`): four
/// output characters for every three input bytes, padded.
#[verifier::external_body]
fn b64_encode(data: &Vec<u8>) -> (r: String)
    ensures
        r@ == b64_of(data@),
        r@.len() == 4 * ((data@.len() + 2) / 3),
{
    base64::engine::general_purpose::STANDARD.encode(data.as_slice())
}

/// Concatenation of two byte vectors.
pub fn concat_bytes(a: &Vec<u8>, b: &Vec<u8>) -> (r: Vec<u8>)
    ensures
        r@ =~= a@ + b@,
{
    let mut r: Vec<u8> = Vec::new();
    let mut i: usize = 0;
    while i < a.len()
        invariant
            i <= a@.len(),
            r@ =~= a@.take(i as int),
        decreases a@.len() - i,
    {
        r.push(a[i]);
        i = i + 1;
    }
    let mut j: usize = 0;
    while j < b.len()
        invariant
            j <= b@.len(),
            r@ =~= a@ + b@.take(j as int),
        decreases b@.len() - j,
    {
        r.push(b[j]);
        j = j + 1;
    }
    r
}

/// A nonce holder that yields its nonce exactly once, enforcing the
/// single-use discipline that AEAD nonces demand.
pub struct OneNonceSequence {
    nonce: Option<Vec<u8>>,
}

impl View for OneNonceSequence {
    type V = Option<Seq<u8>>;

    closed spec fn view(&self) -> Option<Seq<u8>> {
        match self.nonce {
            Some(ref n) => Some(n@),
            None => None,
        }
    }
}

impl OneNonceSequence {
    pub fn new(nonce: Vec<u8>) -> (r: Self)
        ensures
            r@ == Some(nonce@),
    {
        OneNonceSequence { nonce: Some(nonce) }
    }

    /// Yields the held nonce and empties the holder, so that a second call
    /// fails rather than reuse a nonce.
    pub fn advance(&mut self) -> (r: Result<Vec<u8>, CryptoError>)
        ensures
            match old(self)@ {
                Some(n) => r matches Ok(v) && v@ == n && final(self)@ is None,
                None => r matches Err(e) && e == CryptoError::RandomFailure && final(self)@ is None,
            },
    {
        let taken = self.nonce.take();
        match taken {
            Some(n) => Ok(n),
            None => Err(CryptoError::RandomFailure),
        }
    }
}

/// The crypto boundary as a value: an AEAD scheme tag, fixed at creation
/// and carried beside every key it generates.
pub struct Crypto {
    algorithm: AeadAlgorithm,
}

impl Crypto {
    pub closed spec fn spec_algorithm(self) -> AeadAlgorithm {
        self.algorithm
    }

    /// A boundary using AES-256-GCM, the default scheme.
    pub fn new() -> (r: Self)
        ensures
            r.spec_algorithm() == AeadAlgorithm::Aes256Gcm,
    {
        Crypto { algorithm: AeadAlgorithm::Aes256Gcm }
    }

    /// A boundary using the given AEAD scheme.
    pub fn with_algorithm(algorithm: AeadAlgorithm) -> (r: Self)
        ensures
            r.spec_algorithm() == algorithm,
    {
        Crypto { algorithm }
    }

    pub fn algorithm(&self) -> (r: AeadAlgorithm)
        ensures
            r == self.spec_algorithm(),
    {
        self.algorithm
    }

    /// A fresh random key of the scheme's key size.
    pub fn generate_key(&self) -> (r: Result<Vec<u8>, CryptoError>)
        ensures
            r matches Ok(k) ==> k@.len() == self.spec_algorithm().spec_key_len(),
    {
        fill_random(self.algorithm.key_len())
    }

    /// Seals `data` under `key` with a fresh random nonce; the result is
    /// `nonce || ciphertext`, and decrypting it with the same key yields
    /// `data` again.
    pub fn encrypt(&self, data: &Vec<u8>, key: &Vec<u8>) -> (r: Result<Vec<u8>, CryptoError>)
        ensures
            r matches Ok(c) ==> decrypt_spec(self.spec_algorithm(), key@, c@) == Ok::<
                Seq<u8>,
                CryptoError,
            >(data@),
            key@.len() != self.spec_algorithm().spec_key_len() ==> r is Err,
    {
        let nonce_bytes = match fill_random(self.algorithm.nonce_len()) {
            Ok(n) => n,
            Err(e) => return Err(e),
        };
        let mut seq = OneNonceSequence::new(nonce_bytes);
        let nonce = match seq.advance() {
            Ok(n) => n,
            Err(e) => return Err(e),
        };
        let ciphertext = match self.algorithm {
            AeadAlgorithm::Aes256Gcm => aes_gcm_seal(key, &nonce, data),
            AeadAlgorithm::XChaCha20Poly1305 => xchacha_seal(key, &nonce, data),
        };
        match ciphertext {
            Ok(ct) => {
                let out = concat_bytes(&nonce, &ct);
                proof {
                    let alg = self.algorithm;
                    let nl = alg.spec_nonce_len();
                    assert(out@.take(nl as int) =~= nonce@);
                    assert(out@.skip(nl as int) =~= ct@);
                }
                Ok(out)
            },
            Err(e) => Err(e),
        }
    }

    /// Opens a payload laid out as `nonce || ciphertext`: returns the
    /// plaintext exactly when the payload is long enough, the key has the
    /// scheme's key size and authentication succeeds, and otherwise the
    /// error naming the first of those that failed.
    pub fn decrypt(&self, data: &Vec<u8>, key: &Vec<u8>) -> (r: Result<Vec<u8>, CryptoError>)
        ensures
            ({
                let s = decrypt_spec(self.spec_algorithm(), key@, data@);
                match r {
                    Ok(p) => s == Ok::<Seq<u8>, CryptoError>(p@),
                    Err(e) => s == Err::<Seq<u8>, CryptoError>(e),
                }
            }),
    {
        let nl = self.algorithm.nonce_len();
        if data.len() < nl {
            return Err(CryptoError::InvalidCiphertext);
        }
        let nonce = vstd::slice::slice_to_vec(vstd::slice::slice_subrange(data.as_slice(), 0, nl));
        let ct = vstd::slice::slice_to_vec(
            vstd::slice::slice_subrange(data.as_slice(), nl, data.len()),
        );
        proof {
            assert(nonce@ =~= data@.take(nl as int));
            assert(ct@ =~= data@.skip(nl as int));
        }
        let opened = match self.algorithm {
            AeadAlgorithm::Aes256Gcm => aes_gcm_open(key, &nonce, &ct),
            AeadAlgorithm::XChaCha20Poly1305 => xchacha_open(key, &nonce, &ct),
        };
        match opened {
            Ok(p) => Ok(p),
            Err(e) => Err(e),
        }
    }

    /// The content digest of `data`, as 64 hex characters.
    pub fn hash(&self, data: &Vec<u8>) -> (r: String)
        ensures
            r@ == digest_of(data@),
            r@.len() == 64,
            r.is_ascii(),
    {
        blake3_hex(data)
    }

    /// A key derived from a password and a salt; deterministic in both.
    pub fn derive_key(&self, password: &str, salt: &Vec<u8>) -> (r: Result<Vec<u8>, CryptoError>)
        ensures
            r matches Ok(k) ==> k@ == derived_key_of(password@, salt@) && k@.len() == 32,
    {
        argon2_derive(password, salt)
    }
}

/// A payload sealed for transport: the ciphertext, its base64 rendering,
/// and the single-use key and nonce that open it.
pub struct EncryptedPayload {
    pub ciphertext: Vec<u8>,
    pub ciphertext_b64: String,
    pub key: Vec<u8>,
    pub nonce: Vec<u8>,
}

/// Seals `data` under a fresh XChaCha20-Poly1305 key and nonce and renders
/// the ciphertext as base64; key and nonce are returned beside it, since
/// without them the ciphertext can never be opened again.
pub fn encrypt_payload(data: &Vec<u8>) -> (r: Result<EncryptedPayload, CryptoError>)
    ensures
        r matches Ok(p) ==> xchacha_open_of(p.key@, p.nonce@, p.ciphertext@) == Some(data@)
            && p.ciphertext_b64@ == b64_of(p.ciphertext@),
{
    let crypto = Crypto::with_algorithm(AeadAlgorithm::XChaCha20Poly1305);
    let key = match crypto.generate_key() {
        Ok(k) => k,
        Err(e) => return Err(e),
    };
    let nonce = match fill_random(24) {
        Ok(n) => n,
        Err(e) => return Err(e),
    };
    let ciphertext = match xchacha_seal(&key, &nonce, data) {
        Ok(c) => c,
        Err(e) => return Err(e),
    };
    let ciphertext_b64 = b64_encode(&ciphertext);
    Ok(EncryptedPayload { ciphertext, ciphertext_b64, key, nonce })
}

} // verus!
