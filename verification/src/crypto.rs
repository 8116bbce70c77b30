//! The credential authority: the server's long-lived asymmetric identity and
//! the handshake cryptography that wraps it for each client.
//!
//! A credential is an envelope: a fresh 32-byte symmetric key, wrapped with
//! the recipient's public key under PKCS1 padding, beside the payload
//! encrypted under that symmetric key with a 256-bit CBC cipher that uses no
//! per-message initialization vector (the IV is the fixed all-zero block).
//! That scheme is deterministic and below the modern security bar; it is the
//! documented wire behaviour and is kept, not silently strengthened.

use vstd::prelude::*;

use crate::SYMM_KEY_LEN;

verus! {

/// An error on the cryptographic path. During the handshake such an error
/// terminates the connection; on the diagnostic path it is swallowed.
#[derive(Clone, Copy, PartialEq, Eq, Structural, Debug)]
pub enum CryptoError {
    /// The supplied key bytes do not parse as a key of the expected form.
    MalformedKey,
    /// Key generation or encryption failed in the cryptography provider.
    EncryptFailure,
    /// Decryption failed: wrong key, wrong padding or damaged ciphertext.
    DecryptFailure,
    /// The random generator could not produce key bytes.
    RandFailure,
}

/// The DER bytes of the public half of the RSA keypair whose private half is
/// `priv_der`.
pub uninterp spec fn rsa_pub_of(priv_der: Seq<u8>) -> Seq<u8>;

/// Whether `priv_der` parses as a valid DER-encoded RSA private key.
pub uninterp spec fn rsa_priv_wf(priv_der: Seq<u8>) -> bool;

/// Whether `der` parses as a DER-encoded RSA public key.
pub uninterp spec fn rsa_pub_parses(der: Seq<u8>) -> bool;

/// What RSA PKCS1 decryption with the private key `priv_der` returns on
/// `ct`: `None` where the key does not parse or decryption fails.
pub uninterp spec fn rsa_dec(priv_der: Seq<u8>, ct: Seq<u8>) -> Option<Seq<u8>>;

/// The ciphertext of `data` under `key` with the no-IV 256-bit CBC cipher.
pub uninterp spec fn aes_enc(key: Seq<u8>, data: Seq<u8>) -> Seq<u8>;

/// What no-IV 256-bit CBC decryption with `key` returns on `ct`: `None`
/// where the key length is wrong or the padding check fails.
pub uninterp spec fn aes_dec(key: Seq<u8>, ct: Seq<u8>) -> Option<Seq<u8>>;

/// Relies on openssl's `Rsa::generate`, `Rsa::private_key_to_der` and
/// `Rsa::public_key_to_der`: a fresh 2048-bit keypair in DER form. The key is
/// random; only the tie between the two halves is promised.
#[verifier::external_body]
fn rsa_generate_der() -> (r: Result<(Vec<u8>, Vec<u8>), CryptoError>)
    ensures
        r matches Ok(p) ==> rsa_priv_wf(p.0@) && p.1@ == rsa_pub_of(p.0@),
{
    let rsa = match openssl::rsa::Rsa::generate(2048) {
        Ok(r) => r,
        Err(_) => return Err(CryptoError::EncryptFailure),
    };
    let priv_der = match rsa.private_key_to_der() {
        Ok(d) => d,
        Err(_) => return Err(CryptoError::EncryptFailure),
    };
    let pub_der = match rsa.public_key_to_der() {
        Ok(d) => d,
        Err(_) => return Err(CryptoError::EncryptFailure),
    };
    Ok((priv_der, pub_der))
}

/// Relies on openssl's `Rsa::public_key_from_der` and `Rsa::public_encrypt`
/// with PKCS1 padding: the padding is randomized, so nothing is promised of
/// the ciphertext bytes, only that any valid private key whose public half is
/// `pub_der` decrypts them back to `data`. A key that does not parse is
/// reported as malformed. `public_encrypt` asserts that its input fits a C
/// `int`, so `data` is bounded here rather than fed to that assert.
#[verifier::external_body]
fn rsa_encrypt_pkcs1(pub_der: &Vec<u8>, data: &Vec<u8>) -> (r: Result<Vec<u8>, CryptoError>)
    requires
        data@.len() <= i32::MAX as int,
    ensures
        r is Ok ==> rsa_pub_parses(pub_der@),
        r matches Ok(ct) ==> forall|prv: Seq<u8>|
            rsa_priv_wf(prv) && rsa_pub_of(prv) == pub_der@ ==> #[trigger] rsa_dec(prv, ct@)
                == Some(data@),
{
    let rsa = match openssl::rsa::Rsa::public_key_from_der(pub_der) {
        Ok(r) => r,
        Err(_) => return Err(CryptoError::MalformedKey),
    };
    let mut out = vec![0u8; rsa.size() as usize];
    let n = match rsa.public_encrypt(data, &mut out, openssl::rsa::Padding::PKCS1) {
        Ok(n) => n,
        Err(_) => return Err(CryptoError::EncryptFailure),
    };
    out.truncate(n);
    Ok(out)
}

/// Relies on openssl's `Rsa::private_key_from_der` and `Rsa::private_decrypt`
/// with PKCS1 padding: the outcome is a function of the key bytes and the
/// ciphertext alone. `private_decrypt` asserts that its input fits a C `int`,
/// so `ct` is bounded here; the plaintext fits the modulus size, itself a C
/// `int`.
#[verifier::external_body]
fn rsa_decrypt_pkcs1(priv_der: &Vec<u8>, ct: &Vec<u8>) -> (r: Result<Vec<u8>, CryptoError>)
    requires
        ct@.len() <= i32::MAX as int,
    ensures
        r matches Ok(p) ==> rsa_dec(priv_der@, ct@) == Some(p@) && p@.len() <= i32::MAX as int,
        r is Err ==> rsa_dec(priv_der@, ct@) is None,
{
    let rsa = match openssl::rsa::Rsa::private_key_from_der(priv_der) {
        Ok(r) => r,
        Err(_) => return Err(CryptoError::MalformedKey),
    };
    let mut out = vec![0u8; rsa.size() as usize];
    let n = match rsa.private_decrypt(ct, &mut out, openssl::rsa::Padding::PKCS1) {
        Ok(n) => n,
        Err(_) => return Err(CryptoError::DecryptFailure),
    };
    out.truncate(n);
    Ok(out)
}

/// Relies on openssl's `symm::encrypt` with `Cipher::aes_256_cbc` and the
/// all-zero initialization vector (the deterministic value an uninitialized
/// cipher context holds; openssl refuses `None` for CBC): deterministic in
/// key and plaintext, and decrypting with the same key gives the plaintext
/// back. The cipher context unwraps C-`int` conversions of the key and data
/// lengths, so both are bounded here.
#[verifier::external_body]
fn aes_encrypt(key: &Vec<u8>, data: &Vec<u8>) -> (r: Result<Vec<u8>, CryptoError>)
    requires
        key@.len() <= i32::MAX as int,
        data@.len() <= i32::MAX as int,
    ensures
        r matches Ok(ct) ==> ct@ == aes_enc(key@, data@) && aes_dec(key@, ct@) == Some(data@),
{
    let iv = [0u8; 16];
    match openssl::symm::encrypt(openssl::symm::Cipher::aes_256_cbc(), key, Some(&iv), data) {
        Ok(ct) => Ok(ct),
        Err(_) => Err(CryptoError::EncryptFailure),
    }
}

/// Relies on openssl's `symm::decrypt` with `Cipher::aes_256_cbc` and the
/// all-zero initialization vector: the outcome is a function of the key and
/// the ciphertext alone. The cipher context unwraps C-`int` conversions of
/// the key and data lengths, so both are bounded here.
#[verifier::external_body]
fn aes_decrypt(key: &Vec<u8>, ct: &Vec<u8>) -> (r: Result<Vec<u8>, CryptoError>)
    requires
        key@.len() <= i32::MAX as int,
        ct@.len() <= i32::MAX as int,
    ensures
        r matches Ok(p) ==> aes_dec(key@, ct@) == Some(p@),
        r is Err ==> aes_dec(key@, ct@) is None,
{
    let iv = [0u8; 16];
    match openssl::symm::decrypt(openssl::symm::Cipher::aes_256_cbc(), key, Some(&iv), ct) {
        Ok(p) => Ok(p),
        Err(_) => Err(CryptoError::DecryptFailure),
    }
}

/// Relies on openssl's `rand_bytes`: a buffer of `prec` random bytes. Only
/// the length is promised. `rand_bytes` asserts that the buffer fits a C
/// `int`, so `prec` is bounded here.
#[verifier::external_body]
fn gen_rand_symm(prec: usize) -> (r: Result<Vec<u8>, CryptoError>)
    requires
        prec <= i32::MAX as usize,
    ensures
        r matches Ok(k) ==> k@.len() == prec,
{
    let mut key = vec![0u8; prec];
    match openssl::rand::rand_bytes(&mut key) {
        Ok(()) => Ok(key),
        Err(_) => Err(CryptoError::RandFailure),
    }
}

/// The envelope relation: `wrapped_key` holds a 32-byte symmetric key sealed
/// for whoever owns the private half of `recipient_pub`, and `ciphertext` is
/// `payload` under that symmetric key with the no-IV CBC cipher.
pub open spec fn sealed_for(
    recipient_pub: Seq<u8>,
    wrapped_key: Seq<u8>,
    ciphertext: Seq<u8>,
    payload: Seq<u8>,
) -> bool {
    exists|k: Seq<u8>|
        #[trigger] aes_dec(k, ciphertext) == Some(payload) && k.len() == SYMM_KEY_LEN
            && (forall|prv: Seq<u8>|
            rsa_priv_wf(prv) && rsa_pub_of(prv) == recipient_pub ==> #[trigger] rsa_dec(
                prv,
                wrapped_key,
            ) == Some(k))
}

/// Seals `payload` for the holder of the private key matching
/// `recipient_pub`: generates a fresh 32-byte symmetric key, wraps it with
/// the recipient's public key (PKCS1), and encrypts the payload under it with
/// the no-IV CBC cipher. A recipient key that does not parse is an error, as
/// is a payload beyond what the cipher's C interface can take.
pub fn seal(recipient_pub: &Vec<u8>, payload: &Vec<u8>) -> (r: Result<
    (Vec<u8>, Vec<u8>),
    CryptoError,
>)
    ensures
        r matches Ok(p) ==> sealed_for(recipient_pub@, p.0@, p.1@, payload@) && rsa_pub_parses(
            recipient_pub@,
        ),
        !rsa_pub_parses(recipient_pub@) ==> r is Err,
{
    if payload.len() > (i32::MAX as usize) {
        return Err(CryptoError::EncryptFailure);
    }
    let symm = gen_rand_symm(SYMM_KEY_LEN)?;
    let wrapped = rsa_encrypt_pkcs1(recipient_pub, &symm)?;
    let ct = aes_encrypt(&symm, payload)?;
    proof {
        assert(aes_dec(symm@, ct@) == Some(payload@));
        assert(sealed_for(recipient_pub@, wrapped@, ct@, payload@));
    }
    Ok((wrapped, ct))
}

/// Opens an envelope with the given private key: unwraps the symmetric key
/// (PKCS1), then decrypts the ciphertext under it with the no-IV CBC cipher.
/// The length bounds are machine limits: the cryptography provider's C
/// interface takes at most `i32::MAX` bytes at a time.
pub fn open_envelope(priv_der: &Vec<u8>, wrapped_key: &Vec<u8>, ciphertext: &Vec<u8>) -> (r: Result<
    Vec<u8>,
    CryptoError,
>)
    requires
        wrapped_key@.len() <= i32::MAX as int,
        ciphertext@.len() <= i32::MAX as int,
    ensures
        r matches Ok(p) ==> (rsa_dec(priv_der@, wrapped_key@) matches Some(k) && aes_dec(
            k,
            ciphertext@,
        ) == Some(p@)),
        r is Err ==> rsa_dec(priv_der@, wrapped_key@) is None || aes_dec(
            rsa_dec(priv_der@, wrapped_key@).unwrap(),
            ciphertext@,
        ) is None,
{
    let k = rsa_decrypt_pkcs1(priv_der, wrapped_key)?;
    let p = aes_decrypt(&k, ciphertext)?;
    Ok(p)
}

/// The server's long-lived asymmetric identity: one 2048-bit keypair,
/// generated at startup, shared read-only by every session, never rotated.
pub struct Identity {
    /// The private key, DER-encoded.
    pub priv_der: Vec<u8>,
    /// The matching public key, DER-encoded.
    pub pub_der: Vec<u8>,
}

impl Identity {
    /// The two halves belong to one valid keypair.
    pub open spec fn wf(&self) -> bool {
        rsa_priv_wf(self.priv_der@) && self.pub_der@ == rsa_pub_of(self.priv_der@)
    }

    /// Generates a fresh identity.
    pub fn generate() -> (r: Result<Identity, CryptoError>)
        ensures
            r matches Ok(id) ==> id.wf(),
    {
        let (priv_der, pub_der) = rsa_generate_der()?;
        Ok(Identity { priv_der, pub_der })
    }

    /// Issues a handshake credential for a client public key: the pair of
    /// `wrapped_credential` (the fresh symmetric key under the client's
    /// public key) and `wrapped_identity` (this server's private-key bytes
    /// under the symmetric key).
    pub fn issue_credential(&self, client_pub: &Vec<u8>) -> (r: Result<
        (Vec<u8>, Vec<u8>),
        CryptoError,
    >)
        ensures
            r matches Ok(p) ==> sealed_for(client_pub@, p.0@, p.1@, self.priv_der@)
                && rsa_pub_parses(client_pub@),
            !rsa_pub_parses(client_pub@) ==> r is Err,
    {
        seal(client_pub, &self.priv_der)
    }

    /// Decrypts an inbound envelope with the server's own private key. Used
    /// only by the optional diagnostic path, never for relaying. The length
    /// bounds are machine limits of the provider's C interface.
    pub fn unwrap_incoming(&self, wrapped_key: &Vec<u8>, ciphertext: &Vec<u8>) -> (r: Result<
        Vec<u8>,
        CryptoError,
    >)
        requires
            wrapped_key@.len() <= i32::MAX as int,
            ciphertext@.len() <= i32::MAX as int,
        ensures
            r matches Ok(p) ==> (rsa_dec(self.priv_der@, wrapped_key@) matches Some(k) && aes_dec(
                k,
                ciphertext@,
            ) == Some(p@)),
            r is Err ==> rsa_dec(self.priv_der@, wrapped_key@) is None || aes_dec(
                rsa_dec(self.priv_der@, wrapped_key@).unwrap(),
                ciphertext@,
            ) is None,
    {
        open_envelope(&self.priv_der, wrapped_key, ciphertext)
    }
}

/// The credential round-trip law: whoever holds a valid private key whose
/// public half an envelope was sealed for recovers exactly the sealed
/// payload, by unwrapping the symmetric key and then the ciphertext.
pub proof fn lemma_seal_round_trip(
    recipient_pub: Seq<u8>,
    prv: Seq<u8>,
    wrapped_key: Seq<u8>,
    ciphertext: Seq<u8>,
    payload: Seq<u8>,
)
    requires
        sealed_for(recipient_pub, wrapped_key, ciphertext, payload),
        rsa_priv_wf(prv),
        rsa_pub_of(prv) == recipient_pub,
    ensures
        rsa_dec(prv, wrapped_key) is Some,
        aes_dec(rsa_dec(prv, wrapped_key).unwrap(), ciphertext) == Some(payload),
{
    let k = choose|k: Seq<u8>|
        #[trigger] aes_dec(k, ciphertext) == Some(payload) && k.len() == SYMM_KEY_LEN && (
        forall|prv2: Seq<u8>|
            rsa_priv_wf(prv2) && rsa_pub_of(prv2) == recipient_pub ==> #[trigger] rsa_dec(
                prv2,
                wrapped_key,
            ) == Some(k));
    assert(rsa_dec(prv, wrapped_key) == Some(k));
}

} // verus!
