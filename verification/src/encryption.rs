//! Sealing the container with a passphrase. The cipher and the key
//! derivation are those of the `age` crate; what this module proves is
//! what the store does with their outcome.

use crate::codec::{decode, decoded, enc_folder, encode, folder_valid, lemma_decode_encode};
use crate::errors::{CryptoError, StoreError};
use crate::models::{Folder, FolderModel};
use vstd::prelude::*;

verus! {

#[verifier::external_type_specification]
#[verifier::external_body]
pub struct ExDecryptError(age::DecryptError);

#[verifier::external_type_specification]
#[verifier::external_body]
pub struct ExEncryptError(age::EncryptError);

#[verifier::external_type_specification]
#[verifier::external_body]
#[verifier::reject_recursive_types(R)]
pub struct ExDecryptor<R>(age::Decryptor<R>);

/// The ways in which `age` refuses to open a container.
#[derive(Debug, Clone, Copy, PartialEq, Eq, Structural)]
pub enum DecryptFault {
    /// The passphrase does not unlock the file key.
    DecryptionFailed,
    /// The header asks for more key-derivation work than is accepted here.
    ExcessiveWork,
    /// The bytes end, or cannot be read, before the header and the nonce
    /// are complete.
    HeaderRead,
    /// The header is not well formed.
    InvalidHeader,
    /// The header's authentication code does not match.
    InvalidMac,
    /// The payload ended early, could not be read or failed its
    /// authentication.
    Io,
    /// A key could not be decrypted.
    KeyDecryptionFailed,
    /// The container was not sealed with a passphrase.
    NoMatchingKeys,
    /// The bytes are not in a known container format.
    UnknownFormat,
}

/// The error that the store reports for each refusal. A wrong passphrase
/// and altered bytes give the same error; bytes too short to hold the
/// header are malformed.
pub open spec fn crypto_error_of(fault: DecryptFault) -> CryptoError {
    match fault {
        DecryptFault::DecryptionFailed => CryptoError::WrongPassphraseOrCorruptedData,
        DecryptFault::ExcessiveWork => CryptoError::KdfFailure,
        DecryptFault::HeaderRead => CryptoError::MalformedBlob,
        DecryptFault::InvalidHeader => CryptoError::MalformedBlob,
        DecryptFault::InvalidMac => CryptoError::WrongPassphraseOrCorruptedData,
        DecryptFault::Io => CryptoError::WrongPassphraseOrCorruptedData,
        DecryptFault::KeyDecryptionFailed => CryptoError::WrongPassphraseOrCorruptedData,
        DecryptFault::NoMatchingKeys => CryptoError::WrongPassphraseOrCorruptedData,
        DecryptFault::UnknownFormat => CryptoError::MalformedBlob,
    }
}

pub fn classify(fault: DecryptFault) -> (e: CryptoError)
    ensures
        e == crypto_error_of(fault),
{
    match fault {
        DecryptFault::ExcessiveWork => CryptoError::KdfFailure,
        DecryptFault::HeaderRead
        | DecryptFault::InvalidHeader
        | DecryptFault::UnknownFormat => CryptoError::MalformedBlob,
        _ => CryptoError::WrongPassphraseOrCorruptedData,
    }
}

/// What opening a container gives, from what the cipher gave: its refusal
/// as the store's error, or the tree that the released payload holds.
pub open spec fn opened(outcome: Result<Seq<u8>, DecryptFault>) -> Result<FolderModel, StoreError> {
    match outcome {
        Ok(payload) => match decoded(payload) {
            Some(m) => Ok(m),
            None => Err(StoreError::Serialization),
        },
        Err(fault) => Err(StoreError::Crypto(crypto_error_of(fault))),
    }
}

/// Where the cipher releases the payload that was sealed, opening gives
/// the sealed tree back.
pub proof fn lemma_opened_sealed(m: FolderModel)
    requires
        folder_valid(m),
    ensures
        opened(Ok(enc_folder(m))) == Ok::<FolderModel, StoreError>(m),
{
    lemma_decode_encode(m);
}

/// The outcome of the cipher with the payload taken by its view.
pub open spec fn outcome_view(outcome: Result<Vec<u8>, DecryptFault>) -> Result<
    Seq<u8>,
    DecryptFault,
> {
    match outcome {
        Ok(payload) => Ok(payload@),
        Err(fault) => Err(fault),
    }
}

/// Turns the cipher's outcome into the store's: a refusal becomes the
/// matching error, a released payload is read as a folder tree.
pub fn open_payload(outcome: Result<Vec<u8>, DecryptFault>) -> (r: Result<Folder, StoreError>)
    ensures
        match r {
            Ok(folder) => opened(outcome_view(outcome)) == Ok::<FolderModel, StoreError>(folder@)
                && folder@.wf(),
            Err(e) => opened(outcome_view(outcome)) == Err::<FolderModel, StoreError>(e),
        },
{
    match outcome {
        Ok(payload) => match decode(payload.as_slice()) {
            Ok(folder) => Ok(folder),
            Err(_) => Err(StoreError::Serialization),
        },
        Err(fault) => Err(StoreError::Crypto(classify(fault))),
    }
}

/// `age::Encryptor::with_user_passphrase`, `wrap_output` and
/// `StreamWriter::finish`: seals `plaintext` under a key derived from
/// `passphrase` with a fresh salt and nonce. The bytes differ from call
/// to call, so they get no name. Claimed of every outcome: sealing with a
/// passphrase into memory has no failing path, and the container holds a
/// header, a nonce and a tag beside the payload, so it is longer. No
/// input makes the call panic; it can only where the machine's clock
/// shows no time passing while `age` measures the machine's speed.
#[verifier::external_body]
fn age_encrypt(passphrase: &String, plaintext: &Vec<u8>) -> (r: Result<Vec<u8>, age::EncryptError>)
    ensures
        r is Ok,
        r->Ok_0@.len() > plaintext@.len(),
{
    let secret = age::secrecy::Secret::new(passphrase.clone());
    let mut sealed = Vec::new();
    let mut writer = age::Encryptor::with_user_passphrase(secret).wrap_output(&mut sealed)?;
    std::io::Write::write_all(&mut writer, plaintext)?;
    writer.finish()?;
    Ok(sealed)
}

/// `age::Decryptor::new`: reads the header and the nonce of `blob`.
/// Nothing is claimed of the outcome.
#[verifier::external_body]
fn age_header<'a>(blob: &'a Vec<u8>) -> (r: Result<age::Decryptor<&'a [u8]>, age::DecryptError>) {
    age::Decryptor::new(blob.as_slice())
}

/// `PassphraseDecryptor::decrypt`, or `RecipientsDecryptor::decrypt` with
/// no identity, and reading the stream to its end: opens the payload
/// behind a header that was read. Nothing is claimed of the outcome: the
/// work factor that `age` accepts depends on the machine's speed.
#[verifier::external_body]
fn age_payload(passphrase: &String, container: age::Decryptor<&[u8]>) -> (r: Result<
    Vec<u8>,
    age::DecryptError,
>) {
    let secret = age::secrecy::Secret::new(passphrase.clone());
    let mut plain = Vec::new();
    let mut reader = match container {
        age::Decryptor::Passphrase(d) => d.decrypt(&secret, None)?,
        age::Decryptor::Recipients(d) => d.decrypt(std::iter::empty())?,
    };
    std::io::Read::read_to_end(&mut reader, &mut plain)?;
    Ok(plain)
}

/// Tells the variants of `age::DecryptError` apart.
#[verifier::external_body]
fn fault_of(e: &age::DecryptError) -> (fault: DecryptFault) {
    match e {
        age::DecryptError::DecryptionFailed => DecryptFault::DecryptionFailed,
        age::DecryptError::ExcessiveWork { .. } => DecryptFault::ExcessiveWork,
        age::DecryptError::InvalidHeader => DecryptFault::InvalidHeader,
        age::DecryptError::InvalidMac => DecryptFault::InvalidMac,
        age::DecryptError::Io(_) => DecryptFault::Io,
        age::DecryptError::KeyDecryptionFailed => DecryptFault::KeyDecryptionFailed,
        age::DecryptError::NoMatchingKeys => DecryptFault::NoMatchingKeys,
        age::DecryptError::UnknownFormat => DecryptFault::UnknownFormat,
    }
}

/// Turns a tree into a sealed container and back.
pub trait Encryptor {
    fn encrypt(&self, data: &Folder) -> (r: Result<Vec<u8>, CryptoError>);

    fn decrypt(&self, data: Vec<u8>) -> (r: Result<Folder, StoreError>);
}

/// Seals and opens containers with one passphrase.
pub struct AgeEncryptor {
    pub key: String,
}

impl AgeEncryptor {
    pub fn new(key: String) -> (r: Self)
        ensures
            r.key@ == key@,
    {
        Self { key }
    }

    /// Seals a payload. Each call draws a fresh salt and nonce, so two
    /// calls on the same payload give different bytes; every container
    /// is longer than its payload.
    pub fn encrypt_bytes(&self, plaintext: &Vec<u8>) -> (r: Result<Vec<u8>, CryptoError>)
        ensures
            r is Ok,
            r->Ok_0@.len() > plaintext@.len(),
    {
        let sealed = match age_encrypt(&self.key, plaintext) {
            Ok(bytes) => Some(bytes),
            Err(_) => None,
        };
        sealed_outcome(sealed)
    }

    /// Opens a container: the payload, or the cipher's refusal. A read
    /// that fails in the header or the nonce is told apart from one that
    /// fails in the payload. Nothing is promised of which outcome comes:
    /// the cipher decides, and the work that it accepts depends on the
    /// speed of the machine. What the store makes of each outcome is
    /// `open_payload`'s to say.
    pub fn decrypt_bytes(&self, blob: &Vec<u8>) -> (r: Result<Vec<u8>, DecryptFault>) {
        match age_header(blob) {
            Ok(container) => match age_payload(&self.key, container) {
                Ok(plain) => Ok(plain),
                Err(e) => Err(fault_of(&e)),
            },
            Err(e) => Err(header_fault(fault_of(&e))),
        }
    }

}

impl Encryptor for AgeEncryptor {
    /// Writes the tree in the container layout and seals it. The
    /// container is longer than the layout.
    fn encrypt(&self, data: &Folder) -> (r: Result<Vec<u8>, CryptoError>)
        ensures
            r is Ok,
            r->Ok_0@.len() > enc_folder(data@).len(),
    {
        let payload = encode(data);
        self.encrypt_bytes(&payload)
    }

    /// Opens a container and reads the tree in it. The error is never
    /// `NotFound` or `Io`: it says whether the cipher refused or the
    /// released payload was not a tree.
    fn decrypt(&self, data: Vec<u8>) -> (r: Result<Folder, StoreError>)
        ensures
            r is Err ==> r->Err_0 is Crypto || r->Err_0 is Serialization,
            r is Ok ==> r->Ok_0@.wf(),
    {
        let outcome = self.decrypt_bytes(&data);
        open_payload(outcome)
    }
}

/// What sealing gives, from the cipher's bytes, if it gave any: the bytes
/// as they are, or the one error of sealing.
pub fn sealed_outcome(sealed: Option<Vec<u8>>) -> (r: Result<Vec<u8>, CryptoError>)
    ensures
        match sealed {
            Some(bytes) => r == Ok::<Vec<u8>, CryptoError>(bytes),
            None => r == Err::<Vec<u8>, CryptoError>(CryptoError::EncryptionFailed),
        },
{
    match sealed {
        Some(bytes) => Ok(bytes),
        None => Err(CryptoError::EncryptionFailed),
    }
}

/// The refusal as it counts while the header and the nonce are read: a
/// failed read there is `HeaderRead`; every other refusal is itself.
pub open spec fn header_fault_of(fault: DecryptFault) -> DecryptFault {
    match fault {
        DecryptFault::Io => DecryptFault::HeaderRead,
        other => other,
    }
}

pub fn header_fault(fault: DecryptFault) -> (r: DecryptFault)
    ensures
        r == header_fault_of(fault),
{
    match fault {
        DecryptFault::Io => DecryptFault::HeaderRead,
        other => other,
    }
}

} // verus!
