//! The failures that the store reports to its callers.

use vstd::prelude::*;

verus! {

/// Why an edit of the tree was refused.
#[derive(Debug, Clone, Copy, PartialEq, Eq, Structural)]
pub enum ModelsError {
    /// The record already holds a field of that name.
    FieldAlreadyExist,
    /// The file to attach could not be opened or read.
    FileReadError,
    /// No file name, or no extension, could be taken from the path.
    GetFilenameError,
    /// No subfolder stands at the given index.
    IndexOutOfRange,
}

/// What each refusal says to the user.
pub open spec fn models_message(e: ModelsError) -> Seq<char> {
    match e {
        ModelsError::FieldAlreadyExist => "Field already exists"@,
        ModelsError::FileReadError => "Error opening file"@,
        ModelsError::GetFilenameError => "Error retrieving filename"@,
        ModelsError::IndexOutOfRange => "No subfolder at that index"@,
    }
}

impl ModelsError {
    pub fn message(&self) -> (r: String)
        ensures
            r@ == models_message(*self),
    {
        match self {
            ModelsError::FieldAlreadyExist => "Field already exists".to_string(),
            ModelsError::FileReadError => "Error opening file".to_string(),
            ModelsError::GetFilenameError => "Error retrieving filename".to_string(),
            ModelsError::IndexOutOfRange => "No subfolder at that index".to_string(),
        }
    }
}

/// Why a sealed container could not be opened, or a payload not sealed.
#[derive(Debug, Clone, Copy, PartialEq, Eq, Structural)]
pub enum CryptoError {
    /// The passphrase is wrong or the container was altered; the two are
    /// deliberately not told apart.
    WrongPassphraseOrCorruptedData,
    /// The bytes are not a container at all.
    MalformedBlob,
    /// The key derivation asks for more work than this machine accepts.
    KdfFailure,
    /// The payload could not be sealed.
    EncryptionFailed,
}

/// The bytes are not the layout of a folder tree: cut short, framed
/// inconsistently, followed by stray bytes, or naming a field twice.
#[derive(Debug, Clone, Copy, PartialEq, Eq, Structural)]
pub struct SerializationError;

/// Why loading or saving the store failed.
#[derive(Debug, Clone, Copy, PartialEq, Eq, Structural)]
pub enum StoreError {
    /// No container exists at the path.
    NotFound,
    /// The container could not be read or written.
    Io,
    /// The container could not be opened or sealed.
    Crypto(CryptoError),
    /// The opened payload is not the layout of a folder tree.
    Serialization,
}

} // verus!
