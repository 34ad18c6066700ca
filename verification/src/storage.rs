//! Where the sealed container lives, and what loading and saving make of
//! what the disk gave. Reading and writing the file is the caller's part.

use crate::codec::enc_folder;
use crate::encryption::{AgeEncryptor, Encryptor};
use crate::errors::{CryptoError, StoreError};
use crate::models::{Folder, FolderModel};
use vstd::prelude::*;

verus! {

/// Why the container's bytes could not be read.
#[derive(Debug, Clone, Copy, PartialEq, Eq, Structural)]
pub enum ReadFailure {
    /// Nothing exists at the path.
    NotFound,
    /// The file exists and could not be read.
    Other,
}

/// Keeps the sealed container of a tree. `save` gives the bytes to write,
/// `load` takes what reading gave.
pub trait StorageManager {
    fn save(&self, data: &Folder) -> (r: Result<Vec<u8>, StoreError>);

    fn load(&self, file: Result<Vec<u8>, ReadFailure>) -> (r: Result<Folder, StoreError>);
}

/// The container as one file at `path`, sealed by `encryptor`.
pub struct LocalStorageManager {
    pub path: String,
    pub encryptor: AgeEncryptor,
}

/// The error for a failed read.
pub open spec fn read_error_of(failure: ReadFailure) -> StoreError {
    match failure {
        ReadFailure::NotFound => StoreError::NotFound,
        ReadFailure::Other => StoreError::Io,
    }
}

impl LocalStorageManager {
    pub fn new(path: String, encryptor: AgeEncryptor) -> (r: Self)
        ensures
            r.path@ == path@,
            r.encryptor.key@ == encryptor.key@,
    {
        Self { path, encryptor }
    }
}

impl StorageManager for LocalStorageManager {
    /// The bytes to write at the path for `data`: the sealed layout of
    /// the tree, which is longer than the layout.
    fn save(&self, data: &Folder) -> (r: Result<Vec<u8>, StoreError>)
        ensures
            r is Ok,
            r->Ok_0@.len() > enc_folder(data@).len(),
    {
        saved_outcome(self.encryptor.encrypt(data))
    }

    /// The tree in what was read at the path. A failed read is reported
    /// as it is, a missing file as `NotFound`; bytes that were read are
    /// opened, and never give `NotFound` or `Io`.
    fn load(&self, file: Result<Vec<u8>, ReadFailure>) -> (r: Result<Folder, StoreError>)
        ensures
            match file {
                Err(failure) => r == Err::<Folder, StoreError>(read_error_of(failure)),
                Ok(_) => r is Err ==> r->Err_0 is Crypto || r->Err_0 is Serialization,
            },
            r is Ok ==> r->Ok_0@.wf(),
    {
        open_file(&self.encryptor, file)
    }
}

/// The tree in what reading the container gave, opened by `encryptor`. A
/// failed read is reported as it is, a missing file as `NotFound`; bytes
/// that were read are opened, and never give `NotFound` or `Io`.
pub fn open_file(encryptor: &AgeEncryptor, file: Result<Vec<u8>, ReadFailure>) -> (r: Result<
    Folder,
    StoreError,
>)
    ensures
        match file {
            Err(failure) => r == Err::<Folder, StoreError>(read_error_of(failure)),
            Ok(_) => r is Err ==> r->Err_0 is Crypto || r->Err_0 is Serialization,
        },
        r is Ok ==> r->Ok_0@.wf(),
{
    match file {
        Ok(blob) => encryptor.decrypt(blob),
        Err(ReadFailure::NotFound) => Err(StoreError::NotFound),
        Err(ReadFailure::Other) => Err(StoreError::Io),
    }
}

/// What saving gives, from what sealing gave: the bytes to write as they
/// are, or the failure of sealing as the store's error.
pub fn saved_outcome(sealed: Result<Vec<u8>, CryptoError>) -> (r: Result<Vec<u8>, StoreError>)
    ensures
        match sealed {
            Ok(blob) => r == Ok::<Vec<u8>, StoreError>(blob),
            Err(e) => r == Err::<Vec<u8>, StoreError>(StoreError::Crypto(e)),
        },
{
    match sealed {
        Ok(blob) => Ok(blob),
        Err(e) => Err(StoreError::Crypto(e)),
    }
}

/// The name of the folder that a first run starts with.
pub open spec fn fresh_name() -> Seq<char> {
    "NEW FOLDER"@
}

/// The first-run rule: where no container exists yet, the store starts
/// from a fresh empty folder; every other outcome of loading stands.
pub fn or_fresh(loaded: Result<Folder, StoreError>) -> (r: Result<Folder, StoreError>)
    ensures
        match loaded {
            Err(StoreError::NotFound) => r is Ok && r->Ok_0@ == (FolderModel {
                records: Seq::empty(),
                subfolders: None,
                name: fresh_name(),
            }),
            _ => r == loaded,
        },
{
    match loaded {
        Err(StoreError::NotFound) => Ok(Folder::named("NEW FOLDER".to_string())),
        other => other,
    }
}

} // verus!
