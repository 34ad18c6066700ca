//! The interface of a remote copy of the tree. The store defines it and
//! implements none: how two trees merge is left to the implementor.

use crate::models::Folder;
use vstd::prelude::*;

verus! {

pub trait SyncManager {
    fn upload(&self, folder: Folder);

    fn download(&self) -> Folder;

    fn merge(&self, remote_data: Folder, local_folder: Folder) -> Folder;
}

} // verus!
