//! An encrypted secrets store: a tree of folders and records, its binary
//! container layout, and the passphrase sealing of that container.

pub mod codec;
pub mod encryption;
pub mod errors;
pub mod forms;
pub mod models;
pub mod storage;
pub mod sync;
pub mod ui;
pub mod wire;
