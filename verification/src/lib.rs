//! A small secrets manager: key/value secrets kept as lines of text in one
//! gpg-encrypted file, with add, get and list.
pub mod cli;
pub mod codec;
pub mod config;
pub mod crypto;
pub mod format;
pub mod laws;
pub mod manager;
pub mod model;
pub mod order;
pub mod store;
pub mod text;
pub mod timestamp;

pub use manager::SecretsManager;
pub use model::{Entry, Secrets};
pub use store::{FileSecretsStore, SecretsStore};
