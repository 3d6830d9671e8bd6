//! A verified secret vault: authenticated encryption of per-project secret
//! files, a keyed record store with upsert/delete semantics, a working-directory
//! location resolver, and the vault operations that compose them.

pub mod bytes;
pub mod cipher;
pub mod location;
pub mod store;
pub mod vault;
