//! Local encrypted snippet store: key derivation and authenticated
//! encryption of snippet text, an in-memory record store with unique
//! names and recency ordering, and a scored candidate selector.

pub mod config;
pub mod database;
pub mod encryption;
pub mod errors;
pub mod fuzzy;
