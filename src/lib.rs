//! Derivation of binary codecs for user-declared types whose decoding may
//! consult a caller-supplied context.
pub mod config;
pub mod constraints;
pub mod derive;
pub mod layout;
pub mod schema;
pub mod wire;
pub mod codec;
