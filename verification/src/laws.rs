//! What holds of every decode.
//!
//! Each law is a proof about the state machine of [`crate::model`], which
//! the decoder is proved to follow token by token.

pub mod calls;
pub mod documents;
pub mod fields;
pub mod instants;
pub mod runs;
pub mod secrets;
pub mod sites;
pub mod strictness;
pub mod tree;
