//! Decoder for the XML payload of a KDBX password database.
//!
//! The payload is a stream of tagged text elements. This crate turns that
//! stream into a tree of groups and entries, decrypting protected field
//! values with a caller-supplied stream cipher on the way.
//!
//! [`parse_xml_block`] decodes a whole document. [`Decoder`] is the state
//! machine behind it, for callers that have tokens of their own. What a
//! decode computes is laid down, token by token, in [`model`], and what
//! follows from that for whole documents is proved in [`laws`].

pub mod cipher;
pub mod db;
pub mod decoder;
pub mod encoding;
pub mod error;
pub mod laws;
pub mod model;
pub mod node;
pub mod protect;
pub mod secret;
pub mod strmap;
pub mod tag;
pub mod text;
pub mod time;
pub mod xml;

pub use crate::cipher::{Cipher, PlainCipher};
pub use crate::db::{AutoType, AutoTypeAssociation, Child, Entry, Group, Icon, Metadata, Value};
pub use crate::decoder::{
    decode_events, decode_events_in, parse_xml_block, parse_xml_block_in, Decoder,
};
pub use crate::error::{CipherError, IntegrityError, Recovery};
pub use crate::model::Mode;
pub use crate::time::{parse_xml_timestamp, Timestamp};
