//! Failures that abort a decode.

use vstd::prelude::*;

verus! {

/// Something in a document that a lenient decode passes over in silence.
#[derive(Clone, Copy, Debug, PartialEq, Eq, Structural)]
pub enum Recovery {
    /// An expiry time that decodes in neither of the two encodings. It is
    /// left out.
    Timestamp,
    /// A flag that spells neither `true` nor `false`. It reads as unset.
    Flag,
    /// An icon number that spells no byte. It reads as 0.
    Number,
    /// A node that its parent has no place for. It is dropped.
    Orphan,
}

/// Why a decode was abandoned.
#[derive(Clone, Copy, Debug, PartialEq, Eq, Structural)]
pub enum IntegrityError {
    /// Text that had to be base64 was not, or stood for too few bytes or for
    /// a time beyond the calendar.
    Decode,
    /// The inner cipher refused a ciphertext.
    Cipher,
    /// A decrypted value was not valid UTF-8.
    Encoding,
    /// The XML tokenizer rejected the document.
    Tokenizer,
    /// A strict decode met something that a lenient one passes over.
    Recovery(Recovery),
}

/// Failure reported by a [`crate::cipher::Cipher`].
#[derive(Clone, Copy, Debug, PartialEq, Eq, Structural)]
pub struct CipherError;

} // verus!
