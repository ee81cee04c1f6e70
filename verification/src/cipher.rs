//! The inner stream cipher, as the decoder sees it.

use crate::error::CipherError;
use vstd::prelude::*;

verus! {

/// A stateful stream cipher that decrypts protected values.
///
/// Each call advances the keystream, so the plaintext of a ciphertext depends
/// on every ciphertext decrypted before it. The two spec functions say what a
/// call does; `decrypt` has to do just that. An implementation that is
/// verified defines them. One that is not may leave them as they are, and
/// whatever is proved of a decode then rests on the claim that its `decrypt`
/// is a function of the keystream state and the ciphertext alone.
pub trait Cipher: Sized {
    /// What decrypting `ciphertext` yields in this keystream state.
    open spec fn plaintext(&self, ciphertext: Seq<u8>) -> Result<Seq<u8>, CipherError> {
        arbitrary()
    }

    /// The keystream state once `ciphertext` has been decrypted.
    open spec fn advanced(&self, ciphertext: Seq<u8>) -> Self {
        arbitrary()
    }

    /// Decrypts one ciphertext and advances the keystream.
    fn decrypt(&mut self, ciphertext: &[u8]) -> (outcome: Result<Vec<u8>, CipherError>)
        ensures
            plain_view(outcome) == old(self).plaintext(ciphertext@),
            *final(self) == old(self).advanced(ciphertext@),
    ;
}

/// The bytes of a decrypt outcome.
pub open spec fn plain_view(outcome: Result<Vec<u8>, CipherError>) -> Result<Seq<u8>, CipherError> {
    match outcome {
        Ok(bytes) => Ok(bytes@),
        Err(e) => Err(e),
    }
}

/// The cipher of a payload whose protected values are not encrypted: every
/// ciphertext is its own plaintext, and there is no keystream to advance.
#[derive(Clone, Copy, Debug, PartialEq, Eq, Structural)]
pub struct PlainCipher;

impl Cipher for PlainCipher {
    open spec fn plaintext(&self, ciphertext: Seq<u8>) -> Result<Seq<u8>, CipherError> {
        Ok(ciphertext)
    }

    open spec fn advanced(&self, ciphertext: Seq<u8>) -> Self {
        *self
    }

    fn decrypt(&mut self, ciphertext: &[u8]) -> (outcome: Result<Vec<u8>, CipherError>) {
        Ok(vstd::slice::slice_to_vec(ciphertext))
    }
}

} // verus!
