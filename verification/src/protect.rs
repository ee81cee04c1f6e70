//! Protected values: base64 text that the inner cipher turns into a secret.

use crate::cipher::{plain_view, Cipher};
use crate::encoding::{base64_decode, base64_decoded};
use crate::error::{CipherError, IntegrityError};
use crate::secret::{seal, secret_bytes};
use secstr::SecVec;
use vstd::prelude::*;
use vstd::utf8::valid_utf8;

verus! {

/// What becomes of a cipher's answer: a plaintext has to be well-formed UTF-8
/// to be kept.
pub open spec fn checked_plaintext(outcome: Result<Seq<u8>, CipherError>) -> Result<
    Seq<u8>,
    IntegrityError,
> {
    match outcome {
        Ok(plain) => if valid_utf8(plain) {
            Ok(plain)
        } else {
            Err(IntegrityError::Encoding)
        },
        Err(_) => Err(IntegrityError::Cipher),
    }
}

/// What decrypting the text of a protected value gives, and the cipher it
/// leaves behind. Text that is not base64 fails before the cipher is touched;
/// any other text costs the cipher exactly one call, on the decoded bytes.
pub open spec fn unsealed<C: Cipher>(text: Seq<char>, cipher: C) -> (
    Result<Seq<u8>, IntegrityError>,
    C,
) {
    match base64_decoded(text) {
        Some(ciphertext) => (
            checked_plaintext(cipher.plaintext(ciphertext)),
            cipher.advanced(ciphertext),
        ),
        None => (Err(IntegrityError::Decode), cipher),
    }
}

/// The bytes inside a sealed outcome.
pub open spec fn sealed_view(sealed: Result<SecVec<u8>, IntegrityError>) -> Result<
    Seq<u8>,
    IntegrityError,
> {
    match sealed {
        Ok(secret) => Ok(secret_bytes(secret)),
        Err(e) => Err(e),
    }
}

/// Takes a cipher's answer and, where it is well-formed UTF-8, moves it into a
/// buffer that is wiped when released.
pub fn seal_plaintext(outcome: Result<Vec<u8>, CipherError>) -> (sealed: Result<
    SecVec<u8>,
    IntegrityError,
>)
    ensures
        sealed_view(sealed) == checked_plaintext(plain_view(outcome)),
{
    match outcome {
        Ok(plain) => {
            if core::str::from_utf8(plain.as_slice()).is_ok() {
                Ok(seal(plain))
            } else {
                Err(IntegrityError::Encoding)
            }
        },
        Err(_) => Err(IntegrityError::Cipher),
    }
}

/// Decrypts the text of one protected value.
///
/// The cipher is called once, on the bytes that the text stands for in
/// base64, unless the text is not base64 at all.
pub fn decrypt_protected<C: Cipher>(text: &str, cipher: &mut C) -> (sealed: Result<
    SecVec<u8>,
    IntegrityError,
>)
    ensures
        (sealed_view(sealed), *final(cipher)) == unsealed(text@, *old(cipher)),
{
    match base64_decode(text) {
        Ok(ciphertext) => seal_plaintext(cipher.decrypt(ciphertext.as_slice())),
        Err(_) => Err(IntegrityError::Decode),
    }
}

} // verus!
