//! Buffers for decrypted values, wiped when released.

use secstr::SecVec;
use vstd::prelude::*;

verus! {

/// `SecVec` of `secstr`: a vector whose memory is locked while it lives and
/// overwritten with zeros when it is released.
#[verifier::external_type_specification]
#[verifier::external_body]
#[verifier::reject_recursive_types(T)]
pub struct ExSecVec<T: Sized + Copy>(SecVec<T>);

/// The bytes that a secret buffer holds.
pub uninterp spec fn secret_bytes(secret: SecVec<u8>) -> Seq<u8>;

/// `SecVec::new` of `secstr`: takes ownership of `bytes` and guards them. The
/// buffer holds exactly those bytes.
#[verifier::external_body]
pub(crate) fn seal(bytes: Vec<u8>) -> (secret: SecVec<u8>)
    ensures
        secret_bytes(secret) == bytes@,
{
    SecVec::new(bytes)
}

} // verus!
