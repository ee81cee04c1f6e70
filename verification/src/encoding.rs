//! Byte-level encodings that carry values through the XML text: base64,
//! UTF-8 and little-endian integers.

use vstd::prelude::*;
use vstd::string::StringSliceAdditionalSpecFns;
use vstd::utf8::valid_utf8;

verus! {

/// `DecodeError` of `base64`: why a text is not base64.
#[verifier::external_type_specification]
#[verifier::external_body]
pub struct ExDecodeError(base64::DecodeError);

/// `Utf8Error` of `core`: where bytes stop being UTF-8.
#[verifier::external_type_specification]
#[verifier::external_body]
pub struct ExUtf8Error(core::str::Utf8Error);

/// The bytes that `text` stands for in base64 of the standard alphabet,
/// where it is well-formed: with its padding, or with no padding at all.
/// `None` where it is not well-formed.
pub uninterp spec fn base64_decoded(text: Seq<char>) -> Option<Seq<u8>>;

/// The bytes of a decoder's answer, with the reason for a failure set aside.
pub open spec fn decoded_view(decoded: Result<Vec<u8>, base64::DecodeError>) -> Option<Seq<u8>> {
    match decoded {
        Ok(bytes) => Some(bytes@),
        Err(_) => None,
    }
}

/// `base64::decode`: decodes base64 of the standard alphabet, written with
/// its padding or with none at all. The answer depends on the text alone.
#[verifier::external_body]
pub(crate) fn base64_decode(text: &str) -> (decoded: Result<Vec<u8>, base64::DecodeError>)
    ensures
        decoded_view(decoded) == base64_decoded(text@),
{
    base64::decode(text)
}

/// `core::str::from_utf8`: succeeds exactly on well-formed UTF-8, and the
/// string it then returns is made of the very bytes it was given.
pub assume_specification<'a>[ core::str::from_utf8 ](bytes: &'a [u8]) -> (text: Result<
    &'a str,
    core::str::Utf8Error,
>)
    ensures
        text is Ok <==> valid_utf8(bytes@),
        text matches Ok(s) ==> s.spec_bytes() == bytes@,
;

/// The number that `bytes` spell, least significant byte first.
pub open spec fn le_unsigned(bytes: Seq<u8>) -> nat
    decreases bytes.len(),
{
    if bytes.len() == 0 {
        0
    } else {
        bytes[0] as nat + 256 * le_unsigned(bytes.drop_first())
    }
}

/// The signed 64-bit number that the first eight of `bytes` spell in two's
/// complement, least significant byte first.
pub open spec fn le_i64(bytes: Seq<u8>) -> int
    recommends
        bytes.len() >= 8,
{
    let unsigned = le_unsigned(bytes.take(8));
    if unsigned < 0x8000_0000_0000_0000 {
        unsigned as int
    } else {
        unsigned - 0x1_0000_0000_0000_0000
    }
}

/// 256 to the power of `n`.
pub open spec fn pow256(n: nat) -> nat
    decreases n,
{
    if n == 0 {
        1
    } else {
        256 * pow256((n - 1) as nat)
    }
}

/// The `count` low bytes of `value`, least significant byte first.
pub open spec fn le_bytes(value: nat, count: nat) -> Seq<u8>
    decreases count,
{
    if count == 0 {
        Seq::empty()
    } else {
        seq![(value % 256) as u8] + le_bytes(value / 256, (count - 1) as nat)
    }
}

/// The eight bytes of a signed 64-bit number in two's complement, least
/// significant byte first.
pub open spec fn i64_le_bytes(value: i64) -> Seq<u8> {
    if value >= 0 {
        le_bytes(value as nat, 8)
    } else {
        le_bytes((value + 0x1_0000_0000_0000_0000) as nat, 8)
    }
}

/// Writing a number in `count` bytes and reading the bytes back gives the
/// number, where it fits in that many bytes.
pub proof fn lemma_le_bytes_round_trip(value: nat, count: nat)
    requires
        value < pow256(count),
    ensures
        le_bytes(value, count).len() == count,
        le_unsigned(le_bytes(value, count)) == value,
    decreases count,
{
    if count > 0 {
        let rest = le_bytes(value / 256, (count - 1) as nat);
        lemma_le_bytes_round_trip(value / 256, (count - 1) as nat);
        assert(le_bytes(value, count).drop_first() =~= rest);
    }
}

/// Every signed 64-bit number is read back from its eight bytes, whatever
/// follows them.
pub proof fn lemma_i64_le_round_trip(value: i64, rest: Seq<u8>)
    ensures
        i64_le_bytes(value).len() == 8,
        le_i64(i64_le_bytes(value) + rest) == value,
{
    reveal_with_fuel(pow256, 9);
    let unsigned: nat = if value >= 0 {
        value as nat
    } else {
        (value + 0x1_0000_0000_0000_0000) as nat
    };
    lemma_le_bytes_round_trip(unsigned, 8);
    assert((i64_le_bytes(value) + rest).take(8) =~= i64_le_bytes(value));
}

/// Reads a signed 64-bit integer from the first eight bytes, least
/// significant byte first.
pub fn i64_from_le_bytes(bytes: &[u8]) -> (value: i64)
    requires
        bytes@.len() >= 8,
    ensures
        value == le_i64(bytes@),
{
    let ghost head = bytes@.take(8);
    let mut acc: u64 = 0;
    let mut i: usize = 8;
    while i > 0
        invariant
            i <= 8,
            bytes@.len() >= 8,
            head == bytes@.take(8),
            acc == le_unsigned(head.skip(i as int)),
            acc < pow256((8 - i) as nat),
        decreases i,
    {
        i -= 1;
        proof {
            reveal_with_fuel(pow256, 9);
            assert(head.skip(i as int).drop_first() =~= head.skip(i + 1));
        }
        acc = acc * 256 + bytes[i] as u64;
    }
    assert(head.skip(0) =~= head);
    if acc >= 0x8000_0000_0000_0000 {
        let low: u64 = acc - 0x8000_0000_0000_0000;
        (low as i64) + i64::MIN
    } else {
        acc as i64
    }
}

} // verus!
