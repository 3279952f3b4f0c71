//! Calls into code that is not verified here. Each contract below is
//! believed, not proved.

use fixed::types::I80F48;
use vstd::prelude::*;
use vstd::utf8::{decode_utf8, valid_utf8};

verus! {

/// The characters that lossy decoding makes of `bytes`: the text they
/// encode, with a replacement character for each stretch that is no UTF-8.
pub uninterp spec fn utf8_lossy(bytes: Seq<u8>) -> Seq<char>;

/// `String::from_utf8_lossy`, made into an owned string. The result is a
/// function of the bytes alone; bytes that are valid UTF-8 come out as the
/// text they encode.
#[verifier::external_body]
pub(crate) fn string_from_utf8_lossy(bytes: &[u8]) -> (r: String)
    ensures
        r@ == utf8_lossy(bytes@),
        valid_utf8(bytes@) ==> r@ == decode_utf8(bytes@),
{
    String::from_utf8_lossy(bytes).into_owned()
}

/// The bits of `fixed`'s `I80F48::ZERO`: the constant is made from the bits
/// 0.
#[verifier::external_body]
pub(crate) fn fixed_zero_bits() -> (r: i128)
    ensures
        r == 0,
{
    I80F48::ZERO.to_bits()
}

/// The bits of `I80F48::from_num` of an integer. The type has 48 fraction
/// bits, so an integer that fits its 80 integer bits is held exactly, as
/// itself shifted left by 48. An integer that does not fit makes the call
/// panic, and is left out.
#[verifier::external_body]
pub(crate) fn fixed_bits_from_int(x: i128) -> (r: i128)
    requires
        -0x8000_0000_0000_0000_0000 <= x < 0x8000_0000_0000_0000_0000,
    ensures
        r == x * 0x1_0000_0000_0000,
{
    I80F48::from_num(x).to_bits()
}

} // verus!
