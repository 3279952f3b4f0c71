//! The check that every fixed-size account passes before a field is read.

use crate::dex::bytes::{
    ends_with_tail_tag, has_head_tag, has_tail_tag, le_u64, read_u64, starts_with_head_tag,
};
use crate::dex::cast::record;
use crate::dex::error::FormatError;
use vstd::prelude::*;

verus! {

/// The number of bytes that the head tag and the flag word take.
pub const FLAGS_END: usize = 13;

/// Why a buffer is no account of `len` bytes with the flag word `flags`, or
/// `None` if it is one. The length is looked at first, then the head tag
/// and, where the account is `closed` by one, the tail tag, then the flag
/// word, which has to be `flags` bit for bit.
pub open spec fn frame_error(b: Seq<u8>, len: nat, closed: bool, flags: u64) -> Option<FormatError> {
    if b.len() != len {
        Some(FormatError::SizeMismatch)
    } else if !has_head_tag(b) || (closed && !has_tail_tag(b)) {
        Some(FormatError::BadMagic)
    } else if le_u64(b, 5) != flags {
        Some(FormatError::BadFlags)
    } else {
        None
    }
}

/// Checks the frame of an account of `N` bytes and hands the buffer back as
/// one record of that size.
pub fn validate<const N: usize>(buf: &[u8], closed: bool, flags: u64) -> (r: Result<
    &[u8; N],
    FormatError,
>)
    requires
        N >= FLAGS_END,
    ensures
        match frame_error(buf@, N as nat, closed, flags) {
            Some(e) => r == Err::<&[u8; N], FormatError>(e),
            None => r is Ok && r->Ok_0@ == buf@,
        },
{
    let rec: &[u8; N] = match record::<N>(buf) {
        Ok(rec) => rec,
        Err(_) => {
            return Err(FormatError::SizeMismatch);
        },
    };
    if !starts_with_head_tag(buf) || (closed && !ends_with_tail_tag(buf)) {
        return Err(FormatError::BadMagic);
    }
    if read_u64(buf, 5) != flags {
        return Err(FormatError::BadFlags);
    }
    Ok(rec)
}

} // verus!
