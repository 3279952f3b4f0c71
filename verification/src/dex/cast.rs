//! The two casts that split a buffer into fixed-size pieces.
//!
//! Both go through `bytemuck` and are believed, not proved: their contracts
//! restate what the casts do for byte arrays, whose alignment is one.

use bytemuck::PodCastError;
use vstd::prelude::*;

verus! {

#[verifier::external_type_specification]
#[verifier::external_body]
pub struct ExPodCastError(PodCastError);

/// `bytemuck::try_from_bytes` at `[u8; N]`: the buffer seen as one record of
/// exactly `N` bytes. It succeeds if and only if the buffer is `N` bytes
/// long, and the record then holds the same bytes in the same order.
#[verifier::external_body]
pub(crate) fn record<const N: usize>(buf: &[u8]) -> (r: Result<&[u8; N], PodCastError>)
    ensures
        r is Ok <==> buf@.len() == N,
        r matches Ok(a) ==> a@ == buf@,
{
    bytemuck::try_from_bytes::<[u8; N]>(buf)
}

/// `bytemuck::try_cast_slice` from bytes to `[u8; N]`: the buffer cut into
/// consecutive slots of `N` bytes. It succeeds if and only if the length is
/// a multiple of `N`; slot `i` then holds bytes `i * N` to `i * N + N`.
#[verifier::external_body]
pub(crate) fn slots<const N: usize>(buf: &[u8]) -> (r: Result<&[[u8; N]], PodCastError>)
    requires
        N > 0,
    ensures
        r is Ok <==> buf@.len() % (N as nat) == 0,
        r matches Ok(s) ==> {
            &&& s@.len() * N == buf@.len()
            &&& forall|i: int, j: int|
                0 <= i < s@.len() && 0 <= j < N ==> #[trigger] s@[i]@[j] == buf@[i * N + j]
        },
{
    bytemuck::try_cast_slice::<u8, [u8; N]>(buf)
}

} // verus!
