use crate::dex::bytes::{le_u128, le_u64, read_u128};
use vstd::prelude::*;

verus! {

/// A 32-byte address, held as two 128-bit halves so that two addresses
/// are equal exactly when their bytes are.
///
/// `lo` is the little-endian value of bytes 0 to 15, `hi` that of bytes 16
/// to 31.
#[derive(Clone, Copy, Debug, PartialEq, Eq, Hash, Structural)]
pub struct Pubkey {
    pub lo: u128,
    pub hi: u128,
}

/// The address that the 32 bytes at `at` spell.
pub open spec fn pubkey_at(b: Seq<u8>, at: int) -> Pubkey {
    Pubkey { lo: le_u128(b, at) as u128, hi: le_u128(b, at + 16) as u128 }
}

fn u64_bytes(x: u64) -> (r: [u8; 8])
    ensures
        le_u64(r@, 0) == x,
{
    let x1: u64 = x / 0x100;
    let x2: u64 = x1 / 0x100;
    let x3: u64 = x2 / 0x100;
    let x4: u64 = x3 / 0x100;
    let x5: u64 = x4 / 0x100;
    let x6: u64 = x5 / 0x100;
    let x7: u64 = x6 / 0x100;
    let r: [u8; 8] = [
        (x % 0x100) as u8,
        (x1 % 0x100) as u8,
        (x2 % 0x100) as u8,
        (x3 % 0x100) as u8,
        (x4 % 0x100) as u8,
        (x5 % 0x100) as u8,
        (x6 % 0x100) as u8,
        x7 as u8,
    ];
    assert(x4 == r@[4] + r@[5] * 0x100 + r@[6] * 0x1_0000 + r@[7] * 0x100_0000);
    r
}

impl Pubkey {
    /// Reads the address that starts at byte `at` of `b`.
    pub fn read(b: &[u8], at: usize) -> (r: Pubkey)
        requires
            at + 32 <= b.len(),
        ensures
            r == pubkey_at(b@, at as int),
    {
        Pubkey { lo: read_u128(b, at), hi: read_u128(b, at + 16) }
    }

    /// The address that `bytes` spell.
    pub fn new_from_array(bytes: [u8; 32]) -> (r: Pubkey)
        ensures
            r == pubkey_at(bytes@, 0),
    {
        Pubkey::read(bytes.as_slice(), 0)
    }

    /// The 32 bytes of the address, in the order in which they were read.
    pub fn to_bytes(&self) -> (r: [u8; 32])
        ensures
            pubkey_at(r@, 0) == *self,
    {
        let a = u64_bytes((self.lo % 0x1_0000_0000_0000_0000) as u64);
        let b = u64_bytes((self.lo / 0x1_0000_0000_0000_0000) as u64);
        let c = u64_bytes((self.hi % 0x1_0000_0000_0000_0000) as u64);
        let d = u64_bytes((self.hi / 0x1_0000_0000_0000_0000) as u64);
        [
            a[0], a[1], a[2], a[3], a[4], a[5], a[6], a[7],
            b[0], b[1], b[2], b[3], b[4], b[5], b[6], b[7],
            c[0], c[1], c[2], c[3], c[4], c[5], c[6], c[7],
            d[0], d[1], d[2], d[3], d[4], d[5], d[6], d[7],
        ]
    }
}

impl Default for Pubkey {
    /// The address of 32 zero bytes.
    fn default() -> (r: Pubkey)
        ensures
            r == (Pubkey { lo: 0, hi: 0 }),
    {
        Pubkey { lo: 0, hi: 0 }
    }
}

} // verus!
