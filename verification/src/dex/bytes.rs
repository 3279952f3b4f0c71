//! Little-endian integers and the two framing tags, read from raw bytes.

use vstd::prelude::*;

verus! {

/// The value of the four bytes at `at`, least significant first.
pub open spec fn le_u32(b: Seq<u8>, at: int) -> int {
    b[at] as int + b[at + 1] as int * 0x100 + b[at + 2] as int * 0x1_0000 + b[at + 3] as int
        * 0x100_0000
}

/// The value of the eight bytes at `at`, least significant first.
pub open spec fn le_u64(b: Seq<u8>, at: int) -> int {
    le_u32(b, at) + le_u32(b, at + 4) * 0x1_0000_0000
}

/// The value of the sixteen bytes at `at`, least significant first.
pub open spec fn le_u128(b: Seq<u8>, at: int) -> int {
    le_u64(b, at) + le_u64(b, at + 8) * 0x1_0000_0000_0000_0000
}

/// The sixteen bytes at `at` read as a signed integer in two's complement.
pub open spec fn le_i128(b: Seq<u8>, at: int) -> int {
    let u = le_u128(b, at);
    if u < 0x8000_0000_0000_0000_0000_0000_0000_0000 {
        u
    } else {
        u - 0x1_0000_0000_0000_0000_0000_0000_0000_0000
    }
}

/// The five bytes that open every account: the ASCII letters of "serum".
pub open spec fn head_tag() -> Seq<u8> {
    seq![0x73u8, 0x65u8, 0x72u8, 0x75u8, 0x6du8]
}

/// The seven bytes that close every account: the ASCII letters of "padding".
pub open spec fn tail_tag() -> Seq<u8> {
    seq![0x70u8, 0x61u8, 0x64u8, 0x64u8, 0x69u8, 0x6eu8, 0x67u8]
}

/// Whether `b` opens with the head tag.
pub open spec fn has_head_tag(b: Seq<u8>) -> bool {
    b.len() >= 5 && b.subrange(0, 5) == head_tag()
}

/// Whether `b` closes with the tail tag.
pub open spec fn has_tail_tag(b: Seq<u8>) -> bool {
    b.len() >= 7 && b.subrange(b.len() - 7, b.len() as int) == tail_tag()
}

pub fn read_u32(b: &[u8], at: usize) -> (r: u32)
    requires
        at + 4 <= b.len(),
    ensures
        r == le_u32(b@, at as int),
{
    let b0: u32 = b[at] as u32;
    let b1: u32 = b[at + 1] as u32;
    let b2: u32 = b[at + 2] as u32;
    let b3: u32 = b[at + 3] as u32;
    b0 + b1 * 0x100 + b2 * 0x1_0000 + b3 * 0x100_0000
}

pub fn read_u64(b: &[u8], at: usize) -> (r: u64)
    requires
        at + 8 <= b.len(),
    ensures
        r == le_u64(b@, at as int),
{
    let lo: u64 = read_u32(b, at) as u64;
    let hi: u64 = read_u32(b, at + 4) as u64;
    lo + hi * 0x1_0000_0000
}

pub fn read_u128(b: &[u8], at: usize) -> (r: u128)
    requires
        at + 16 <= b.len(),
    ensures
        r == le_u128(b@, at as int),
{
    let lo: u128 = read_u64(b, at) as u128;
    let hi: u128 = read_u64(b, at + 8) as u128;
    lo + hi * 0x1_0000_0000_0000_0000
}

pub fn read_i128(b: &[u8], at: usize) -> (r: i128)
    requires
        at + 16 <= b.len(),
    ensures
        r == le_i128(b@, at as int),
{
    let u: u128 = read_u128(b, at);
    if u < 0x8000_0000_0000_0000_0000_0000_0000_0000 {
        u as i128
    } else {
        let low: i128 = (u - 0x8000_0000_0000_0000_0000_0000_0000_0000) as i128;
        low + i128::MIN
    }
}

/// Tests whether the buffer opens with the head tag.
pub fn starts_with_head_tag(b: &[u8]) -> (r: bool)
    ensures
        r == has_head_tag(b@),
{
    if b.len() < 5 {
        return false;
    }
    let r = b[0] == 0x73 && b[1] == 0x65 && b[2] == 0x72 && b[3] == 0x75 && b[4] == 0x6d;
    proof {
        let head = b@.subrange(0, 5);
        assert(head[0] == b@[0] && head[1] == b@[1] && head[2] == b@[2] && head[3] == b@[3]
            && head[4] == b@[4]);
        if r {
            assert(head =~= head_tag());
        }
    }
    r
}

/// Tests whether the buffer closes with the tail tag.
pub fn ends_with_tail_tag(b: &[u8]) -> (r: bool)
    ensures
        r == has_tail_tag(b@),
{
    let n: usize = b.len();
    if n < 7 {
        return false;
    }
    let at: usize = n - 7;
    let r = b[at] == 0x70 && b[at + 1] == 0x61 && b[at + 2] == 0x64 && b[at + 3] == 0x64 && b[at
        + 4] == 0x69 && b[at + 5] == 0x6e && b[at + 6] == 0x67;
    proof {
        let tail = b@.subrange(n - 7, n as int);
        assert(tail[0] == b@[at as int] && tail[1] == b@[at + 1] && tail[2] == b@[at + 2]
            && tail[3] == b@[at + 3] && tail[4] == b@[at + 4] && tail[5] == b@[at + 5] && tail[6]
            == b@[at + 6]);
        if r {
            assert(tail =~= tail_tag());
        }
    }
    r
}

} // verus!
