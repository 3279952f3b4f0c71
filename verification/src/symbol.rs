//! Names of assets and markets: up to 24 bytes, padded with zero bytes.

use crate::outside::{string_from_utf8_lossy, utf8_lossy};
use vstd::prelude::*;
use vstd::slice::slice_subrange;
use vstd::string::StringSliceAdditionalSpecFns;

verus! {

/// The length in bytes of a symbol.
pub const SYMBOL_LEN: usize = 24;

/// A name of up to 24 bytes. What the name does not fill is zero.
#[derive(Clone, Copy, Debug, PartialEq, Eq, PartialOrd, Ord, Default)]
pub struct Symbol {
    data: [u8; 24],
}

impl View for Symbol {
    type V = Seq<u8>;

    closed spec fn view(&self) -> Seq<u8> {
        self.data@
    }
}

/// The value of the eight bytes at `at`, most significant first.
pub open spec fn be_u64(b: Seq<u8>, at: int) -> int {
    b[at] as int * 0x100_0000_0000_0000 + b[at + 1] as int * 0x1_0000_0000_0000 + b[at + 2] as int
        * 0x100_0000_0000 + b[at + 3] as int * 0x1_0000_0000 + b[at + 4] as int * 0x100_0000 + b[at
        + 5] as int * 0x1_0000 + b[at + 6] as int * 0x100 + b[at + 7] as int
}

/// The place of 24 bytes in the order of symbols: their value read as one
/// number, most significant byte first. Comparing ranks is comparing the
/// bytes one by one from the first.
pub open spec fn rank(b: Seq<u8>) -> int {
    be_u64(b, 0) * 0x1_0000_0000_0000_0000_0000_0000_0000_0000 + be_u64(b, 8)
        * 0x1_0000_0000_0000_0000 + be_u64(b, 16)
}

/// Whether the bytes name nothing: all 24 are zero.
pub open spec fn is_nil_bytes(b: Seq<u8>) -> bool {
    forall|i: int| 0 <= i < SYMBOL_LEN ==> b[i] == 0
}

/// The number of bytes before the first zero byte of `b`, or the length of
/// `b` if it has none.
pub open spec fn name_len(b: Seq<u8>) -> int
    decreases b.len(),
{
    if b.len() == 0 || b[0] == 0 {
        0
    } else {
        1 + name_len(b.drop_first())
    }
}

proof fn lemma_be_u64_injective(a: Seq<u8>, b: Seq<u8>, at: int)
    requires
        be_u64(a, at) == be_u64(b, at),
    ensures
        a[at] == b[at],
        a[at + 1] == b[at + 1],
        a[at + 2] == b[at + 2],
        a[at + 3] == b[at + 3],
        a[at + 4] == b[at + 4],
        a[at + 5] == b[at + 5],
        a[at + 6] == b[at + 6],
        a[at + 7] == b[at + 7],
{
    let a1 = a[at] as int * 0x100 + a[at + 1] as int;
    let a2 = a1 * 0x100 + a[at + 2] as int;
    let a3 = a2 * 0x100 + a[at + 3] as int;
    let a4 = a3 * 0x100 + a[at + 4] as int;
    let a5 = a4 * 0x100 + a[at + 5] as int;
    let a6 = a5 * 0x100 + a[at + 6] as int;
    let b1 = b[at] as int * 0x100 + b[at + 1] as int;
    let b2 = b1 * 0x100 + b[at + 2] as int;
    let b3 = b2 * 0x100 + b[at + 3] as int;
    let b4 = b3 * 0x100 + b[at + 4] as int;
    let b5 = b4 * 0x100 + b[at + 5] as int;
    let b6 = b5 * 0x100 + b[at + 6] as int;
    assert(be_u64(a, at) == a6 * 0x100 + a[at + 7] as int);
    assert(be_u64(b, at) == b6 * 0x100 + b[at + 7] as int);
    assert(a6 == b6);
    assert(a5 == b5);
    assert(a4 == b4);
    assert(a3 == b3);
    assert(a2 == b2);
    assert(a1 == b1);
}

/// Two symbols have the same rank only if they are the same bytes.
pub proof fn lemma_rank_injective(a: Seq<u8>, b: Seq<u8>)
    requires
        a.len() == SYMBOL_LEN,
        b.len() == SYMBOL_LEN,
        rank(a) == rank(b),
    ensures
        a == b,
{
    assert(0 <= be_u64(a, 0) < 0x1_0000_0000_0000_0000 && 0 <= be_u64(a, 8) < 0x1_0000_0000_0000_0000
        && 0 <= be_u64(a, 16) < 0x1_0000_0000_0000_0000);
    assert(0 <= be_u64(b, 0) < 0x1_0000_0000_0000_0000 && 0 <= be_u64(b, 8) < 0x1_0000_0000_0000_0000
        && 0 <= be_u64(b, 16) < 0x1_0000_0000_0000_0000);
    assert(be_u64(a, 16) == be_u64(b, 16));
    assert(be_u64(a, 8) == be_u64(b, 8));
    assert(be_u64(a, 0) == be_u64(b, 0));
    lemma_be_u64_injective(a, b, 0);
    lemma_be_u64_injective(a, b, 8);
    lemma_be_u64_injective(a, b, 16);
    assert(a =~= b);
}

fn read_be_u64(b: &[u8; 24], at: usize) -> (r: u64)
    requires
        at + 8 <= 24,
    ensures
        r == be_u64(b@, at as int),
{
    let b0: u64 = b[at] as u64;
    let b1: u64 = b[at + 1] as u64;
    let b2: u64 = b[at + 2] as u64;
    let b3: u64 = b[at + 3] as u64;
    let b4: u64 = b[at + 4] as u64;
    let b5: u64 = b[at + 5] as u64;
    let b6: u64 = b[at + 6] as u64;
    let b7: u64 = b[at + 7] as u64;
    b0 * 0x100_0000_0000_0000 + b1 * 0x1_0000_0000_0000 + b2 * 0x100_0000_0000 + b3 * 0x1_0000_0000
        + b4 * 0x100_0000 + b5 * 0x1_0000 + b6 * 0x100 + b7
}

impl Symbol {
    /// Every symbol is 24 bytes long.
    pub proof fn lemma_len(&self)
        ensures
            self@.len() == SYMBOL_LEN,
    {
    }

    /// The symbol of a name: its bytes, then zero bytes up to 24.
    pub fn from_name(name: &str) -> (r: Symbol)
        requires
            name.spec_bytes().len() <= SYMBOL_LEN,
        ensures
            r@ == name.spec_bytes() + Seq::new(
                (SYMBOL_LEN - name.spec_bytes().len()) as nat,
                |i: int| 0u8,
            ),
    {
        let bytes: &[u8] = name.as_bytes();
        let mut data: [u8; 24] = [0u8; 24];
        let mut i: usize = 0;
        while i < bytes.len()
            invariant
                i <= bytes@.len() <= 24,
                forall|k: int| 0 <= k < i ==> data@[k] == bytes@[k],
                forall|k: int| i <= k < 24 ==> data@[k] == 0,
            decreases bytes@.len() - i,
        {
            data[i] = bytes[i];
            i += 1;
        }
        let r = Symbol { data };
        assert(r@ =~= name.spec_bytes() + Seq::new(
            (SYMBOL_LEN - name.spec_bytes().len()) as nat,
            |i: int| 0u8,
        ));
        r
    }

    /// The symbol that holds exactly these 24 bytes.
    pub fn from_bytes(data: [u8; 24]) -> (r: Symbol)
        ensures
            r@ == data@,
    {
        Symbol { data }
    }

    /// The 24 bytes of the symbol.
    pub fn to_bytes(&self) -> (r: [u8; 24])
        ensures
            r@ == self@,
    {
        self.data
    }

    /// Whether the symbol names nothing: all its bytes are zero.
    pub fn is_nil(&self) -> (r: bool)
        ensures
            r == is_nil_bytes(self@),
    {
        let mut i: usize = 0;
        while i < 24
            invariant
                i <= 24,
                forall|k: int| 0 <= k < i ==> self.data@[k] == 0,
            decreases 24 - i,
        {
            if self.data[i] != 0 {
                assert(self@[i as int] != 0);
                return false;
            }
            i += 1;
        }
        true
    }

    /// Whether two symbols are the same bytes.
    pub fn same(&self, other: &Symbol) -> (r: bool)
        ensures
            r == (self@ == other@),
    {
        let r = read_be_u64(&self.data, 0) == read_be_u64(&other.data, 0) && read_be_u64(
            &self.data,
            8,
        ) == read_be_u64(&other.data, 8) && read_be_u64(&self.data, 16) == read_be_u64(
            &other.data,
            16,
        );
        proof {
            if r {
                lemma_rank_injective(self@, other@);
            }
        }
        r
    }

    /// Whether this symbol comes before `other` in the order of symbols.
    pub fn precedes(&self, other: &Symbol) -> (r: bool)
        ensures
            r == (rank(self@) < rank(other@)),
    {
        let a0: u64 = read_be_u64(&self.data, 0);
        let a1: u64 = read_be_u64(&self.data, 8);
        let a2: u64 = read_be_u64(&self.data, 16);
        let b0: u64 = read_be_u64(&other.data, 0);
        let b1: u64 = read_be_u64(&other.data, 8);
        let b2: u64 = read_be_u64(&other.data, 16);
        a0 < b0 || (a0 == b0 && (a1 < b1 || (a1 == b1 && a2 < b2)))
    }

    /// The number of bytes of the name: those before the first zero byte.
    pub fn len(&self) -> (r: usize)
        ensures
            r == name_len(self@),
            r <= SYMBOL_LEN,
    {
        let mut end: usize = 0;
        assert(self.data@.subrange(0, 24) =~= self.data@);
        while end < 24 && self.data[end] != 0
            invariant
                end <= 24,
                name_len(self.data@) == end + name_len(self.data@.subrange(end as int, 24)),
            decreases 24 - end,
        {
            proof {
                let tail = self.data@.subrange(end as int, 24);
                assert(tail.drop_first() =~= self.data@.subrange(end + 1, 24));
            }
            end += 1;
        }
        end
    }

    /// The name as text: the bytes before the first zero byte, decoded as
    /// UTF-8 with a replacement character where they are none.
    pub fn to_string(&self) -> (r: String)
        ensures
            r@ == utf8_lossy(self@.subrange(0, name_len(self@))),
    {
        let end: usize = self.len();
        string_from_utf8_lossy(slice_subrange(self.data.as_slice(), 0, end))
    }
}

} // verus!
