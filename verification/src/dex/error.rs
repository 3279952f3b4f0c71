use vstd::prelude::*;

verus! {

/// Why a buffer was refused.
#[derive(Clone, Copy, Debug, PartialEq, Eq, Structural)]
pub enum FormatError {
    /// The buffer is shorter or longer than the record it should hold.
    SizeMismatch,
    /// The leading or the trailing tag is not the expected one.
    BadMagic,
    /// The account flags are not those of the requested kind of account.
    BadFlags,
    /// A slab node carries a tag outside the defined range.
    UnknownTag,
}

} // verus!
