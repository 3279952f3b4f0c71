use vstd::prelude::*;

verus! {

/// What a lookup in the exchange's accounts can fail with.
#[derive(Clone, Copy, Debug, PartialEq, Eq, Structural)]
pub enum ErrorCode {
    /// No oracle is cached under the symbol asked for.
    OracleDoesNotExist,
}

} // verus!
