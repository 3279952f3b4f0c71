//! Read-only decoders for the account layouts of a derivatives exchange:
//! the market record, the two order-book slabs and the event queue.
//!
//! Every decoder takes a borrowed byte buffer, checks its framing before it
//! trusts any field, and hands back plain values. Nothing here writes to a
//! buffer. Beside the decoders stand the plain types of the exchange's
//! other accounts and its fee rates.

pub mod dex;
pub mod errors;
pub mod outside;
pub mod pubkey;
pub mod symbol;
pub mod types;
pub mod util;

pub use crate::errors::ErrorCode;
pub use crate::pubkey::Pubkey;
pub use crate::symbol::Symbol;
pub use crate::types::{
    BorrowCache, Cache, CollateralInfo, Control, FeeTier, FractionType, Margin, MarkCache,
    OpenOrdersInfo, OracleCache, OracleSource, OracleType, OrderType, PerpMarketInfo, PerpType,
    State, TwapInfo, WrappedI80F48,
};
pub use crate::util::{maker_rate, taker_rate};
