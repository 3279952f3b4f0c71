//! Plain types shared by the exchange's accounts.

use crate::errors::ErrorCode;
use crate::outside::{fixed_bits_from_int, fixed_zero_bits};
use crate::pubkey::Pubkey;
use crate::symbol::{is_nil_bytes, lemma_rank_injective, rank, Symbol};
use vstd::prelude::*;
use vstd::std_specs::convert::FromSpecImpl;

verus! {

/// Multiplied by 1000.
pub const SPOT_INITIAL_MARGIN_REQ: u64 = 1_100_000;

/// Multiplied by 1000.
pub const SPOT_MAINT_MARGIN_REQ: u64 = 1_030_000;

/// In micro-dollars.
pub const DUST_THRESHOLD: i64 = 1_000_000;

pub const MAX_COLLATERALS: usize = 25;

pub const MAX_MARKETS: usize = 50;

pub const MAX_ORACLE_SOURCES: usize = 3;

/// Which margin fraction a check asks for.
#[derive(Clone, Copy, Debug, PartialEq, Eq, Structural)]
pub enum FractionType {
    Maintenance,
    Initial,
    Cancel,
}

/// How an order behaves when it meets the book.
#[derive(Clone, Copy, Debug, PartialEq, Eq, Structural)]
pub enum OrderType {
    Limit,
    ImmediateOrCancel,
    PostOnly,
    ReduceOnlyIoc,
    ReduceOnlyLimit,
    FillOrKill,
}

/// The kind of contract that a market trades.
#[derive(Clone, Copy, Debug, PartialEq, Eq, Structural)]
pub enum PerpType {
    Future,
    CallOption,
    PutOption,
    Square,
}

/// The fee tier of a trader, from no discount up to the largest.
#[derive(Clone, Copy, Debug, PartialEq, Eq, Structural)]
pub enum FeeTier {
    Base,
    Zo2,
    Zo3,
    Zo4,
    Zo5,
    Zo6,
    Msrm,
}

/// Where an oracle price comes from.
#[derive(Clone, Copy, Debug, PartialEq, Eq, Structural)]
pub enum OracleType {
    Nil,
    Pyth,
    Switchboard,
}

/// A signed fixed-point number with 48 fraction bits, held as its bits:
/// `data` is the number times 2^48.
#[derive(Clone, Copy, Debug, PartialEq, Eq, PartialOrd, Ord, Structural)]
pub struct WrappedI80F48 {
    pub data: i128,
}

/// The fixed-point number that stands for the integer `x`.
pub open spec fn fixed_of_int(x: int) -> WrappedI80F48 {
    WrappedI80F48 { data: (x * 0x1_0000_0000_0000) as i128 }
}

impl WrappedI80F48 {
    /// The number zero.
    pub fn zero() -> (r: WrappedI80F48)
        ensures
            r == fixed_of_int(0),
    {
        WrappedI80F48 { data: fixed_zero_bits() }
    }
}

impl Default for WrappedI80F48 {
    /// The number zero.
    fn default() -> (r: WrappedI80F48)
        ensures
            r == fixed_of_int(0),
    {
        WrappedI80F48 { data: fixed_zero_bits() }
    }
}

impl From<u8> for WrappedI80F48 {
    fn from(x: u8) -> (r: WrappedI80F48) {
        WrappedI80F48 { data: fixed_bits_from_int(x as i128) }
    }
}

impl FromSpecImpl<u8> for WrappedI80F48 {
    open spec fn obeys_from_spec() -> bool {
        true
    }

    open spec fn from_spec(x: u8) -> WrappedI80F48 {
        fixed_of_int(x as int)
    }
}

impl From<i8> for WrappedI80F48 {
    fn from(x: i8) -> (r: WrappedI80F48) {
        WrappedI80F48 { data: fixed_bits_from_int(x as i128) }
    }
}

impl FromSpecImpl<i8> for WrappedI80F48 {
    open spec fn obeys_from_spec() -> bool {
        true
    }

    open spec fn from_spec(x: i8) -> WrappedI80F48 {
        fixed_of_int(x as int)
    }
}

impl From<u16> for WrappedI80F48 {
    fn from(x: u16) -> (r: WrappedI80F48) {
        WrappedI80F48 { data: fixed_bits_from_int(x as i128) }
    }
}

impl FromSpecImpl<u16> for WrappedI80F48 {
    open spec fn obeys_from_spec() -> bool {
        true
    }

    open spec fn from_spec(x: u16) -> WrappedI80F48 {
        fixed_of_int(x as int)
    }
}

impl From<i16> for WrappedI80F48 {
    fn from(x: i16) -> (r: WrappedI80F48) {
        WrappedI80F48 { data: fixed_bits_from_int(x as i128) }
    }
}

impl FromSpecImpl<i16> for WrappedI80F48 {
    open spec fn obeys_from_spec() -> bool {
        true
    }

    open spec fn from_spec(x: i16) -> WrappedI80F48 {
        fixed_of_int(x as int)
    }
}

impl From<u32> for WrappedI80F48 {
    fn from(x: u32) -> (r: WrappedI80F48) {
        WrappedI80F48 { data: fixed_bits_from_int(x as i128) }
    }
}

impl FromSpecImpl<u32> for WrappedI80F48 {
    open spec fn obeys_from_spec() -> bool {
        true
    }

    open spec fn from_spec(x: u32) -> WrappedI80F48 {
        fixed_of_int(x as int)
    }
}

impl From<i32> for WrappedI80F48 {
    fn from(x: i32) -> (r: WrappedI80F48) {
        WrappedI80F48 { data: fixed_bits_from_int(x as i128) }
    }
}

impl FromSpecImpl<i32> for WrappedI80F48 {
    open spec fn obeys_from_spec() -> bool {
        true
    }

    open spec fn from_spec(x: i32) -> WrappedI80F48 {
        fixed_of_int(x as int)
    }
}

impl From<u64> for WrappedI80F48 {
    fn from(x: u64) -> (r: WrappedI80F48) {
        WrappedI80F48 { data: fixed_bits_from_int(x as i128) }
    }
}

impl FromSpecImpl<u64> for WrappedI80F48 {
    open spec fn obeys_from_spec() -> bool {
        true
    }

    open spec fn from_spec(x: u64) -> WrappedI80F48 {
        fixed_of_int(x as int)
    }
}

impl From<i64> for WrappedI80F48 {
    fn from(x: i64) -> (r: WrappedI80F48) {
        WrappedI80F48 { data: fixed_bits_from_int(x as i128) }
    }
}

impl FromSpecImpl<i64> for WrappedI80F48 {
    open spec fn obeys_from_spec() -> bool {
        true
    }

    open spec fn from_spec(x: i64) -> WrappedI80F48 {
        fixed_of_int(x as int)
    }
}

/// One kind of collateral that the exchange accepts.
#[derive(Clone, Copy, Debug)]
pub struct CollateralInfo {
    pub mint: Pubkey,
    pub oracle_symbol: Symbol,
    pub decimals: u8,
    /// In permil.
    pub weight: u16,
    /// In permil.
    pub liq_fee: u16,
    pub is_borrowable: bool,
    /// In permil.
    pub optimal_util: u16,
    /// In permil.
    pub optimal_rate: u16,
    /// In permil.
    pub max_rate: u16,
    /// In basis points.
    pub og_fee: u16,
    pub is_swappable: bool,
    pub serum_open_orders: Pubkey,
    /// In native units.
    pub max_deposit: u64,
    /// In native units.
    pub dust_threshold: u16,
}

impl CollateralInfo {
    /// Whether the entry is unused: its mint is the address of 32 zero
    /// bytes.
    pub fn is_empty(&self) -> (r: bool)
        ensures
            r == (self.mint == (Pubkey { lo: 0, hi: 0 })),
    {
        self.mint == Pubkey::default()
    }
}

/// One perpetual market that the exchange lists.
#[derive(Clone, Copy, Debug)]
pub struct PerpMarketInfo {
    pub symbol: Symbol,
    pub oracle_symbol: Symbol,
    pub perp_type: PerpType,
    pub asset_decimals: u8,
    pub asset_lot_size: u64,
    pub quote_lot_size: u64,
    /// In native quote units per whole asset.
    pub strike: u64,
    /// In permil.
    pub base_imf: u16,
    /// In permil.
    pub liq_fee: u16,
    pub dex_market: Pubkey,
}

/// What a trader has open on one market.
#[derive(Clone, Copy, Debug, PartialEq, Eq, Structural)]
pub struct OpenOrdersInfo {
    pub key: Pubkey,
    pub native_pc_total: i64,
    pub pos_size: i64,
    pub realized_pnl: i64,
    pub coin_on_bids: u64,
    pub coin_on_asks: u64,
    pub order_count: u8,
    pub funding_index: i128,
}

/// One source of an oracle price.
#[derive(Clone, Copy, Debug, PartialEq, Eq, Structural)]
pub struct OracleSource {
    pub ty: OracleType,
    pub key: Pubkey,
}

/// The cached price of one asset.
#[derive(Clone, Copy, Debug)]
pub struct OracleCache {
    pub symbol: Symbol,
    pub sources: [OracleSource; 3],
    pub last_updated: u64,
    /// Native quote units per native asset unit.
    pub price: WrappedI80F48,
    pub twap: WrappedI80F48,
    pub base_decimals: u8,
    pub quote_decimals: u8,
}

impl OracleCache {
    /// Whether the price is older than `max_age` at `current_time`.
    pub fn is_stale(&self, current_time: u64, max_age: u64) -> (r: bool)
        requires
            current_time >= self.last_updated,
        ensures
            r == (current_time - self.last_updated > max_age),
    {
        current_time - self.last_updated > max_age
    }
}

/// The hourly average of a mark price, sampled every five minutes.
#[derive(Clone, Copy, Debug, PartialEq, Eq, Structural)]
pub struct TwapInfo {
    pub cumul_avg: WrappedI80F48,
    pub open: WrappedI80F48,
    pub high: WrappedI80F48,
    pub low: WrappedI80F48,
    pub close: WrappedI80F48,
    pub last_sample_start_time: u64,
}

/// The cached mark price of one market.
#[derive(Clone, Copy, Debug, PartialEq, Eq, Structural)]
pub struct MarkCache {
    /// Native quote units per native asset unit.
    pub price: WrappedI80F48,
    pub twap: TwapInfo,
}

/// The cached lending state of one collateral.
#[derive(Clone, Copy, Debug, PartialEq, Eq, Structural)]
pub struct BorrowCache {
    pub supply: WrappedI80F48,
    pub borrows: WrappedI80F48,
    pub supply_multiplier: WrappedI80F48,
    pub borrow_multiplier: WrappedI80F48,
    pub last_updated: u64,
}

/// The exchange's global state.
#[derive(Clone, Copy, Debug)]
pub struct State {
    pub signer_nonce: u8,
    pub admin: Pubkey,
    pub cache: Pubkey,
    pub swap_fee_vault: Pubkey,
    /// In native quote units.
    pub insurance: u64,
    pub fees_accrued: [u64; 25],
    pub vaults: [Pubkey; 25],
    pub collaterals: [CollateralInfo; 25],
    pub perp_markets: [PerpMarketInfo; 50],
    pub total_collaterals: u16,
    pub total_markets: u16,
}

impl State {
    /// The first entry among the collaterals with the given mint, if there
    /// is one.
    pub fn get_collateral_index(&self, mint: &Pubkey) -> (r: Option<usize>)
        ensures
            match r {
                Some(i) => {
                    &&& i < MAX_COLLATERALS
                    &&& self.collaterals@[i as int].mint == *mint
                    &&& forall|k: int| 0 <= k < i ==> (#[trigger] self.collaterals@[k]).mint != *mint
                },
                None => forall|k: int|
                    0 <= k < MAX_COLLATERALS ==> (#[trigger] self.collaterals@[k]).mint != *mint,
            },
    {
        let mut i: usize = 0;
        while i < 25
            invariant
                i <= 25,
                forall|k: int| 0 <= k < i ==> (#[trigger] self.collaterals@[k]).mint != *mint,
            decreases 25 - i,
        {
            if self.collaterals[i].mint == *mint {
                return Some(i);
            }
            i += 1;
        }
        None
    }
}

/// A trader's margin account.
#[derive(Clone, Copy, Debug)]
pub struct Margin {
    pub nonce: u8,
    pub authority: Pubkey,
    pub collateral: [WrappedI80F48; 25],
    pub control: Pubkey,
}

/// The exchange's cache of prices and rates.
#[derive(Clone, Copy, Debug)]
pub struct Cache {
    pub oracles: [OracleCache; 25],
    pub marks: [MarkCache; 50],
    pub funding_cache: [i128; 50],
    pub borrow_cache: [BorrowCache; 25],
}

/// Whether the oracles stand in the order of their symbols.
pub open spec fn oracles_sorted(oracles: Seq<OracleCache>) -> bool {
    forall|i: int, j: int|
        0 <= i < j < oracles.len() ==> rank((#[trigger] oracles[i]).symbol@) <= rank(
            (#[trigger] oracles[j]).symbol@,
        )
}

/// Whether some oracle is cached under the symbol `s`.
pub open spec fn has_oracle(oracles: Seq<OracleCache>, s: Seq<u8>) -> bool {
    exists|i: int| 0 <= i < oracles.len() && (#[trigger] oracles[i]).symbol@ == s
}

impl Cache {
    /// Looks the symbol up among the oracles by bisection. An index that
    /// comes back holds the symbol. Where the oracles stand in the order of
    /// their symbols, one comes back whenever an oracle holds the symbol.
    /// The nil symbol is never looked up.
    pub fn get_oracle_index(&self, s: &Symbol) -> (r: Result<usize, ErrorCode>)
        ensures
            r matches Ok(i) ==> i < MAX_COLLATERALS && self.oracles@[i as int].symbol@ == s@,
            is_nil_bytes(s@) ==> r is Err,
            oracles_sorted(self.oracles@) && !is_nil_bytes(s@) ==> (r is Ok <==> has_oracle(
                self.oracles@,
                s@,
            )),
    {
        if s.is_nil() {
            return Err(ErrorCode::OracleDoesNotExist);
        }
        let mut lo: usize = 0;
        let mut hi: usize = 25;
        while lo < hi
            invariant
                lo <= hi <= 25,
                !is_nil_bytes(s@),
                oracles_sorted(self.oracles@) ==> forall|k: int|
                    0 <= k < lo ==> rank((#[trigger] self.oracles@[k]).symbol@) < rank(s@),
                oracles_sorted(self.oracles@) ==> forall|k: int|
                    hi <= k < 25 ==> rank((#[trigger] self.oracles@[k]).symbol@) > rank(s@),
            decreases hi - lo,
        {
            let mid: usize = lo + (hi - lo) / 2;
            let here: &Symbol = &self.oracles[mid].symbol;
            if here.same(s) {
                return Ok(mid);
            } else if here.precedes(s) {
                lo = mid + 1;
            } else {
                proof {
                    here.lemma_len();
                    s.lemma_len();
                    if rank(here@) == rank(s@) {
                        lemma_rank_injective(here@, s@);
                    }
                }
                hi = mid;
            }
        }
        proof {
            if oracles_sorted(self.oracles@) && has_oracle(self.oracles@, s@) {
                let k = choose|k: int| 0 <= k < 25 && (#[trigger] self.oracles@[k]).symbol@ == s@;
                assert(rank(self.oracles@[k].symbol@) == rank(s@));
            }
        }
        Err(ErrorCode::OracleDoesNotExist)
    }

    /// The oracle cached under the symbol, found as `get_oracle_index`
    /// finds it.
    pub fn get_oracle(&self, s: &Symbol) -> (r: Result<&OracleCache, ErrorCode>)
        ensures
            r matches Ok(oracle) ==> oracle.symbol@ == s@ && has_oracle(self.oracles@, s@),
            is_nil_bytes(s@) ==> r is Err,
            oracles_sorted(self.oracles@) && !is_nil_bytes(s@) ==> (r is Ok <==> has_oracle(
                self.oracles@,
                s@,
            )),
    {
        match self.get_oracle_index(s) {
            Ok(i) => Ok(&self.oracles[i]),
            Err(e) => Err(e),
        }
    }
}

/// A trader's open orders on every market.
#[derive(Clone, Copy, Debug)]
pub struct Control {
    pub authority: Pubkey,
    pub open_orders_agg: [OpenOrdersInfo; 50],
}

} // verus!
