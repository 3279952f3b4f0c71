//! The market record: the parameters of one trading pair.

use crate::dex::bytes::{has_head_tag, has_tail_tag, le_i128, le_u64, read_i128, read_u64};
use crate::dex::error::FormatError;
use crate::dex::flags::{flag_word, lemma_market_flags_exact, AccountFlag, Side, MARKET_FLAGS};
use crate::dex::header::{frame_error, validate};
use crate::dex::slab::LeafNode;
use crate::pubkey::{pubkey_at, Pubkey};
use vstd::prelude::*;

verus! {

/// The length in bytes of a market account.
pub const MARKET_LEN: usize = 1372;

/// The parameters of one market, copied out of its account.
#[derive(Clone, Copy, Debug, PartialEq, Eq, Structural)]
pub struct ZoDexMarket {
    pub account_flags: u64,
    pub own_address: Pubkey,
    pub pc_fees_accrued: u64,
    pub req_q: Pubkey,
    pub event_q: Pubkey,
    pub bids: Pubkey,
    pub asks: Pubkey,
    pub coin_lot_size: u64,
    pub pc_lot_size: u64,
    pub fee_rate_bps: u64,
    pub referrer_rebates_accrued: u64,
    pub funding_index: i128,
    pub last_updated: u64,
    pub strike: u64,
    pub perp_type: u64,
    pub coin_decimals: u64,
    pub open_interest: u64,
    pub open_orders_authority: Pubkey,
    pub prune_authority: Pubkey,
}

/// A resting order in the market's own units, ready to be scaled by the
/// market's decimals.
#[derive(Clone, Copy, Debug, PartialEq, Eq, Structural)]
pub struct Order {
    pub owner_slot: u8,
    pub fee_tier: u8,
    pub control: Pubkey,
    pub order_id: u128,
    pub client_order_id: u64,
    /// The open quantity in native base units.
    pub size: u64,
    /// The whole quote units per base lot.
    pub price: u64,
    /// What is left of the price after the whole units, as a numerator
    /// over the base lot size.
    pub price_rem: u64,
    pub side: Side,
}

/// Why a buffer is no market account, or `None` if it is one: a market is
/// 1372 bytes long, closed by the tail tag, and flagged as initialized,
/// market and permissioned, no more and no less.
pub open spec fn market_error(b: Seq<u8>) -> Option<FormatError> {
    frame_error(b, MARKET_LEN as nat, true, MARKET_FLAGS)
}

/// A buffer of a market's length with both tags decodes exactly when its
/// flags are initialized, market and permissioned and no other; with any
/// other set of flags it is refused for its flags.
pub proof fn lemma_market_accepts_exact_flags(b: Seq<u8>, flags: Set<AccountFlag>)
    requires
        b.len() == MARKET_LEN,
        has_head_tag(b),
        has_tail_tag(b),
        le_u64(b, 5) == flag_word(flags),
    ensures
        market_error(b) is None <==> flags =~= set![
            AccountFlag::Initialized,
            AccountFlag::Market,
            AccountFlag::Permissioned,
        ],
        market_error(b) is Some ==> market_error(b) == Some(FormatError::BadFlags),
{
    lemma_market_flags_exact(flags);
}

/// The market whose fields the bytes of `b` spell, each little-endian at
/// its fixed place.
pub open spec fn market_at(b: Seq<u8>) -> ZoDexMarket {
    ZoDexMarket {
        account_flags: le_u64(b, 5) as u64,
        own_address: pubkey_at(b, 13),
        pc_fees_accrued: le_u64(b, 45) as u64,
        req_q: pubkey_at(b, 53),
        event_q: pubkey_at(b, 85),
        bids: pubkey_at(b, 117),
        asks: pubkey_at(b, 149),
        coin_lot_size: le_u64(b, 181) as u64,
        pc_lot_size: le_u64(b, 189) as u64,
        fee_rate_bps: le_u64(b, 197) as u64,
        referrer_rebates_accrued: le_u64(b, 205) as u64,
        funding_index: le_i128(b, 213) as i128,
        last_updated: le_u64(b, 229) as u64,
        strike: le_u64(b, 237) as u64,
        perp_type: le_u64(b, 245) as u64,
        coin_decimals: le_u64(b, 253) as u64,
        open_interest: le_u64(b, 261) as u64,
        open_orders_authority: pubkey_at(b, 269),
        prune_authority: pubkey_at(b, 301),
    }
}

impl ZoDexMarket {
    /// Decodes a market account. The buffer is accepted if and only if it
    /// has the length of a market, both tags, and exactly the market's flag
    /// word; every field is then copied out by value.
    pub fn deserialize(buf: &[u8]) -> (r: Result<ZoDexMarket, FormatError>)
        ensures
            r == match market_error(buf@) {
                Some(e) => Err::<ZoDexMarket, FormatError>(e),
                None => Ok(market_at(buf@)),
            },
    {
        let rec: &[u8; 1372] = match validate::<1372>(buf, true, MARKET_FLAGS) {
            Ok(rec) => rec,
            Err(e) => {
                return Err(e);
            },
        };
        let b: &[u8] = rec.as_slice();
        let account_flags: u64 = read_u64(b, 5);
        Ok(
            ZoDexMarket {
                account_flags,
                own_address: Pubkey::read(b, 13),
                pc_fees_accrued: read_u64(b, 45),
                req_q: Pubkey::read(b, 53),
                event_q: Pubkey::read(b, 85),
                bids: Pubkey::read(b, 117),
                asks: Pubkey::read(b, 149),
                coin_lot_size: read_u64(b, 181),
                pc_lot_size: read_u64(b, 189),
                fee_rate_bps: read_u64(b, 197),
                referrer_rebates_accrued: read_u64(b, 205),
                funding_index: read_i128(b, 213),
                last_updated: read_u64(b, 229),
                strike: read_u64(b, 237),
                perp_type: read_u64(b, 245),
                coin_decimals: read_u64(b, 253),
                open_interest: read_u64(b, 261),
                open_orders_authority: Pubkey::read(b, 269),
                prune_authority: Pubkey::read(b, 301),
            },
        )
    }

    /// The price of `lots` price lots as quote units per base lot: the
    /// whole units, and the remainder as a numerator over the base lot
    /// size. Scaling by the decimals is left to the caller.
    pub fn lots_to_quote(&self, lots: u64) -> (r: (u64, u64))
        requires
            self.coin_lot_size > 0,
            lots * self.pc_lot_size <= u64::MAX,
        ensures
            r.0 == (lots * self.pc_lot_size) / (self.coin_lot_size as int),
            r.1 == (lots * self.pc_lot_size) % (self.coin_lot_size as int),
    {
        let n: u64 = lots * self.pc_lot_size;
        (n / self.coin_lot_size, n % self.coin_lot_size)
    }

    /// The quantity of `lots` base lots in native base units.
    pub fn lots_to_native(&self, lots: u64) -> (r: u64)
        requires
            lots * self.coin_lot_size <= u64::MAX,
        ensures
            r == lots * self.coin_lot_size,
    {
        lots * self.coin_lot_size
    }

    /// The whole base lots in `native` base units; what does not fill a lot
    /// is dropped.
    pub fn native_to_lots(&self, native: u64) -> (r: u64)
        requires
            self.coin_lot_size > 0,
        ensures
            r == native / self.coin_lot_size,
    {
        native / self.coin_lot_size
    }

    /// The order that a leaf of this market's book stands for, on the given
    /// side.
    pub fn parse_order(&self, n: &LeafNode, side: Side) -> (r: Order)
        requires
            self.coin_lot_size > 0,
            n.quantity * self.coin_lot_size <= u64::MAX,
            n.price_lots() * self.pc_lot_size <= u64::MAX,
        ensures
            r == (Order {
                owner_slot: n.owner_slot,
                fee_tier: n.fee_tier,
                control: n.control,
                order_id: n.key,
                client_order_id: n.client_order_id,
                size: (n.quantity * self.coin_lot_size) as u64,
                price: ((n.price_lots() * self.pc_lot_size) / (self.coin_lot_size as int)) as u64,
                price_rem: ((n.price_lots() * self.pc_lot_size) % (self.coin_lot_size as int)) as u64,
                side,
            }),
    {
        let price_lots: u64 = (n.key / 0x1_0000_0000_0000_0000) as u64;
        let (price, price_rem) = self.lots_to_quote(price_lots);
        Order {
            owner_slot: n.owner_slot,
            fee_tier: n.fee_tier,
            control: n.control,
            order_id: n.key,
            client_order_id: n.client_order_id,
            size: self.lots_to_native(n.quantity),
            price,
            price_rem,
            side,
        }
    }
}

} // verus!
