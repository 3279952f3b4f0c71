use zo_abi::dex::{FormatError, LeafNode, Order, Side, ZoDexMarket};
use zo_abi::Pubkey;

const MARKET_FLAGS: u64 = 0x203;

fn address(seed: u8) -> [u8; 32] {
    let mut bytes = [0u8; 32];
    for i in 0..32 {
        bytes[i] = seed.wrapping_mul(7).wrapping_add(i as u8);
    }
    bytes
}

fn market_buffer(flags: u64) -> Vec<u8> {
    let mut buf = Vec::new();
    buf.extend_from_slice(b"serum");
    buf.extend_from_slice(&flags.to_le_bytes());
    buf.extend_from_slice(&address(1));
    buf.extend_from_slice(&11u64.to_le_bytes());
    buf.extend_from_slice(&address(2));
    buf.extend_from_slice(&address(3));
    buf.extend_from_slice(&address(4));
    buf.extend_from_slice(&address(5));
    buf.extend_from_slice(&1_000u64.to_le_bytes());
    buf.extend_from_slice(&10u64.to_le_bytes());
    buf.extend_from_slice(&22u64.to_le_bytes());
    buf.extend_from_slice(&33u64.to_le_bytes());
    buf.extend_from_slice(&(-5_000_000_000_000_000_000_000i128).to_le_bytes());
    buf.extend_from_slice(&0x0102_0304_0506_0708u64.to_le_bytes());
    buf.extend_from_slice(&55u64.to_le_bytes());
    buf.extend_from_slice(&3u64.to_le_bytes());
    buf.extend_from_slice(&9u64.to_le_bytes());
    buf.extend_from_slice(&u64::MAX.to_le_bytes());
    buf.extend_from_slice(&address(6));
    buf.extend_from_slice(&address(7));
    buf.extend_from_slice(&[0xaau8; 1032]);
    buf.extend_from_slice(b"padding");
    assert_eq!(buf.len(), 1372);
    buf
}

#[test]
fn market_decodes_every_field() {
    let market = ZoDexMarket::deserialize(&market_buffer(MARKET_FLAGS)).unwrap();
    assert_eq!(
        market,
        ZoDexMarket {
            account_flags: 0x203,
            own_address: Pubkey::new_from_array(address(1)),
            pc_fees_accrued: 11,
            req_q: Pubkey::new_from_array(address(2)),
            event_q: Pubkey::new_from_array(address(3)),
            bids: Pubkey::new_from_array(address(4)),
            asks: Pubkey::new_from_array(address(5)),
            coin_lot_size: 1_000,
            pc_lot_size: 10,
            fee_rate_bps: 22,
            referrer_rebates_accrued: 33,
            funding_index: -5_000_000_000_000_000_000_000,
            last_updated: 0x0102_0304_0506_0708,
            strike: 55,
            perp_type: 3,
            coin_decimals: 9,
            open_interest: u64::MAX,
            open_orders_authority: Pubkey::new_from_array(address(6)),
            prune_authority: Pubkey::new_from_array(address(7)),
        }
    );
    assert_eq!(market.own_address.to_bytes(), address(1));
    assert_eq!(market.prune_authority.to_bytes(), address(7));
}

#[test]
fn market_decodes_signed_funding_index() {
    let mut buf = market_buffer(MARKET_FLAGS);
    buf[213..229].copy_from_slice(&i128::MIN.to_le_bytes());
    assert_eq!(ZoDexMarket::deserialize(&buf).unwrap().funding_index, i128::MIN);
    buf[213..229].copy_from_slice(&i128::MAX.to_le_bytes());
    assert_eq!(ZoDexMarket::deserialize(&buf).unwrap().funding_index, i128::MAX);
    buf[213..229].copy_from_slice(&(-1i128).to_le_bytes());
    assert_eq!(ZoDexMarket::deserialize(&buf).unwrap().funding_index, -1);
    buf[213..229].copy_from_slice(&0i128.to_le_bytes());
    assert_eq!(ZoDexMarket::deserialize(&buf).unwrap().funding_index, 0);
}

#[test]
fn market_accepts_only_the_exact_flags() {
    assert!(ZoDexMarket::deserialize(&market_buffer(0x203)).is_ok());
    for bit in 0..64 {
        let flags = 0x203u64 ^ (1u64 << bit);
        assert_eq!(
            ZoDexMarket::deserialize(&market_buffer(flags)).err(),
            Some(FormatError::BadFlags)
        );
    }
    assert_eq!(ZoDexMarket::deserialize(&market_buffer(0)).err(), Some(FormatError::BadFlags));
    assert_eq!(ZoDexMarket::deserialize(&market_buffer(0x3)).err(), Some(FormatError::BadFlags));
}

#[test]
fn market_rejects_wrong_length() {
    let buf = market_buffer(MARKET_FLAGS);
    assert_eq!(ZoDexMarket::deserialize(&buf[..1371]).err(), Some(FormatError::SizeMismatch));
    assert_eq!(ZoDexMarket::deserialize(&[]).err(), Some(FormatError::SizeMismatch));
    let mut long = buf.clone();
    long.push(0);
    assert_eq!(ZoDexMarket::deserialize(&long).err(), Some(FormatError::SizeMismatch));
}

#[test]
fn market_rejects_corrupted_tags() {
    for at in 0..5 {
        let mut buf = market_buffer(MARKET_FLAGS);
        buf[at] ^= 0x20;
        assert_eq!(ZoDexMarket::deserialize(&buf).err(), Some(FormatError::BadMagic));
    }
    for at in 1365..1372 {
        let mut buf = market_buffer(MARKET_FLAGS);
        buf[at] ^= 0x01;
        assert_eq!(ZoDexMarket::deserialize(&buf).err(), Some(FormatError::BadMagic));
    }
}

#[test]
fn market_reports_magic_before_flags() {
    let mut buf = market_buffer(0);
    buf[0] = 0;
    assert_eq!(ZoDexMarket::deserialize(&buf).err(), Some(FormatError::BadMagic));
}

#[test]
fn market_lot_conversions() {
    let market = ZoDexMarket::deserialize(&market_buffer(MARKET_FLAGS)).unwrap();
    assert_eq!(market.lots_to_quote(250), (2, 500));
    assert_eq!(market.lots_to_quote(0), (0, 0));
    assert_eq!(market.lots_to_quote(100), (1, 0));
    assert_eq!(market.lots_to_quote(99), (0, 990));
    assert_eq!(market.lots_to_native(7), 7_000);
    assert_eq!(market.native_to_lots(7_999), 7);
    assert_eq!(market.native_to_lots(8_000), 8);
    assert_eq!(market.native_to_lots(999), 0);
}

#[test]
fn market_lots_round_trip_on_whole_lots() {
    let market = ZoDexMarket::deserialize(&market_buffer(MARKET_FLAGS)).unwrap();
    for lots in [0u64, 1, 2, 17, 1_000_000] {
        assert_eq!(market.native_to_lots(market.lots_to_native(lots)), lots);
    }
}

#[test]
fn market_parses_an_order() {
    let market = ZoDexMarket::deserialize(&market_buffer(MARKET_FLAGS)).unwrap();
    let leaf = LeafNode {
        owner_slot: 4,
        fee_tier: 1,
        key: (250u128 << 64) | 77,
        control: Pubkey::new_from_array(address(9)),
        quantity: 12,
        client_order_id: 31,
    };
    assert_eq!(
        market.parse_order(&leaf, Side::Ask),
        Order {
            owner_slot: 4,
            fee_tier: 1,
            control: Pubkey::new_from_array(address(9)),
            order_id: (250u128 << 64) | 77,
            client_order_id: 31,
            size: 12_000,
            price: 2,
            price_rem: 500,
            side: Side::Ask,
        }
    );
    assert_eq!(market.parse_order(&leaf, Side::Bid).side, Side::Bid);
}
