use fixed::types::I80F48;
use zo_abi::{
    BorrowCache, Cache, CollateralInfo, ErrorCode, MarkCache, OracleCache, OracleSource, OracleType,
    PerpMarketInfo, PerpType, Pubkey, State, Symbol, TwapInfo, WrappedI80F48,
};

fn collateral(mint: [u8; 32]) -> CollateralInfo {
    CollateralInfo {
        mint: Pubkey::new_from_array(mint),
        oracle_symbol: Symbol::from_name("USDC"),
        decimals: 6,
        weight: 1000,
        liq_fee: 10,
        is_borrowable: true,
        optimal_util: 700,
        optimal_rate: 100,
        max_rate: 1000,
        og_fee: 10,
        is_swappable: false,
        serum_open_orders: Pubkey::default(),
        max_deposit: 1_000_000,
        dust_threshold: 1,
    }
}

fn perp_market() -> PerpMarketInfo {
    PerpMarketInfo {
        symbol: Symbol::from_name("BTC-PERP"),
        oracle_symbol: Symbol::from_name("BTC"),
        perp_type: PerpType::Future,
        asset_decimals: 6,
        asset_lot_size: 100,
        quote_lot_size: 10,
        strike: 0,
        base_imf: 100,
        liq_fee: 20,
        dex_market: Pubkey::default(),
    }
}

fn state(mints: &[[u8; 32]]) -> State {
    let mut collaterals = [collateral([0u8; 32]); 25];
    for (i, mint) in mints.iter().enumerate() {
        collaterals[i] = collateral(*mint);
    }
    State {
        signer_nonce: 1,
        admin: Pubkey::default(),
        cache: Pubkey::default(),
        swap_fee_vault: Pubkey::default(),
        insurance: 0,
        fees_accrued: [0; 25],
        vaults: [Pubkey::default(); 25],
        collaterals,
        perp_markets: [perp_market(); 50],
        total_collaterals: mints.len() as u16,
        total_markets: 0,
    }
}

fn oracle(name: &str, last_updated: u64) -> OracleCache {
    OracleCache {
        symbol: Symbol::from_name(name),
        sources: [OracleSource { ty: OracleType::Nil, key: Pubkey::default() }; 3],
        last_updated,
        price: WrappedI80F48::from(7u64),
        twap: WrappedI80F48::zero(),
        base_decimals: 6,
        quote_decimals: 6,
    }
}

fn cache(names: &[&str]) -> Cache {
    let mut oracles = [oracle("", 0); 25];
    let first = 25 - names.len();
    for (i, name) in names.iter().enumerate() {
        oracles[first + i] = oracle(name, 100 + i as u64);
    }
    let twap = TwapInfo {
        cumul_avg: WrappedI80F48::zero(),
        open: WrappedI80F48::zero(),
        high: WrappedI80F48::zero(),
        low: WrappedI80F48::zero(),
        close: WrappedI80F48::zero(),
        last_sample_start_time: 0,
    };
    let borrow = BorrowCache {
        supply: WrappedI80F48::zero(),
        borrows: WrappedI80F48::zero(),
        supply_multiplier: WrappedI80F48::from(1u8),
        borrow_multiplier: WrappedI80F48::from(1u8),
        last_updated: 0,
    };
    Cache {
        oracles,
        marks: [MarkCache { price: WrappedI80F48::zero(), twap }; 50],
        funding_cache: [0; 50],
        borrow_cache: [borrow; 25],
    }
}

#[test]
fn symbol_is_nil_only_when_all_zero() {
    assert!(Symbol::from_name("").is_nil());
    assert!(Symbol::from_bytes([0u8; 24]).is_nil());
    assert!(Symbol::default().is_nil());
    assert!(!Symbol::from_name("A").is_nil());
    for at in 0..24 {
        let mut bytes = [0u8; 24];
        bytes[at] = 1;
        assert!(!Symbol::from_bytes(bytes).is_nil());
    }
}

#[test]
fn symbol_from_name_pads_with_zeros() {
    let symbol = Symbol::from_name("BTC-PERP");
    let mut expected = [0u8; 24];
    expected[..8].copy_from_slice(b"BTC-PERP");
    assert_eq!(symbol.to_bytes(), expected);
    assert_eq!(symbol.len(), 8);
    assert_eq!(Symbol::from_name("123456789012345678901234").to_bytes(), *b"123456789012345678901234");
    assert_eq!(Symbol::from_name("123456789012345678901234").len(), 24);
    assert_eq!(Symbol::from_name("").len(), 0);
}

#[test]
fn symbol_to_string_stops_at_the_first_zero() {
    assert_eq!(Symbol::from_name("BTC-PERP").to_string(), "BTC-PERP");
    assert_eq!(Symbol::from_name("").to_string(), "");
    assert_eq!(Symbol::from_name("123456789012345678901234").to_string(), "123456789012345678901234");
    let mut bytes = [0u8; 24];
    bytes[..5].copy_from_slice(b"AB\0CD");
    assert_eq!(Symbol::from_bytes(bytes).to_string(), "AB");
    assert_eq!(Symbol::from_bytes(bytes).len(), 2);
    assert_eq!(Symbol::from_name("é€").to_string(), "é€");
}

#[test]
fn symbol_to_string_replaces_what_is_no_utf8() {
    let mut bytes = [0u8; 24];
    bytes[..3].copy_from_slice(&[b'A', 0xff, b'B']);
    assert_eq!(Symbol::from_bytes(bytes).to_string(), "A\u{fffd}B");
}

#[test]
fn symbol_order_is_byte_order() {
    let names = ["", "A", "AA", "AB", "B", "BTC", "BTC-PERP", "ETH", "a", "é"];
    for (i, a) in names.iter().enumerate() {
        for (j, b) in names.iter().enumerate() {
            let (x, y) = (Symbol::from_name(a), Symbol::from_name(b));
            assert_eq!(x.precedes(&y), i < j);
            assert_eq!(x.precedes(&y), x < y);
            assert_eq!(x.same(&y), i == j);
            assert_eq!(x.same(&y), x == y);
        }
    }
    let mut low = [0u8; 24];
    let mut high = [0u8; 24];
    low[23] = 255;
    high[22] = 1;
    assert!(Symbol::from_bytes(low).precedes(&Symbol::from_bytes(high)));
    low[7] = 1;
    low[8] = 0;
    high = [0u8; 24];
    high[8] = 255;
    assert!(Symbol::from_bytes(high).precedes(&Symbol::from_bytes(low)));
}

#[test]
fn wrapped_zero_has_zero_bits() {
    assert_eq!(WrappedI80F48::zero().data, 0);
    assert_eq!(WrappedI80F48::default().data, 0);
    assert_eq!(WrappedI80F48::zero().data, I80F48::ZERO.to_bits());
}

#[test]
fn wrapped_from_integers_shifts_by_48() {
    assert_eq!(WrappedI80F48::from(3u64).data, 3i128 << 48);
    assert_eq!(WrappedI80F48::from(1u8).data, 1i128 << 48);
    assert_eq!(WrappedI80F48::from(-1i8).data, -(1i128 << 48));
    assert_eq!(WrappedI80F48::from(u16::MAX).data, 65_535i128 << 48);
    assert_eq!(WrappedI80F48::from(i16::MIN).data, -32_768i128 << 48);
    assert_eq!(WrappedI80F48::from(u32::MAX).data, (u32::MAX as i128) << 48);
    assert_eq!(WrappedI80F48::from(i32::MIN).data, (i32::MIN as i128) << 48);
    assert_eq!(WrappedI80F48::from(u64::MAX).data, (u64::MAX as i128) << 48);
    assert_eq!(WrappedI80F48::from(i64::MIN).data, (i64::MIN as i128) << 48);
    assert_eq!(WrappedI80F48::from(i64::MAX).data, I80F48::from_num(i64::MAX).to_bits());
    assert_eq!(WrappedI80F48::from(0u64), WrappedI80F48::zero());
}

#[test]
fn collateral_is_empty_when_mint_is_zero() {
    assert!(collateral([0u8; 32]).is_empty());
    let mut mint = [0u8; 32];
    mint[31] = 1;
    assert!(!collateral(mint).is_empty());
}

#[test]
fn oracle_staleness() {
    let cached = oracle("BTC", 1_000);
    assert!(!cached.is_stale(1_000, 60));
    assert!(!cached.is_stale(1_060, 60));
    assert!(cached.is_stale(1_061, 60));
    assert!(cached.is_stale(1_001, 0));
}

#[test]
fn state_finds_the_first_collateral_with_a_mint() {
    let (a, b, c) = ([1u8; 32], [2u8; 32], [3u8; 32]);
    let state = state(&[a, b, a, c]);
    assert_eq!(state.get_collateral_index(&Pubkey::new_from_array(a)), Some(0));
    assert_eq!(state.get_collateral_index(&Pubkey::new_from_array(b)), Some(1));
    assert_eq!(state.get_collateral_index(&Pubkey::new_from_array(c)), Some(3));
    assert_eq!(state.get_collateral_index(&Pubkey::default()), Some(4));
    assert_eq!(state.get_collateral_index(&Pubkey::new_from_array([9u8; 32])), None);
}

#[test]
fn cache_finds_oracles_by_symbol() {
    let cache = cache(&["BTC", "ETH", "SOL", "USDC"]);
    assert_eq!(cache.get_oracle_index(&Symbol::from_name("BTC")), Ok(21));
    assert_eq!(cache.get_oracle_index(&Symbol::from_name("ETH")), Ok(22));
    assert_eq!(cache.get_oracle_index(&Symbol::from_name("SOL")), Ok(23));
    assert_eq!(cache.get_oracle_index(&Symbol::from_name("USDC")), Ok(24));
    assert_eq!(cache.get_oracle(&Symbol::from_name("SOL")).unwrap().last_updated, 102);
    assert_eq!(cache.get_oracle(&Symbol::from_name("SOL")).unwrap().symbol, Symbol::from_name("SOL"));
    for missing in ["A", "BTD", "ETG", "ZZZ", "btc"] {
        assert_eq!(
            cache.get_oracle_index(&Symbol::from_name(missing)),
            Err(ErrorCode::OracleDoesNotExist)
        );
        assert_eq!(
            cache.get_oracle(&Symbol::from_name(missing)).err(),
            Some(ErrorCode::OracleDoesNotExist)
        );
    }
}

#[test]
fn cache_never_finds_the_nil_symbol() {
    let cache = cache(&["BTC"]);
    assert_eq!(cache.get_oracle_index(&Symbol::from_name("")), Err(ErrorCode::OracleDoesNotExist));
    assert_eq!(cache.get_oracle(&Symbol::default()).err(), Some(ErrorCode::OracleDoesNotExist));
}

#[test]
fn cache_full_of_oracles() {
    let names: Vec<String> = (0..25).map(|i| format!("S{:02}", i)).collect();
    let refs: Vec<&str> = names.iter().map(|s| s.as_str()).collect();
    let cache = cache(&refs);
    for (i, name) in refs.iter().enumerate() {
        assert_eq!(cache.get_oracle_index(&Symbol::from_name(name)), Ok(i));
    }
}
