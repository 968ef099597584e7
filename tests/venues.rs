use amm_sync::amm::AMM;
use amm_sync::currency::Currency;
use amm_sync::erc_4626::{deposit_event_signature, withdraw_event_signature, ERC4626Vault};
use amm_sync::errors::{EventLogError, SwapSimulationError};
use amm_sync::event_log::{read_word, EventLog};
use amm_sync::factory::{Factory, UniswapV2Factory};
use amm_sync::primitives::{H160, H256, U256};
use amm_sync::uniswap_v2::{pair_created_event_signature, sync_event_signature, UniswapV2Pool};

const ONE_Q64: f64 = 18446744073709551616.0;

fn q64_to_f64(x: u128) -> f64 {
    x as f64 / ONE_Q64
}

fn word(v: u128) -> Vec<u8> {
    let mut out = vec![0u8; 16];
    out.extend_from_slice(&v.to_be_bytes());
    out
}

fn big_word(hi: u128, lo: u128) -> Vec<u8> {
    let mut out = hi.to_be_bytes().to_vec();
    out.extend_from_slice(&lo.to_be_bytes());
    out
}

fn log(address: H160, topics: Vec<H256>, data: Vec<u8>, block: Option<u64>, index: Option<u64>) -> EventLog {
    EventLog { address, topics, data, block_number: block, log_index: index }
}

fn token_a() -> H160 {
    H160::new(0x0d500b1d, 0x8e8ef31e21c99d1db9a6444d3adf1270)
}

fn token_b() -> H160 {
    H160::new(0x8f18dc39, 0x9594b451eda8c5da02d0563c0b2d0f16)
}

fn pool(reserve_0: u128, reserve_1: u128, fee: u32) -> UniswapV2Pool {
    UniswapV2Pool::new(
        H160::new(0x652a7b75, 0xc229850714d4a11e856052aac3e9b065),
        Currency::new(token_a()),
        Currency::new(token_b()),
        reserve_0,
        reserve_1,
        (0, 0),
        fee,
    )
}

fn vault_token() -> H160 {
    H160::new(0x163538E2, 0x2F4d38c1eb21B79939f3d2ee274198Ff)
}

fn asset_token() -> H160 {
    H160::new(0x6B175474, 0xE89094C44Da98b954EedeAC495271d0F)
}

fn dec(s: &str) -> U256 {
    let v: u128 = s.parse().unwrap();
    U256::from_u128(v)
}

fn vault(vault_reserve: U256, asset_reserve: U256, asset_decimals: u8) -> ERC4626Vault {
    ERC4626Vault::new(vault_token(), 18, asset_token(), asset_decimals, vault_reserve, asset_reserve, 0, 0, (0, 0))
}

#[test]
fn test_calculate_price_edge_case() {
    let x = pool(23595096345912178729927, 154664232014390554564, 300);
    let a = x.calculate_price_64_x_64(token_a()).unwrap();
    let b = x.calculate_price_64_x_64(token_b()).unwrap();
    assert_ne!(q64_to_f64(a), 0.0);
    assert_ne!(q64_to_f64(b), 0.0);
    assert_eq!(a, 120917137336486685);
    assert_eq!(b, 2814178158832895476177);
}

#[test]
fn constant_product_swap_example() {
    let p = pool(1000, 1000, 30);
    assert_eq!(p.simulate_swap(token_a(), U256::from_u64(10)), Ok(U256::from_u64(9)));
    assert_eq!(p.get_amount_out(U256::from_u64(10), U256::from_u64(1000), U256::from_u64(1000)), U256::from_u64(9));
}

#[test]
fn swap_formula_exact_values() {
    let p = pool(5_000_000, 2_000_000, 25);
    // 1000 * 9975 * 2_000_000 / (5_000_000 * 10000 + 1000 * 9975)
    assert_eq!(p.simulate_swap(token_a(), U256::from_u64(1000)), Ok(U256::from_u64(398)));
    assert_eq!(p.simulate_swap(token_b(), U256::from_u64(1000)), Ok(U256::from_u64(2492)));
    assert_eq!(p.simulate_swap(token_a(), U256::zero()), Ok(U256::zero()));
    let empty = pool(0, 1000, 30);
    assert_eq!(empty.simulate_swap(token_a(), U256::from_u64(10)), Ok(U256::zero()));
}

#[test]
fn swap_overflow_is_reported() {
    let p = pool(u128::MAX, u128::MAX, 30);
    let huge = U256::from_halves(u128::MAX, 0);
    assert_eq!(p.simulate_swap(token_a(), huge), Err(SwapSimulationError::Overflow));
}

#[test]
fn swap_mut_moves_reserves() {
    let mut p = pool(1000, 1000, 30);
    assert_eq!(p.simulate_swap_mut(token_a(), U256::from_u64(10)), Ok(U256::from_u64(9)));
    assert_eq!((p.reserve_0, p.reserve_1), (1010, 991));
    assert_eq!(p.simulate_swap_mut(token_b(), U256::from_u64(100)), Ok(U256::from_u64(92)));
    assert_eq!((p.reserve_0, p.reserve_1), (918, 1091));
    let mut full = pool(u128::MAX - 5, 1000, 30);
    assert_eq!(full.simulate_swap_mut(token_a(), U256::from_u64(10)), Err(SwapSimulationError::Overflow));
    assert_eq!((full.reserve_0, full.reserve_1), (u128::MAX - 5, 1000));
}

#[test]
fn equal_decimals_price_example() {
    let p = pool(1000, 2000, 30);
    let price = p.calculate_price_64_x_64(token_a()).unwrap();
    assert_eq!(price, 2u128 << 64);
    assert_eq!(q64_to_f64(price), 2.0);
    assert_eq!(q64_to_f64(p.calculate_price_64_x_64(token_b()).unwrap()), 0.5);
}

#[test]
fn pool_price_normalizes_decimals() {
    let mut p = pool(1_000_000, 2_000_000_000_000_000_000, 30);
    p.token_a.decimals = 6;
    p.token_b.decimals = 18;
    assert_eq!(p.calculate_price_64_x_64(token_a()), Ok(2u128 << 64));
}

#[test]
fn vault_zero_reserve_example() {
    let v = vault(U256::zero(), U256::zero(), 18);
    assert_eq!(v.calculate_price_64_x_64(vault_token()), Ok(1u128 << 64));
    assert_eq!(v.calculate_price_64_x_64(asset_token()), Ok(1u128 << 64));
    assert_eq!(q64_to_f64(v.calculate_price_64_x_64(vault_token()).unwrap()), 1.0);
}

#[test]
fn test_calculate_price_zero_reserve() {
    let v = vault(dec("0"), dec("0"), 18);
    assert_eq!(q64_to_f64(v.calculate_price_64_x_64(v.vault_token).unwrap()), 1.0);
    assert_eq!(q64_to_f64(v.calculate_price_64_x_64(v.asset_token).unwrap()), 1.0);
}

#[test]
fn mod_test_calculate_price_64_x_64() {
    let v = vault(dec("501910315708981197269904"), dec("505434849031054568651911"), 18);
    assert_eq!(v.calculate_price_64_x_64(v.vault_token), Ok(18576281487340329878));
    assert_eq!(v.calculate_price_64_x_64(v.asset_token), Ok(18318109959350028841));
}

#[test]
fn mod_test_calculate_price() {
    let v = vault(dec("501910315708981197269904"), dec("505434849031054568651911"), 18);
    assert_eq!(q64_to_f64(v.calculate_price_64_x_64(v.vault_token).unwrap()), 1.0070222372638322);
    assert_eq!(q64_to_f64(v.calculate_price_64_x_64(v.asset_token).unwrap()), 0.9930267306877828);
}

#[test]
fn test_calculate_price_varying_decimals() {
    let v = vault(dec("501910315708981197269904"), dec("505434849031"), 6);
    assert_eq!(q64_to_f64(v.calculate_price_64_x_64(v.vault_token).unwrap()), 1.0070222372637234);
    assert_eq!(q64_to_f64(v.calculate_price_64_x_64(v.asset_token).unwrap()), 0.99302673068789);
}

#[test]
fn test_simulate_swap() {
    let v = vault(dec("501910315708981197269904"), dec("505434849031054568651911"), 18);
    let assets_out = v.simulate_swap(v.vault_token, dec("3000000000000000000")).unwrap();
    let shares_out = v.simulate_swap(v.asset_token, dec("3000000000000000000")).unwrap();
    assert_eq!(assets_out, dec("3021066711791496478"));
    assert_eq!(shares_out, dec("2979080192063348487"));
}

#[test]
fn vault_fees_and_edges() {
    let mut v = vault(U256::from_u64(1000), U256::from_u64(2000), 18);
    v.withdraw_fee = 100;
    v.deposit_fee = 50;
    // 100 * 2000 / 1000 = 200, less 1%
    assert_eq!(v.simulate_swap(vault_token(), U256::from_u64(100)), Ok(U256::from_u64(198)));
    // 100 * 1000 / 2000 = 50, less 0.5%
    assert_eq!(v.simulate_swap(asset_token(), U256::from_u64(100)), Ok(U256::from_u64(49)));
    let fresh = vault(U256::zero(), U256::zero(), 18);
    assert_eq!(fresh.simulate_swap(asset_token(), U256::from_u64(77)), Ok(U256::from_u64(77)));
    let no_assets = vault(U256::from_u64(10), U256::zero(), 18);
    assert_eq!(no_assets.simulate_swap(asset_token(), U256::from_u64(5)), Err(SwapSimulationError::ZeroReserve));
}

#[test]
fn vault_swap_mut_moves_reserves() {
    let mut v = vault(U256::from_u64(1000), U256::from_u64(2000), 18);
    assert_eq!(v.simulate_swap_mut(vault_token(), U256::from_u64(100)), Ok(U256::from_u64(200)));
    assert_eq!((v.vault_reserve, v.asset_reserve), (U256::from_u64(900), U256::from_u64(1800)));
    assert_eq!(v.simulate_swap_mut(asset_token(), U256::from_u64(180)), Ok(U256::from_u64(90)));
    assert_eq!((v.vault_reserve, v.asset_reserve), (U256::from_u64(990), U256::from_u64(1980)));
    assert_eq!(v.simulate_swap_mut(vault_token(), U256::from_u64(5000)), Err(SwapSimulationError::Overflow));
    assert_eq!((v.vault_reserve, v.asset_reserve), (U256::from_u64(990), U256::from_u64(1980)));
}

#[test]
fn sync_log_replaces_reserves_once() {
    let mut p = pool(0, 0, 30);
    let mut data = word(111);
    data.extend(word(222));
    let l = log(p.address, vec![sync_event_signature()], data, Some(10), Some(3));
    assert_eq!(p.sync_from_log(&l), Ok(()));
    assert_eq!((p.reserve_0, p.reserve_1, p.last_synced_log), (111, 222, (10, 3)));
    // the same log again changes nothing
    assert_eq!(p.sync_from_log(&l), Err(EventLogError::AlreadySynced));
    assert_eq!((p.reserve_0, p.reserve_1, p.last_synced_log), (111, 222, (10, 3)));
    let mut older = word(1);
    older.extend(word(2));
    let l2 = log(p.address, vec![sync_event_signature()], older, Some(10), Some(2));
    assert_eq!(p.sync_from_log(&l2), Err(EventLogError::AlreadySynced));
    assert_eq!(p.reserve_0, 111);
}

#[test]
fn sync_log_errors() {
    let mut p = pool(5, 6, 30);
    let mut data = word(1);
    data.extend(word(2));
    let no_block = log(p.address, vec![sync_event_signature()], data.clone(), None, Some(1));
    assert_eq!(p.sync_from_log(&no_block), Err(EventLogError::MissingBlockNumber));
    let no_index = log(p.address, vec![sync_event_signature()], data.clone(), Some(1), None);
    assert_eq!(p.sync_from_log(&no_index), Err(EventLogError::MissingLogIndex));
    let wrong = log(p.address, vec![deposit_event_signature()], data.clone(), Some(1), Some(1));
    assert_eq!(p.sync_from_log(&wrong), Err(EventLogError::InvalidEventSignature));
    let no_topics = log(p.address, vec![], data.clone(), Some(1), Some(1));
    assert_eq!(p.sync_from_log(&no_topics), Err(EventLogError::InvalidEventSignature));
    let short = log(p.address, vec![sync_event_signature()], word(1), Some(1), Some(1));
    assert_eq!(p.sync_from_log(&short), Err(EventLogError::MalformedPayload));
    let mut too_big = word(1u128 << 112);
    too_big.extend(word(2));
    let wide = log(p.address, vec![sync_event_signature()], too_big, Some(1), Some(1));
    assert_eq!(p.sync_from_log(&wide), Err(EventLogError::MalformedPayload));
    assert_eq!((p.reserve_0, p.reserve_1, p.last_synced_log), (5, 6, (0, 0)));
}

#[test]
fn vault_events_move_reserves() {
    let mut v = vault(U256::from_u64(100), U256::from_u64(200), 18);
    let mut data = word(50);
    data.extend(word(20));
    let dep = log(vault_token(), vec![deposit_event_signature()], data.clone(), Some(5), Some(0));
    assert_eq!(v.sync_from_log(&dep), Ok(()));
    assert_eq!((v.vault_reserve, v.asset_reserve), (U256::from_u64(120), U256::from_u64(250)));
    let wd = log(vault_token(), vec![withdraw_event_signature()], data.clone(), Some(5), Some(1));
    assert_eq!(v.sync_from_log(&wd), Ok(()));
    assert_eq!((v.vault_reserve, v.asset_reserve), (U256::from_u64(100), U256::from_u64(200)));
    assert_eq!(v.last_synced, (5, 1));
    let mut big = word(500);
    big.extend(word(1));
    let too_much = log(vault_token(), vec![withdraw_event_signature()], big, Some(6), Some(0));
    assert_eq!(v.sync_from_log(&too_much), Err(EventLogError::ReserveOutOfRange));
    assert_eq!(v.last_synced, (5, 1));
    let bad = log(vault_token(), vec![sync_event_signature()], data, Some(7), Some(0));
    assert_eq!(v.sync_from_log(&bad), Err(EventLogError::InvalidEventSignature));
}

#[test]
fn words_read_big_endian() {
    let data = big_word(0x0102030405060708090a0b0c0d0e0f10, 0x1112131415161718191a1b1c1d1e1f20);
    let w = read_word(&data, 0);
    assert_eq!(w, U256::from_halves(0x0102030405060708090a0b0c0d0e0f10, 0x1112131415161718191a1b1c1d1e1f20));
}

fn pair_created_log() -> EventLog {
    let t0 = H256::new(0xffff_ffff_ffff_ffff_ffff_ffff_0d50_0b1d, 0x8e8ef31e21c99d1db9a6444d3adf1270);
    let t1 = H256::new(0x8f18dc39, 0x9594b451eda8c5da02d0563c0b2d0f16);
    let mut data = big_word(0x652a7b75, 0xc229850714d4a11e856052aac3e9b065);
    data.extend(word(7));
    log(H160::new(0x5C69bEe7, 0x01ef814a2B6a3EDD4B1652CB9cc5aA6f), vec![pair_created_event_signature(), t0, t1], data, Some(42), Some(4))
}

#[test]
fn pool_from_pair_created_log() {
    let p = UniswapV2Pool::new_empty_pool_from_log(&pair_created_log()).unwrap();
    assert_eq!(p.address, H160::new(0x652a7b75, 0xc229850714d4a11e856052aac3e9b065));
    assert_eq!(p.token_a.address, token_a());
    assert_eq!(p.token_b.address, token_b());
    assert_eq!((p.reserve_0, p.reserve_1, p.last_synced_log, p.fee), (0, 0, (42, 4), 0));
    let mut wrong = pair_created_log();
    wrong.topics[0] = sync_event_signature();
    assert!(matches!(UniswapV2Pool::new_empty_pool_from_log(&wrong), Err(EventLogError::InvalidEventSignature)));
    let mut short = pair_created_log();
    short.topics.truncate(2);
    assert!(matches!(UniswapV2Pool::new_empty_pool_from_log(&short), Err(EventLogError::MalformedPayload)));
}

#[test]
fn factory_decodes_with_its_fee() {
    let f = Factory::UniswapV2Factory(UniswapV2Factory::new(H160::new(0x5C69bEe7, 0x01ef814a2B6a3EDD4B1652CB9cc5aA6f), 10000835, 300));
    match f.new_empty_amm_from_log(&pair_created_log()).unwrap() {
        AMM::UniswapV2Pool(p) => {
            assert_eq!(p.fee, 300);
            assert_eq!(p.token_a.address, token_a());
            assert_eq!(p.last_synced_log, (0, 0));
        }
        _ => panic!("expected a pool"),
    }
    assert_eq!(f.creation_block(), 10000835);
    assert!(matches!(Factory::try_from_signature(pair_created_event_signature()), Ok(Factory::UniswapV2Factory(_))));
    assert_eq!(Factory::try_from_signature(sync_event_signature()), Err(EventLogError::InvalidEventSignature));
}

#[test]
fn amm_dispatch() {
    let mut a = AMM::UniswapV2Pool(pool(1000, 1000, 30));
    assert_eq!(a.tokens(), vec![token_a(), token_b()]);
    assert_eq!(a.get_token_out(token_a()), token_b());
    assert_eq!(a.simulate_swap_mut(token_a(), U256::from_u64(10)), Ok(U256::from_u64(9)));
    assert!(!a.data_is_populated());
    a.set_currency(Currency::new_with_tokens(token_a(), "WMATIC".to_string(), 18));
    a.set_currency(Currency::new_with_tokens(token_b(), "USDC".to_string(), 6));
    assert!(a.data_is_populated());
    let v = AMM::ERC4626Vault(vault(U256::from_u64(1), U256::from_u64(1), 18));
    assert_eq!(v.sync_on_event_signatures(), vec![deposit_event_signature(), withdraw_event_signature()]);
    assert_eq!(v.address(), vault_token());
}
