use amm_sync::amm::AMM;
use amm_sync::checkpoint::{Checkpoint, CheckpointRecord};
use amm_sync::currency::Currency;
use amm_sync::errors::EventLogError;
use amm_sync::event_log::EventLog;
use amm_sync::factory::{Factory, UniswapV2Factory};
use amm_sync::keyed::AddressMap;
use amm_sync::primitives::H160;
use amm_sync::uniswap_v2::{sync_event_signature, UniswapV2Pool};

fn addr(n: u128) -> H160 {
    H160::new(0, n)
}

fn pool(address: u128, t0: u128, t1: u128, reserve_0: u128, cursor: (u64, u64)) -> AMM {
    AMM::UniswapV2Pool(UniswapV2Pool::new(addr(address), Currency::new(addr(t0)), Currency::new(addr(t1)), reserve_0, 0, cursor, 30))
}

fn factory(address: u128, block: u64) -> Factory {
    Factory::UniswapV2Factory(UniswapV2Factory::new(addr(address), block, 30))
}

fn reserve_0(c: &Checkpoint, address: u128) -> u128 {
    match c.amms.get(addr(address)) {
        Some(AMM::UniswapV2Pool(p)) => p.reserve_0,
        _ => panic!("no pool"),
    }
}

fn checkpoint(height: Option<u64>, amms: Vec<AMM>) -> Checkpoint {
    let mut c = Checkpoint::new_from_factories(AddressMap::new());
    c.block_number = height;
    for a in amms {
        c.amms.insert(a);
    }
    c
}

fn sync_log(address: u128, r0: u128, r1: u128, block: u64, index: u64) -> EventLog {
    let mut data = vec![0u8; 16];
    data.extend_from_slice(&r0.to_be_bytes());
    data.extend_from_slice(&[0u8; 16]);
    data.extend_from_slice(&r1.to_be_bytes());
    EventLog { address: addr(address), topics: vec![sync_event_signature()], data, block_number: Some(block), log_index: Some(index) }
}

#[test]
fn merge_example() {
    let mut base = checkpoint(Some(100), vec![pool(7, 1, 2, 111, (0, 0))]);
    let incoming = checkpoint(Some(50), vec![pool(7, 1, 2, 222, (0, 0))]);
    base.extend(incoming);
    assert_eq!(base.block_number, Some(50));
    assert_eq!(base.amms.len(), 1);
    assert_eq!(reserve_0(&base, 7), 222);
}

#[test]
fn merge_unions_and_keeps_earliest_height() {
    let mut base = checkpoint(Some(10), vec![pool(1, 1, 2, 1, (0, 0))]);
    base.currencies_blacklist.push(addr(9));
    let mut incoming = checkpoint(None, vec![pool(2, 1, 2, 2, (0, 0))]);
    incoming.currencies_blacklist.push(addr(9));
    incoming.currencies_blacklist.push(addr(8));
    incoming.currencies.insert(Currency::new_with_tokens(addr(1), "AAA".to_string(), 18));
    base.extend(incoming);
    assert_eq!(base.block_number, None);
    assert_eq!(base.amms.len(), 2);
    assert_eq!(base.currencies_blacklist, vec![addr(9), addr(8)]);
    assert!(base.currencies.contains_key(addr(1)));
}

#[test]
fn merge_is_associative_on_height() {
    let heights = [Some(5u64), Some(9), None];
    for a in heights {
        for b in heights {
            for c in heights {
                let mut left = checkpoint(a, vec![]);
                left.extend(checkpoint(b, vec![]));
                left.extend(checkpoint(c, vec![]));
                let mut inner = checkpoint(b, vec![]);
                inner.extend(checkpoint(c, vec![]));
                let mut right = checkpoint(a, vec![]);
                right.extend(inner);
                assert_eq!(left.block_number, right.block_number);
            }
        }
    }
}

#[test]
fn record_round_trip_in_any_order() {
    let c = checkpoint(Some(77), vec![pool(3, 1, 2, 30, (1, 0)), pool(1, 1, 2, 10, (2, 0)), pool(2, 1, 2, 20, (3, 0))]);
    let record = c.to_record();
    assert_eq!(record.amms.len(), 3);
    let mut reversed = record.amms.clone();
    reversed.reverse();
    let back = Checkpoint::from_record(record);
    let other = Checkpoint::from_record(CheckpointRecord {
        block_number: Some(77),
        factories: vec![],
        amms: reversed,
        currencies: vec![],
        currencies_blacklist: vec![],
    });
    assert_eq!(back.block_number, Some(77));
    for (a, r) in [(1u128, 10u128), (2, 20), (3, 30)] {
        assert_eq!(reserve_0(&back, a), r);
        assert_eq!(reserve_0(&other, a), r);
    }
}

#[test]
fn loading_keeps_the_later_duplicate() {
    let c = Checkpoint::from_record(CheckpointRecord {
        block_number: None,
        factories: vec![factory(1, 10), factory(1, 20)],
        amms: vec![pool(4, 1, 2, 1, (0, 0)), pool(4, 1, 2, 2, (0, 0))],
        currencies: vec![],
        currencies_blacklist: vec![],
    });
    assert_eq!(c.factories.len(), 1);
    assert_eq!(c.factories.get(addr(1)).unwrap().creation_block(), 20);
    assert_eq!(reserve_0(&c, 4), 2);
}

#[test]
fn resume_heights() {
    let mut factories = AddressMap::new();
    factories.insert(factory(1, 500));
    factories.insert(factory(2, 300));
    let mut c = Checkpoint::new_from_factories(factories);
    assert_eq!(c.block_number(), 300);
    assert_eq!(c.last_synced_log_block(), 300);
    c.amms.insert(pool(5, 1, 2, 0, (900, 1)));
    c.amms.insert(pool(6, 1, 2, 0, (800, 1)));
    assert_eq!(c.last_synced_log_block(), 900);
    assert_eq!(c.sync_start_block(), 901);
    c.block_number = Some(1234);
    assert_eq!(c.block_number(), 1234);
    let empty = Checkpoint::new_from_factories(AddressMap::new());
    assert_eq!(empty.block_number(), 0);
}

#[test]
fn discovery_adds_only_new_venues() {
    let mut c = checkpoint(Some(1), vec![pool(1, 1, 2, 99, (0, 0))]);
    c.apply_discovery(vec![pool(1, 1, 2, 0, (0, 0)), pool(2, 1, 2, 5, (0, 0)), pool(2, 1, 2, 6, (0, 0))], 4000);
    assert_eq!(c.block_number, Some(4000));
    assert_eq!(c.amms.len(), 2);
    assert_eq!(reserve_0(&c, 1), 99);
    assert_eq!(reserve_0(&c, 2), 5);
}

#[test]
fn blacklisted_tokens_evict_venues() {
    let mut c = checkpoint(None, vec![pool(1, 10, 11, 0, (0, 0)), pool(2, 12, 13, 0, (0, 0)), pool(3, 13, 10, 0, (0, 0))]);
    c.currencies_blacklist.push(addr(10));
    c.remove_invalid_amm();
    assert_eq!(c.amms.len(), 1);
    assert!(c.amms.contains_key(addr(2)));
}

#[test]
fn currency_resolution_and_retry() {
    let mut c = checkpoint(None, vec![pool(1, 10, 11, 0, (0, 0)), pool(2, 11, 12, 0, (0, 0))]);
    let missing = c.missing_currencies();
    assert_eq!(missing, vec![addr(10), addr(11), addr(12)]);
    let found = vec![
        Currency::new_with_tokens(addr(10), "AAA".to_string(), 18),
        Currency::new_with_tokens(addr(11), String::new(), 6),
        Currency::new_with_tokens(H160::zero(), "ZZZ".to_string(), 6),
    ];
    c.apply_currencies(found, &missing, 100);
    assert_eq!(c.currencies.len(), 1);
    assert!(c.currencies_blacklist.is_empty());
    match c.amms.get(addr(1)) {
        Some(AMM::UniswapV2Pool(p)) => {
            assert_eq!(p.token_a.symbol, "AAA");
            assert_eq!(p.token_a.decimals, 18);
            assert!(!p.token_b.data_is_filled());
        }
        _ => panic!("no pool"),
    }
    let still_missing = c.missing_currencies();
    assert_eq!(still_missing, vec![addr(11), addr(12)]);
    c.apply_currencies(vec![Currency::new_with_tokens(addr(12), "CCC".to_string(), 8)], &still_missing, 1);
    assert_eq!(c.currencies_blacklist, vec![addr(11)]);
    assert_eq!(c.amms.len(), 0);
}

#[test]
fn replay_applies_skips_and_stops() {
    let mut c = checkpoint(None, vec![pool(1, 10, 11, 0, (5, 0)), pool(2, 10, 11, 0, (0, 0))]);
    let logs = vec![
        sync_log(1, 100, 1, 4, 0),
        sync_log(2, 200, 2, 6, 0),
        sync_log(3, 300, 3, 6, 1),
        sync_log(1, 150, 1, 7, 2),
    ];
    assert_eq!(c.apply_logs(&logs), Ok(()));
    assert_eq!(reserve_0(&c, 1), 150);
    assert_eq!(reserve_0(&c, 2), 200);
    let mut bad = sync_log(2, 999, 9, 9, 0);
    bad.data.truncate(10);
    let logs = vec![bad, sync_log(1, 777, 1, 10, 0)];
    assert_eq!(c.apply_logs(&logs), Err(EventLogError::MalformedPayload));
    assert_eq!(reserve_0(&c, 1), 150);
}

#[test]
fn stats_count_unsynced_venues() {
    let mut c = checkpoint(Some(12), vec![pool(1, 10, 11, 0, (5, 0)), pool(2, 10, 11, 0, (0, 0))]);
    c.currencies_blacklist.push(addr(3));
    let s = c.stats();
    assert_eq!((s.block_number, s.amms, s.invalid_amms, s.currencies_blacklist, s.last_synced_log), (12, 2, 1, 1, 5));
}
