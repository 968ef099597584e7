use amm_sync::amm::{amm_sync_event_signatures, AMM};
use amm_sync::currency::{currencies_from_infos, currency_batches, Currency};
use amm_sync::erc_4626::{deposit_event_signature, withdraw_event_signature, ERC4626Vault};
use amm_sync::errors::{CurrencyError, EventLogError};
use amm_sync::event_log::EventLog;
use amm_sync::factory::{nonzero_addresses, Factory, FactoryHelper, UniswapV2Factory};
use amm_sync::filters::filter_empty_amms;
use amm_sync::keyed::AddressMap;
use amm_sync::primitives::{H160, H256, U256};
use amm_sync::sync::{discovery_windows, reduce_logs, sub_windows, sync_windows};
use amm_sync::uniswap_v2::{pair_created_event_signature, sync_event_signature, UniswapV2Pool};

fn addr(n: u128) -> H160 {
    H160::new(0, n)
}

fn at(address: u128, block: u64, index: u64) -> EventLog {
    EventLog { address: addr(address), topics: vec![], data: vec![], block_number: Some(block), log_index: Some(index) }
}

fn pool(address: u128, a_filled: bool, b_filled: bool) -> AMM {
    let sym = |f: bool| if f { "T".to_string() } else { String::new() };
    AMM::UniswapV2Pool(UniswapV2Pool::new(
        addr(address),
        Currency::new_with_tokens(addr(10), sym(a_filled), 18),
        Currency::new_with_tokens(addr(11), sym(b_filled), 18),
        0,
        0,
        (0, 0),
        30,
    ))
}

fn vault(address: u128) -> AMM {
    AMM::ERC4626Vault(ERC4626Vault::new(addr(address), 18, addr(99), 18, U256::zero(), U256::zero(), 0, 0, (0, 0)))
}

#[test]
fn discovery_window_plan() {
    assert_eq!(discovery_windows(0, 2500, 1000), vec![(0, 999), (1000, 1999), (2000, 2500)]);
    assert_eq!(discovery_windows(10, 10, 1000), vec![]);
    assert_eq!(discovery_windows(u64::MAX - 3, u64::MAX, 1000), vec![(u64::MAX - 3, u64::MAX)]);
}

#[test]
fn sync_window_plan() {
    assert_eq!(sync_windows(1, 6000, 2500), vec![(1, 2501), (2502, 5002), (5003, 6000)]);
    assert_eq!(sync_windows(7, 7, 2500), vec![]);
    assert_eq!(sub_windows(1, 600, 250), vec![(1, 251), (251, 501), (501, 600)]);
    assert_eq!(sub_windows(5, 5, 250), vec![(5, 5)]);
}

#[test]
fn reduction_keeps_newest_per_venue_in_order() {
    let logs = vec![at(1, 5, 0), at(2, 3, 1), at(1, 9, 2), at(3, 4, 0), at(2, 3, 0), at(1, 7, 0)];
    let out = reduce_logs(logs).unwrap();
    let got: Vec<(u128, u64, u64)> = out.iter().map(|l| (l.address.lo, l.block_number.unwrap(), l.log_index.unwrap())).collect();
    assert_eq!(got, vec![(2, 3, 1), (3, 4, 0), (1, 9, 2)]);
}

#[test]
fn reduction_requires_positions() {
    let mut no_index = at(1, 5, 0);
    no_index.log_index = None;
    assert!(matches!(reduce_logs(vec![at(2, 1, 1), no_index]), Err(EventLogError::MissingLogIndex)));
    let mut no_block = at(1, 5, 0);
    no_block.block_number = None;
    assert!(matches!(reduce_logs(vec![no_block]), Err(EventLogError::MissingBlockNumber)));
    assert!(reduce_logs(vec![]).unwrap().is_empty());
}

#[test]
fn sync_signatures_per_kind() {
    let amms = vec![pool(1, true, true), pool(2, true, true), vault(3), vault(4)];
    assert_eq!(amm_sync_event_signatures(&amms), vec![sync_event_signature(), deposit_event_signature(), withdraw_event_signature()]);
    assert_eq!(amm_sync_event_signatures(&vec![]), Vec::<H256>::new());
}

#[test]
fn filter_selects_half_filled_pools() {
    let amms = vec![pool(1, true, false), pool(2, true, true), pool(3, false, false), vault(4), pool(5, true, false)];
    let kept: Vec<u128> = filter_empty_amms(amms).iter().map(|a| a.address().lo).collect();
    assert_eq!(kept, vec![1, 5]);
}

#[test]
fn batches_dedupe_and_split() {
    let addresses: Vec<H160> = [1u128, 2, 1, 3, 4, 2, 5].iter().map(|n| addr(*n)).collect();
    let batches = currency_batches(&addresses, Some(2));
    assert_eq!(batches, vec![vec![addr(1), addr(2)], vec![addr(3), addr(4)], vec![addr(5)]]);
    let one = currency_batches(&addresses, None);
    assert_eq!(one.len(), 1);
    assert_eq!(one[0].len(), 5);
    assert!(currency_batches(&vec![], Some(3)).is_empty());
}

#[test]
fn batch_response_assembles_currencies() {
    let addresses = vec![addr(1), addr(2)];
    let out = currencies_from_infos(&addresses, vec![Some(("USDT".to_string(), 6)), None]).unwrap();
    assert_eq!(out[0].symbol, "USDT");
    assert_eq!(out[0].decimals, 6);
    assert!(!out[1].data_is_filled());
    assert_eq!(out[1].address, addr(2));
    let wrapped = currencies_from_infos(&vec![addr(1)], vec![Some(("X".to_string(), 262))]).unwrap();
    assert_eq!(wrapped[0].decimals, 6);
    assert!(matches!(currencies_from_infos(&addresses, vec![None]), Err(CurrencyError::InvalidBatchResponse)));
    assert!(Currency::new(addr(0)).is_invalid_token());
    assert!(Currency::new_with_tokens(addr(0), "A".to_string(), 1).is_invalid_token());
    assert!(!Currency::new_with_tokens(addr(1), "A".to_string(), 1).is_invalid_token());
}

#[test]
fn discovery_decodes_factory_logs() {
    let mut factories = AddressMap::new();
    factories.insert(Factory::UniswapV2Factory(UniswapV2Factory::new(addr(500), 1, 25)));
    factories.insert(Factory::UniswapV2Factory(UniswapV2Factory::new(addr(501), 2, 30)));
    let helper = FactoryHelper::new(factories);
    assert_eq!(helper.amm_created_event_signatures(), vec![pair_created_event_signature()]);
    assert_eq!(helper.factory_addresses(), vec![addr(500), addr(501)]);
    let created = |from: u128, pair: u128| {
        let mut data = vec![0u8; 16];
        data.extend_from_slice(&pair.to_be_bytes());
        data.extend_from_slice(&[0u8; 32]);
        EventLog {
            address: addr(from),
            topics: vec![pair_created_event_signature(), H256::new(0, 10), H256::new(0, 11)],
            data,
            block_number: Some(1),
            log_index: Some(0),
        }
    };
    let mut broken = created(500, 9);
    broken.data.truncate(40);
    let logs = vec![created(500, 7), created(777, 8), broken, created(501, 9)];
    let pools = helper.pools_from_logs(&logs);
    let got: Vec<(u128, u32)> = pools
        .iter()
        .map(|a| match a {
            AMM::UniswapV2Pool(p) => (p.address.lo, p.fee),
            _ => panic!("expected a pool"),
        })
        .collect();
    assert_eq!(got, vec![(7, 25), (9, 30)]);
}

#[test]
fn zero_addresses_are_dropped() {
    let listed = vec![addr(3), H160::zero(), addr(4), H160::new(1, 0)];
    assert_eq!(nonzero_addresses(&listed), vec![addr(3), addr(4), H160::new(1, 0)]);
}
