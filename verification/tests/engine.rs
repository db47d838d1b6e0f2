use eth_crawler::address::Address;
use eth_crawler::balance::{balance_at, balance_at_timestamp, Balance};
use eth_crawler::chain::{Transaction, Wei};
use eth_crawler::mock::MockClient;
use eth_crawler::resolver::resolve_timestamp;
use eth_crawler::rpc::{get_block_timestamp, RpcError};
use eth_crawler::transactions::{direction_address, filter_transactions, transations_of_since_upto};

fn addr(tag: u8) -> Address {
    let mut bytes = [0u8; 20];
    bytes[19] = tag;
    Address { bytes }
}

fn tx(from: Address, to: Option<Address>, value: u64, height: u64) -> Transaction {
    Transaction {
        hash: [0u8; 32],
        block_height: Some(height),
        from,
        to,
        value: Wei::from_u64(value),
    }
}

fn empty_blocks(n: usize) -> Vec<Vec<Transaction>> {
    (0..n).map(|_| Vec::new()).collect()
}

#[test]
fn before_genesis_balance_is_zero_without_a_balance_read() {
    let mut client = MockClient::new(
        vec![1_438_269_973],
        empty_blocks(1),
        vec![Wei::from_u64(777)],
        0,
        0,
    )
    .unwrap();
    let balance = balance_at_timestamp(&mut client, &addr(1), 0).unwrap();
    assert_eq!(balance, Balance::from(Wei::zero()));
    // only the genesis header was read; the balance oracle was never asked
    assert_eq!(client.calls_made, 1);
}

#[test]
fn binary_search_resolves_the_floor_block() {
    let timestamps: Vec<u64> = (0..=10).map(|h| 100 + 10 * h).collect();
    let balances: Vec<Wei> = (0..=10).map(Wei::from_u64).collect();
    let mut client = MockClient::new(timestamps, empty_blocks(11), balances, 0, 0).unwrap();
    assert_eq!(resolve_timestamp(&mut client, 155), Ok(5));
    // a time at or past the head timestamp resolves to the head
    assert_eq!(resolve_timestamp(&mut client, 200), Ok(10));
    assert_eq!(resolve_timestamp(&mut client, 100_000), Ok(10));
    // the genesis timestamp resolves to genesis
    assert_eq!(resolve_timestamp(&mut client, 100), Ok(0));
    // equal consecutive timestamps resolve to the largest such height
    let mut flat = MockClient::new(
        vec![100, 150, 150, 150, 160],
        empty_blocks(5),
        vec![Wei::zero(); 5],
        0,
        0,
    )
    .unwrap();
    assert_eq!(resolve_timestamp(&mut flat, 150), Ok(3));
}

#[test]
fn balance_is_read_at_the_resolved_block() {
    let timestamps: Vec<u64> = (0..=10).map(|h| 100 + 10 * h).collect();
    let balances: Vec<Wei> = (0..=10).map(Wei::from_u64).collect();
    let mut client = MockClient::new(timestamps, empty_blocks(11), balances, 0, 0).unwrap();
    let balance = balance_at_timestamp(&mut client, &addr(1), 155).unwrap();
    assert_eq!(balance, Balance::from(Wei::from_u64(5)));
}

#[test]
fn scanner_keeps_only_transactions_involving_the_target() {
    let a = addr(0xa);
    let b = addr(0xb);
    let c = addr(0xc);
    let mut blocks = empty_blocks(100);
    blocks.push(vec![tx(a, Some(b), 1, 100), tx(c, Some(a), 2, 100)]);
    blocks.push(vec![tx(b, Some(c), 3, 101)]);
    blocks.push(vec![tx(a, Some(a), 4, 102)]);
    let n = blocks.len();
    let mut client =
        MockClient::new(vec![0u64; n], blocks, vec![Wei::zero(); n], 0, 0).unwrap();
    let got = transations_of_since_upto(&mut client, &a, 100, 102).unwrap();
    let values: Vec<u64> = got.iter().map(|t| t.value.limbs[0]).collect();
    assert_eq!(values, vec![1, 2, 4]);
}

#[test]
fn scanner_output_is_ordered_by_block_height() {
    let a = addr(0xa);
    let b = addr(0xb);
    let blocks = vec![
        vec![tx(a, Some(b), 10, 0)],
        vec![],
        vec![tx(b, Some(a), 20, 2), tx(a, None, 30, 2)],
        vec![tx(a, Some(a), 40, 3)],
    ];
    let mut client =
        MockClient::new(vec![0u64; 4], blocks, vec![Wei::zero(); 4], 0, 0).unwrap();
    let got = transations_of_since_upto(&mut client, &a, 0, 3).unwrap();
    let heights: Vec<u64> = got.iter().map(|t| t.block_height.unwrap()).collect();
    assert_eq!(heights, vec![0, 2, 2, 3]);
}

#[test]
fn duplicate_transactions_appear_exactly_as_often_as_they_occur() {
    let a = addr(0xa);
    let b = addr(0xb);
    let twice = tx(a, Some(b), 5, 0);
    let blocks = vec![vec![twice, twice]];
    let mut client =
        MockClient::new(vec![0u64], blocks, vec![Wei::zero()], 0, 0).unwrap();
    let got = transations_of_since_upto(&mut client, &a, 0, 0).unwrap();
    assert_eq!(got.len(), 2);
    assert_eq!(got[0], twice);
    assert_eq!(got[1], twice);
}

#[test]
fn empty_range_scans_to_nothing() {
    let a = addr(0xa);
    let mut client =
        MockClient::new(vec![0u64], empty_blocks(1), vec![Wei::zero()], 0, 0).unwrap();
    let got = transations_of_since_upto(&mut client, &a, 5, 0).unwrap();
    assert!(got.is_empty());
}

#[test]
fn filter_keeps_order_and_matches_both_directions() {
    let a = addr(0xa);
    let b = addr(0xb);
    let c = addr(0xc);
    let txs = vec![
        tx(a, Some(b), 1, 0),
        tx(b, Some(c), 2, 0),
        tx(c, Some(a), 3, 0),
        tx(a, None, 4, 0),
        tx(b, None, 5, 0),
    ];
    let kept = filter_transactions(txs, &a);
    let values: Vec<u64> = kept.iter().map(|t| t.value.limbs[0]).collect();
    assert_eq!(values, vec![1, 3, 4]);
}

#[test]
fn retry_recovers_from_transient_transport_failures() {
    let mut client =
        MockClient::new(vec![5], empty_blocks(1), vec![Wei::zero()], 2, 0).unwrap();
    assert_eq!(get_block_timestamp(&mut client, 0), Ok(5));
    // two failed attempts, then the success: exactly three invocations
    assert_eq!(client.calls_made, 3);
}

#[test]
fn retry_budget_exhaustion_surfaces_the_transport_error() {
    let mut client =
        MockClient::new(vec![5], empty_blocks(1), vec![Wei::zero()], 9, 0).unwrap();
    assert_eq!(get_block_timestamp(&mut client, 0), Err(RpcError::Transport));
    // the first attempt plus RETRY_COUNT additional ones
    assert_eq!(client.calls_made, 5);
}

#[test]
fn semantic_errors_surface_without_retry() {
    let mut client =
        MockClient::new(vec![5], empty_blocks(1), vec![Wei::zero()], 0, 1).unwrap();
    assert_eq!(
        get_block_timestamp(&mut client, 0),
        Err(RpcError::BlockUnavailable)
    );
    assert_eq!(client.calls_made, 1);
}

#[test]
fn future_time_is_detected_against_the_head_timestamp() {
    let mut client = MockClient::new(
        vec![1_700_000_000],
        empty_blocks(1),
        vec![Wei::from_u64(9)],
        0,
        0,
    )
    .unwrap();
    // 2099-01-01 00:00:00 UTC lies beyond the head block
    assert_eq!(balance_at(&mut client, &addr(1), 4_070_908_800), Ok(None));
    let present = balance_at(&mut client, &addr(1), 1_700_000_000).unwrap();
    assert_eq!(present, Some(Balance::from(Wei::from_u64(9))));
}

#[test]
fn direction_labels_follow_the_target() {
    let a = addr(0xa);
    let b = addr(0xb);
    let sent = tx(a, Some(b), 1, 0);
    let (direction, counterparty) = direction_address(&sent, a);
    assert_eq!(direction, "to");
    assert_eq!(counterparty, "0x000000000000000000000000000000000000000b");
    let (direction, counterparty) = direction_address(&sent, b);
    assert_eq!(direction, "from");
    assert_eq!(counterparty, "0x000000000000000000000000000000000000000a");
    let creation = tx(a, None, 1, 0);
    let (direction, counterparty) = direction_address(&creation, a);
    assert_eq!(direction, "to");
    assert_eq!(counterparty, "Creating SC");
}

#[test]
fn resolution_is_monotone_in_the_target_time() {
    let timestamps: Vec<u64> = (0..=10).map(|h| 100 + 10 * h).collect();
    let balances: Vec<Wei> = (0..=10).map(Wei::from_u64).collect();
    let mut client = MockClient::new(timestamps, empty_blocks(11), balances, 0, 0).unwrap();
    let mut last: u64 = 0;
    for t in [100u64, 104, 125, 149, 150, 155, 190, 199, 200, 5000] {
        let block = resolve_timestamp(&mut client, t).unwrap();
        assert!(last <= block);
        last = block;
    }
}
