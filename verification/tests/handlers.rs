use eth_crawler::address::Address;
use eth_crawler::balance::Balance;
use eth_crawler::chain::{Transaction, Wei};
use eth_crawler::mock::MockClient;
use eth_crawler::server::{
    get_balance, get_last_block_number, get_transactions, ServerError,
};

fn addr(tag: u8) -> Address {
    let mut bytes = [0u8; 20];
    bytes[19] = tag;
    Address { bytes }
}

fn empty_blocks(n: usize) -> Vec<Vec<Transaction>> {
    (0..n).map(|_| Vec::new()).collect()
}

fn fresh_client() -> MockClient {
    MockClient::new(
        vec![1_678_780_000, 1_678_784_000, 1_678_790_000],
        empty_blocks(3),
        vec![Wei::from_u64(10), Wei::from_u64(20), Wei::from_u64(30)],
        0,
        0,
    )
    .unwrap()
}

#[test]
fn get_balance_resolves_time_and_address() {
    let mut client = fresh_client();
    // 2023-03-14T08:55:04 is 1_678_784_104: after block 1, before block 2
    let balance = get_balance(
        &mut client,
        "0x000000000000000000000000000000000000000a".to_string(),
        "2023-03-14T08:55:04",
    )
    .unwrap();
    assert_eq!(balance, Balance::from(Wei::from_u64(20)));
}

#[test]
fn get_balance_rejects_a_bad_timestamp_first() {
    let mut client = fresh_client();
    assert_eq!(
        get_balance(&mut client, "not-even-an-address".to_string(), "garbage"),
        Err(ServerError::InvalidTimestamp)
    );
}

#[test]
fn get_balance_rejects_a_bad_address() {
    let mut client = fresh_client();
    assert_eq!(
        get_balance(
            &mut client,
            "0x12345".to_string(),
            "2023-03-14T08:55:04"
        ),
        Err(ServerError::InvalidAddress)
    );
}

#[test]
fn get_balance_reports_an_unreachable_chain() {
    let mut client = MockClient::new(
        vec![1_678_780_000],
        empty_blocks(1),
        vec![Wei::zero()],
        99,
        0,
    )
    .unwrap();
    assert_eq!(
        get_balance(
            &mut client,
            "0x000000000000000000000000000000000000000a".to_string(),
            "2023-03-14T08:55:04"
        ),
        Err(ServerError::BalanceNotAvailable)
    );
}

#[test]
fn get_last_block_number_reports_the_head() {
    let mut client = fresh_client();
    assert_eq!(get_last_block_number(&mut client), Ok(2));
}

#[test]
fn get_last_block_number_maps_transport_failure() {
    let mut client = MockClient::new(
        vec![0],
        empty_blocks(1),
        vec![Wei::zero()],
        1,
        0,
    )
    .unwrap();
    assert_eq!(
        get_last_block_number(&mut client),
        Err(ServerError::BlockNotFound)
    );
}

#[test]
fn get_transactions_scans_up_to_the_head() {
    let a = addr(0xa);
    let b = addr(0xb);
    let blocks = vec![
        vec![],
        vec![Transaction {
            hash: [0u8; 32],
            block_height: Some(1),
            from: a,
            to: Some(b),
            value: Wei::from_u64(7),
        }],
        vec![],
    ];
    let mut client = MockClient::new(
        vec![0, 1, 2],
        blocks,
        vec![Wei::zero(); 3],
        0,
        0,
    )
    .unwrap();
    let got = get_transactions(&mut client, &a, 0).unwrap();
    assert_eq!(got.len(), 1);
    assert_eq!(got[0].value, Wei::from_u64(7));
}

#[test]
fn get_transactions_maps_rpc_failure() {
    let mut client = MockClient::new(
        vec![0],
        empty_blocks(1),
        vec![Wei::zero()],
        42,
        0,
    )
    .unwrap();
    assert_eq!(
        get_transactions(&mut client, &addr(1), 0),
        Err(ServerError::BlockNotFound)
    );
}

#[test]
fn error_messages_match_the_http_surface() {
    assert_eq!(
        ServerError::EthClientNotFound.message(),
        "Eth Client Not Found"
    );
    assert_eq!(ServerError::BlockNotFound.message(), "Block Not Found");
    assert_eq!(
        ServerError::BalanceNotAvailable.message(),
        "Balance Not Available"
    );
    assert_eq!(ServerError::InvalidTimestamp.message(), "Invalid Timestamp");
    assert_eq!(ServerError::InvalidAddress.message(), "Invalid Address");
}
