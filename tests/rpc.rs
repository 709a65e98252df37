use dropcamp_exporter::rpc::{Block, BlockError, RpcClient, MAX_UTC_TIMESTAMP, MIN_UTC_TIMESTAMP};

#[test]
fn every_query_carries_the_pinned_height() {
    let block = Block::from_header(Some(1234), 1234, 1_700_000_000).unwrap();
    let client = RpcClient::new(block);
    let copy = client;
    let queries = vec![
        client.balances("archway1abc".to_string()),
        client.delegations("archway1abc".to_string()),
        copy.smart_contract_state("archway1contract".to_string(), b"{}".to_vec()),
    ];
    assert!(queries.iter().all(|q| q.height == 1234 && !q.prove));
    assert_eq!(queries[0].path, "/cosmos.bank.v1beta1.Query/AllBalances");
    assert_eq!(queries[1].path, "/cosmos.staking.v1beta1.Query/DelegatorDelegations");
    assert_eq!(queries[2].path, "/cosmwasm.wasm.v1.Query/SmartContractState");
}

#[test]
fn latest_block_pins_its_own_height() {
    let block = Block::from_header(None, 99, 0).unwrap();
    assert_eq!(RpcClient::new(block).block().height, 99);
}

#[test]
fn other_block_than_requested_fails() {
    assert_eq!(
        Block::from_header(Some(5), 6, 0),
        Err(BlockError::HeightMismatch { requested: 5, found: 6 })
    );
}

#[test]
fn timestamp_out_of_range_fails() {
    assert_eq!(Block::from_header(None, 1, i64::MAX), Err(BlockError::InvalidTimestamp(i64::MAX)));
}

#[test]
fn requests_are_protobuf_encoded() {
    let client = RpcClient::new(Block { height: 1, time: 0 });
    let q = client.balances("addr".to_string());
    assert_eq!(q.data, vec![0x0a, 4, b'a', b'd', b'd', b'r', 0x12, 3, 0x18, 0xe8, 0x07]);
    let q = client.smart_contract_state("c".to_string(), b"{}".to_vec());
    assert_eq!(q.data, vec![0x0a, 1, b'c', 0x12, 2, b'{', b'}']);
    let q = client.delegations("d".to_string());
    assert_eq!(q.data, vec![0x0a, 1, b'd', 0x12, 3, 0x18, 0xe8, 0x07]);
}

#[test]
fn timestamp_range_ends() {
    let min = MIN_UTC_TIMESTAMP;
    let max = MAX_UTC_TIMESTAMP;
    assert!(Block::from_header(None, 1, min).is_ok());
    assert_eq!(Block::from_header(None, 1, min - 1), Err(BlockError::InvalidTimestamp(min - 1)));
    assert!(Block::from_header(None, 1, max).is_ok());
    assert_eq!(Block::from_header(None, 1, max + 1), Err(BlockError::InvalidTimestamp(max + 1)));
}
