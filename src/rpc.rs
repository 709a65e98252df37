//! The height-pinned query client.
//!
//! A run reads the chain at one block. The block is fixed when the client is
//! made, and every state query that the client builds carries its height.
use vstd::prelude::*;
use vstd::string::StringExecFns;

verus! {

/// Page size of the bank and staking queries.
pub const QUERY_PAGE_LIMIT: u64 = 1000;

/// The block a run is pinned to: its height and its time in Unix seconds (UTC).
#[derive(Clone, Copy, Debug, PartialEq, Eq, Structural)]
pub struct Block {
    pub height: u64,
    pub time: i64,
}

#[derive(Clone, Copy, Debug, PartialEq, Eq, Structural)]
pub enum BlockError {
    /// The header's time is outside the range of a UTC date-time.
    InvalidTimestamp(i64),
    /// The chain returned another block than the one asked for.
    HeightMismatch { requested: u64, found: u64 },
}

/// Unix time of the first second that chrono represents: midnight UTC of the
/// first day that its dates cover, in the year -262143.
pub const MIN_UTC_TIMESTAMP: i64 = -8_334_601_228_800;

/// Unix time of the last second that chrono represents: December 31 of the
/// year 262142, 23:59:59 UTC.
pub const MAX_UTC_TIMESTAMP: i64 = 8_210_266_876_799;

/// Whether chrono can represent the time `secs` seconds after the Unix epoch.
pub open spec fn utc_timestamp_valid(secs: int) -> bool {
    MIN_UTC_TIMESTAMP <= secs <= MAX_UTC_TIMESTAMP
}

/// Relies on chrono's `DateTime::<Utc>::from_timestamp(secs, 0)`, which
/// returns `None` exactly when the day falls outside the years
/// -262143 to 262142 that its dates cover.
#[verifier::external_body]
fn timestamp_in_range(secs: i64) -> (r: bool)
    ensures
        r == (MIN_UTC_TIMESTAMP <= secs && secs <= MAX_UTC_TIMESTAMP),
{
    chrono::DateTime::<chrono::Utc>::from_timestamp(secs, 0).is_some()
}

/// The pin that a fetched header gives: it must be the block asked for, and
/// its time must be a UTC date-time.
pub open spec fn pin_result(requested: Option<u64>, height: u64, time: i64) -> Result<Block, BlockError> {
    let valid = if utc_timestamp_valid(time as int) {
        Ok(Block { height, time })
    } else {
        Err(BlockError::InvalidTimestamp(time))
    };
    match requested {
        Some(h) => if h != height {
            Err(BlockError::HeightMismatch { requested: h, found: height })
        } else {
            valid
        },
        None => valid,
    }
}

impl Block {
    /// The pin from the header of the block that was fetched: the block at
    /// `requested` when a height was given, else the latest block.
    pub fn from_header(requested: Option<u64>, height: u64, time: i64) -> (r: Result<Block, BlockError>)
        ensures
            r == pin_result(requested, height, time),
    {
        if let Some(h) = requested {
            if h != height {
                return Err(BlockError::HeightMismatch { requested: h, found: height });
            }
        }
        if !timestamp_in_range(time) {
            return Err(BlockError::InvalidTimestamp(time));
        }
        Ok(Block { height, time })
    }
}

/// An ABCI state query: a `/service/method` path and the encoded request,
/// read at a height.
#[derive(Clone, Debug)]
pub struct AbciQuery {
    pub path: String,
    pub data: Vec<u8>,
    pub height: u64,
    pub prove: bool,
}

/// The path of a query of `method` on `service`.
pub open spec fn query_path(service: Seq<char>, method: Seq<char>) -> Seq<char> {
    "/"@ + service + "/"@ + method
}

/// The bytes of a bank `AllBalances` request.
pub uninterp spec fn all_balances_request(address: Seq<char>, limit: int) -> Seq<u8>;

/// The bytes of a staking `DelegatorDelegations` request.
pub uninterp spec fn delegations_request(delegator: Seq<char>, limit: int) -> Seq<u8>;

/// The bytes of a CosmWasm `SmartContractState` request.
pub uninterp spec fn contract_state_request(address: Seq<char>, query: Seq<u8>) -> Seq<u8>;

/// Relies on cosmos-sdk-proto's `QueryAllBalancesRequest` and prost's
/// `Message::encode_to_vec`: the protobuf encoding of the request.
#[verifier::external_body]
fn encode_all_balances(address: String, limit: u64) -> (r: Vec<u8>)
    ensures
        r@ == all_balances_request(address@, limit as int),
{
    let request = cosmos_sdk_proto::cosmos::bank::v1beta1::QueryAllBalancesRequest {
        address,
        pagination: Some(
            cosmos_sdk_proto::cosmos::base::query::v1beta1::PageRequest {
                limit,
                ..Default::default()
            },
        ),
    };
    cosmos_sdk_proto::prost::Message::encode_to_vec(&request)
}

/// Relies on cosmos-sdk-proto's `QueryDelegatorDelegationsRequest` and
/// prost's `Message::encode_to_vec`: the protobuf encoding of the request.
#[verifier::external_body]
fn encode_delegations(delegator: String, limit: u64) -> (r: Vec<u8>)
    ensures
        r@ == delegations_request(delegator@, limit as int),
{
    let request = cosmos_sdk_proto::cosmos::staking::v1beta1::QueryDelegatorDelegationsRequest {
        delegator_addr: delegator,
        pagination: Some(
            cosmos_sdk_proto::cosmos::base::query::v1beta1::PageRequest {
                limit,
                ..Default::default()
            },
        ),
    };
    cosmos_sdk_proto::prost::Message::encode_to_vec(&request)
}

/// Relies on cosmos-sdk-proto's `QuerySmartContractStateRequest` and prost's
/// `Message::encode_to_vec`: the protobuf encoding of the request.
#[verifier::external_body]
fn encode_contract_state(address: String, query: Vec<u8>) -> (r: Vec<u8>)
    ensures
        r@ == contract_state_request(address@, query@),
{
    let request = cosmos_sdk_proto::cosmwasm::wasm::v1::QuerySmartContractStateRequest {
        address,
        query_data: query,
    };
    cosmos_sdk_proto::prost::Message::encode_to_vec(&request)
}

/// Builds the state queries of a run, all at the block it was made with.
#[derive(Clone, Copy, Debug)]
pub struct RpcClient {
    block: Block,
}

impl RpcClient {
    pub closed spec fn pin(&self) -> Block {
        self.block
    }

    pub fn new(block: Block) -> (r: RpcClient)
        ensures
            r.pin() == block,
    {
        RpcClient { block }
    }

    pub fn block(&self) -> (r: Block)
        ensures
            r == self.pin(),
    {
        self.block
    }

    /// A query of `method` on `service` with an encoded request, at the
    /// pinned height.
    pub fn request(&self, service: &str, method: &str, data: Vec<u8>) -> (r: AbciQuery)
        ensures
            r.path@ == query_path(service@, method@),
            r.data@ == data@,
            r.height == self.pin().height,
            !r.prove,
    {
        proof {
            reveal_strlit("/");
        }
        let path = String::from_str("/").concat(service).concat("/").concat(method);
        AbciQuery { path, data, height: self.block.height, prove: false }
    }

    /// All balances of `address`, one page of `QUERY_PAGE_LIMIT`.
    pub fn balances(&self, address: String) -> (r: AbciQuery)
        ensures
            r.path@ == query_path("cosmos.bank.v1beta1.Query"@, "AllBalances"@),
            r.data@ == all_balances_request(address@, QUERY_PAGE_LIMIT as int),
            r.height == self.pin().height,
            !r.prove,
    {
        let data = encode_all_balances(address, QUERY_PAGE_LIMIT);
        self.request("cosmos.bank.v1beta1.Query", "AllBalances", data)
    }

    /// The delegations of `delegator`, one page of `QUERY_PAGE_LIMIT`.
    pub fn delegations(&self, delegator: String) -> (r: AbciQuery)
        ensures
            r.path@ == query_path("cosmos.staking.v1beta1.Query"@, "DelegatorDelegations"@),
            r.data@ == delegations_request(delegator@, QUERY_PAGE_LIMIT as int),
            r.height == self.pin().height,
            !r.prove,
    {
        let data = encode_delegations(delegator, QUERY_PAGE_LIMIT);
        self.request("cosmos.staking.v1beta1.Query", "DelegatorDelegations", data)
    }

    /// A smart query of the contract at `address` with a JSON payload.
    pub fn smart_contract_state(&self, address: String, query: Vec<u8>) -> (r: AbciQuery)
        ensures
            r.path@ == query_path("cosmwasm.wasm.v1.Query"@, "SmartContractState"@),
            r.data@ == contract_state_request(address@, query@),
            r.height == self.pin().height,
            !r.prove,
    {
        let data = encode_contract_state(address, query);
        self.request("cosmwasm.wasm.v1.Query", "SmartContractState", data)
    }
}

} // verus!
