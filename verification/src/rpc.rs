//! Requests to a node, and its replies, in JSON-RPC.
use serde_json::Value;
use vstd::prelude::*;
use vstd::string::*;

use crate::json;
use crate::json::Json;
use crate::text;

verus! {

// ---- Requests ----
/// The request that calls `method` with `params`.
pub open spec fn request(method: Seq<char>, params: Seq<Json>) -> Json {
    Json::Object(
        Map::<Seq<char>, Json>::empty().insert("jsonrpc"@, Json::Text("2.0"@)).insert(
            "id"@,
            Json::Number(text::numeral(1, 10)),
        ).insert("method"@, Json::Text(method)).insert("params"@, Json::List(params)),
    )
}

/// Builds the request that calls `method` with `params`.
pub fn rpc_request(method: &str, params: Vec<Value>) -> (payload: Value)
    ensures
        json::json_of(payload) == request(method@, json::jsons(params@)),
{
    let mut members = json::no_members();
    json::insert_member(&mut members, String::from_str("jsonrpc"), json::from_text(String::from_str("2.0")));
    json::insert_member(&mut members, String::from_str("id"), json::from_u64(1));
    json::insert_member(&mut members, String::from_str("method"), json::from_text(String::from_str(method)));
    json::insert_member(&mut members, String::from_str("params"), json::from_list(params));
    json::from_members(members)
}

/// The request for the number of the latest block.
pub open spec fn block_number_request() -> Json {
    request("eth_blockNumber"@, seq![])
}

/// The request for a call of the contract at `to` with `data`, as of the latest block.
pub open spec fn call_request(to: Seq<char>, data: Seq<char>) -> Json {
    request(
        "eth_call"@,
        seq![
            Json::Object(
                Map::<Seq<char>, Json>::empty().insert("to"@, Json::Text(to)).insert("data"@, Json::Text(data)),
            ),
            Json::Text("latest"@),
        ],
    )
}

/// The request for the logs of the contract at `address`, from block `from_block` up to the latest.
pub open spec fn logs_request(from_block: Seq<char>, address: Seq<char>) -> Json {
    request(
        "eth_getLogs"@,
        seq![
            Json::Object(
                Map::<Seq<char>, Json>::empty().insert("fromBlock"@, Json::Text(from_block)).insert(
                    "toBlock"@,
                    Json::Text("latest"@),
                ).insert("address"@, Json::Text(address)),
            ),
        ],
    )
}

/// The request for the transaction with the hash `hash`.
pub open spec fn transaction_request(hash: Seq<char>) -> Json {
    request("eth_getTransactionByHash"@, seq![Json::Text(hash)])
}

/// The request for the block with the number `number`, without its transactions.
pub open spec fn block_request(number: Seq<char>) -> Json {
    request("eth_getBlockByNumber"@, seq![Json::Text(number), Json::Bool(false)])
}

/// Builds the request for the number of the latest block.
pub fn block_number_payload() -> (payload: Value)
    ensures
        json::json_of(payload) == block_number_request(),
{
    let params: Vec<Value> = Vec::new();
    assert(json::jsons(params@) =~= seq![]);
    rpc_request("eth_blockNumber", params)
}

/// Builds the request for a call of the contract at `to` with `data`, as of the latest block.
pub fn call_payload(to: &str, data: &str) -> (payload: Value)
    ensures
        json::json_of(payload) == call_request(to@, data@),
{
    let mut members = json::no_members();
    json::insert_member(&mut members, String::from_str("to"), json::from_text(String::from_str(to)));
    json::insert_member(&mut members, String::from_str("data"), json::from_text(String::from_str(data)));
    let call: Value = json::from_members(members);
    let latest: Value = json::from_text(String::from_str("latest"));
    let params: Vec<Value> = vec![call, latest];
    assert(json::jsons(params@) =~= seq![json::json_of(call), json::json_of(latest)]);
    rpc_request("eth_call", params)
}

/// Builds the request for the logs of the contract at `address`, from block `from_block` up to the latest.
pub fn logs_payload(from_block: &str, address: &str) -> (payload: Value)
    ensures
        json::json_of(payload) == logs_request(from_block@, address@),
{
    let mut members = json::no_members();
    json::insert_member(&mut members, String::from_str("fromBlock"), json::from_text(String::from_str(from_block)));
    json::insert_member(&mut members, String::from_str("toBlock"), json::from_text(String::from_str("latest")));
    json::insert_member(&mut members, String::from_str("address"), json::from_text(String::from_str(address)));
    let filter: Value = json::from_members(members);
    let params: Vec<Value> = vec![filter];
    assert(json::jsons(params@) =~= seq![json::json_of(filter)]);
    rpc_request("eth_getLogs", params)
}

/// Builds the request for the transaction with the hash `hash`.
pub fn transaction_payload(hash: &str) -> (payload: Value)
    ensures
        json::json_of(payload) == transaction_request(hash@),
{
    let wanted: Value = json::from_text(String::from_str(hash));
    let params: Vec<Value> = vec![wanted];
    assert(json::jsons(params@) =~= seq![json::json_of(wanted)]);
    rpc_request("eth_getTransactionByHash", params)
}

/// Builds the request for the block with the number `number`, without its transactions.
pub fn block_payload(number: &str) -> (payload: Value)
    ensures
        json::json_of(payload) == block_request(number@),
{
    let wanted: Value = json::from_text(String::from_str(number));
    let whole: Value = json::from_bool(false);
    let params: Vec<Value> = vec![wanted, whole];
    assert(json::jsons(params@) =~= seq![json::json_of(wanted), json::json_of(whole)]);
    rpc_request("eth_getBlockByNumber", params)
}

// ---- Replies ----
/// What came of sending a request.
pub enum Reply {
    /// The request did not get through, for the reason given.
    NotSent(String),
    /// The body of the response could not be received, for the reason given.
    NotReceived(String),
    /// The body of the response.
    Body(Vec<u8>),
}

/// Why a call has no result.
#[derive(Debug)]
pub enum RpcError {
    /// The request did not get through.
    NotSent(String),
    /// The response cannot be received, or is no JSON text.
    NotJson(String),
    /// The node answers with an error.
    Remote(String),
    /// The response holds no result.
    NoResult,
}

/// An `RpcError` and the text in it.
pub enum RpcFault {
    NotSent(Seq<char>),
    NotJson(Seq<char>),
    Remote(Seq<char>),
    NoResult,
}

impl View for RpcError {
    type V = RpcFault;

    open spec fn view(&self) -> RpcFault {
        match self {
            RpcError::NotSent(t) => RpcFault::NotSent(t@),
            RpcError::NotJson(t) => RpcFault::NotJson(t@),
            RpcError::Remote(t) => RpcFault::Remote(t@),
            RpcError::NoResult => RpcFault::NoResult,
        }
    }
}

impl RpcFault {
    /// What is logged.
    pub open spec fn message(self) -> Seq<char> {
        match self {
            RpcFault::NotSent(t) => "rpc http request failed: "@ + t,
            RpcFault::NotJson(t) => "rpc response json decode failed: "@ + t,
            RpcFault::Remote(t) => "rpc error: "@ + t,
            RpcFault::NoResult => "rpc response missing result"@,
        }
    }
}

impl RpcError {
    /// What is logged.
    pub fn message(&self) -> (m: String)
        ensures
            m@ == self@.message(),
    {
        match self {
            RpcError::NotSent(t) => String::from_str("rpc http request failed: ").concat(t.as_str()),
            RpcError::NotJson(t) => String::from_str("rpc response json decode failed: ").concat(t.as_str()),
            RpcError::Remote(t) => String::from_str("rpc error: ").concat(t.as_str()),
            RpcError::NoResult => String::from_str("rpc response missing result"),
        }
    }
}

/// The result in a response: there is none where there is an error, whatever else the response holds.
pub open spec fn result_in(response: Json) -> Result<Json, RpcFault> {
    match response.member("error"@) {
        Some(error) => Err(RpcFault::Remote(json::json_text(error))),
        None => match response.member("result"@) {
            Some(result) => Ok(result),
            None => Err(RpcFault::NoResult),
        },
    }
}

/// The result in a reply.
pub open spec fn result_of(reply: Reply) -> Result<Json, RpcFault> {
    match reply {
        Reply::NotSent(reason) => Err(RpcFault::NotSent(reason@)),
        Reply::NotReceived(reason) => Err(RpcFault::NotJson(reason@)),
        Reply::Body(body) => match json::json_document(body@) {
            Ok(response) => result_in(response),
            Err(message) => Err(RpcFault::NotJson("error decoding response body: "@ + message)),
        },
    }
}

/// What `r` says of the result of a call.
pub open spec fn outcome(r: Result<Value, RpcError>) -> Result<Json, RpcFault> {
    match r {
        Ok(value) => Ok(json::json_of(value)),
        Err(e) => Err(e@),
    }
}

/// Takes the result out of a response.
pub fn response_result(response: &Value) -> (r: Result<Value, RpcError>)
    ensures
        outcome(r) == result_in(json::json_of(*response)),
{
    match json::member(response, "error") {
        Some(error) => Err(RpcError::Remote(json::to_text(error))),
        None => match json::member(response, "result") {
            Some(result) => Ok(result.clone()),
            None => Err(RpcError::NoResult),
        },
    }
}

/// Takes the result out of a reply.
pub fn rpc_result(reply: Reply) -> (r: Result<Value, RpcError>)
    ensures
        outcome(r) == result_of(reply),
{
    match reply {
        Reply::NotSent(reason) => Err(RpcError::NotSent(reason)),
        Reply::NotReceived(reason) => Err(RpcError::NotJson(reason)),
        Reply::Body(body) => match json::parse(body.as_slice()) {
            Ok(response) => response_result(&response),
            Err(e) => Err(
                RpcError::NotJson(
                    String::from_str("error decoding response body: ").concat(json::error_text(&e).as_str()),
                ),
            ),
        },
    }
}

} // verus!
