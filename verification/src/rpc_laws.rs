//! What the requests to a node say, and what its replies mean.
use serde_json::Value;
use vstd::prelude::*;

use crate::json;
use crate::json::Json;
use crate::rpc;
use crate::rpc::{Reply, RpcError, RpcFault};

verus! {

/// A member of an object is what stands under its key. Other values have no members, and only a string has a text.
pub proof fn law_members(members: Map<Seq<char>, Json>, key: Seq<char>, t: Seq<char>, other: Json)
    ensures
        members.dom().contains(key) ==> Json::Object(members).member(key) == Some(members[key]),
        !members.dom().contains(key) ==> Json::Object(members).member(key) is None,
        !(other is Object) ==> other.member(key) is None,
        Json::Text(t).text() == Some(t),
        !(other is Text) ==> other.text() is None,
{
}

/// The text under `key`, where `value` is an object with a string there.
pub open spec fn text_under(value: Json, key: Seq<char>) -> Option<Seq<char>> {
    match value {
        Json::Object(members) => if members.dom().contains(key) {
            match members[key] {
                Json::Text(t) => Some(t),
                _ => None,
            }
        } else {
            None
        },
        _ => None,
    }
}

/// The text of a member is that of the string under its key.
pub proof fn law_member_text(value: Json, key: Seq<char>)
    ensures
        value.member_text(key) == text_under(value, key),
{
}

/// What a list of values holds is what the values hold, one for one.
pub proof fn law_jsons(values: Seq<Value>)
    ensures
        json::jsons(values).len() == values.len(),
        forall|i: int| 0 <= i < values.len() ==> #[trigger] json::jsons(values)[i] == json::json_of(values[i]),
{
}

/// A request says that it is JSON-RPC 2.0, has the number 1, and names its method and its parameters: that and nothing else.
pub proof fn law_request(method: Seq<char>, params: Seq<Json>)
    ensures
        rpc::request(method, params) is Object,
        ({
            let members = rpc::request(method, params)->Object_0;
            &&& members.dom() == set!["jsonrpc"@, "id"@, "method"@, "params"@]
            &&& members["jsonrpc"@] == Json::Text("2.0"@)
            &&& members["id"@] == Json::Number(seq!['1'])
            &&& members["method"@] == Json::Text(method)
            &&& members["params"@] == Json::List(params)
        }),
{
    reveal_strlit("jsonrpc");
    reveal_strlit("id");
    reveal_strlit("method");
    reveal_strlit("params");
    assert("method"@[0] == 'm' && "params"@[0] == 'p');
    assert("jsonrpc"@.len() == 7 && "id"@.len() == 2 && "method"@.len() == 6 && "params"@.len() == 6);
    let members = rpc::request(method, params)->Object_0;
    assert(members.dom() =~= set!["jsonrpc"@, "id"@, "method"@, "params"@]);
    assert(crate::text::numeral(1, 10) =~= seq!['1']);
}

/// The request for the latest block calls `eth_blockNumber` without parameters. Those for a transaction and for a block name
/// it, and that for a block asks for no transactions with it.
pub proof fn law_simple_requests(hash: Seq<char>, number: Seq<char>)
    ensures
        rpc::block_number_request() == rpc::request("eth_blockNumber"@, seq![]),
        rpc::transaction_request(hash) == rpc::request("eth_getTransactionByHash"@, seq![Json::Text(hash)]),
        rpc::block_request(number) == rpc::request("eth_getBlockByNumber"@, seq![Json::Text(number), Json::Bool(false)]),
{
}

/// The request for a call names the contract and the data of the call, and asks for it as of the latest block.
pub proof fn law_call_request(to: Seq<char>, data: Seq<char>)
    ensures
        ({
            let call = Json::Object(map!["to"@ => Json::Text(to), "data"@ => Json::Text(data)]);
            rpc::call_request(to, data) == rpc::request("eth_call"@, seq![call, Json::Text("latest"@)])
        }),
{
    assert(map!["to"@ => Json::Text(to), "data"@ => Json::Text(data)] =~= Map::<Seq<char>, Json>::empty().insert(
        "to"@,
        Json::Text(to),
    ).insert("data"@, Json::Text(data)));
}

/// The request for logs names the first block, the latest as the last one, and the contract.
pub proof fn law_logs_request(from_block: Seq<char>, address: Seq<char>)
    ensures
        ({
            let filter = map![
                "fromBlock"@ => Json::Text(from_block),
                "toBlock"@ => Json::Text("latest"@),
                "address"@ => Json::Text(address)
            ];
            rpc::logs_request(from_block, address) == rpc::request("eth_getLogs"@, seq![Json::Object(filter)])
        }),
{
}

/// A response with an error has no result, whatever else it holds: the error is told as it stands.
pub proof fn law_error_in_response(members: Map<Seq<char>, Json>)
    requires
        members.dom().contains("error"@),
    ensures
        rpc::result_in(Json::Object(members)) == Err::<Json, RpcFault>(
            RpcFault::Remote(json::json_text(members["error"@])),
        ),
{
}

/// The result of a response without an error is what stands under `result`, whatever else the response holds. There is none
/// where nothing stands there, or where the response is no object.
pub proof fn law_result_in_response(members: Map<Seq<char>, Json>, other: Json)
    requires
        !members.dom().contains("error"@),
        !(other is Object),
    ensures
        members.dom().contains("result"@) ==> rpc::result_in(Json::Object(members)) == Ok::<Json, RpcFault>(
            members["result"@],
        ),
        !members.dom().contains("result"@) ==> rpc::result_in(Json::Object(members)) == Err::<Json, RpcFault>(
            RpcFault::NoResult,
        ),
        rpc::result_in(other) == Err::<Json, RpcFault>(RpcFault::NoResult),
{
}

/// A reply has a result only where it is a body that holds a response with that result and no error. What went wrong is
/// told in the words of what failed.
pub proof fn law_reply(reply: Reply)
    ensures
        rpc::result_of(reply) matches Ok(result) ==> (reply matches Reply::Body(body) && json::json_document(body@) matches Ok(
            response,
        ) && response matches Json::Object(members) && members.dom().contains("result"@) && members["result"@] == result
            && !members.dom().contains("error"@)),
        reply matches Reply::Body(body) ==> (json::json_document(body@) matches Ok(response) ==> rpc::result_of(reply)
            == rpc::result_in(response)),
        reply matches Reply::Body(body) ==> (json::json_document(body@) matches Err(reason) ==> (rpc::result_of(
            reply,
        ) matches Err(RpcFault::NotJson(t)) && t == "error decoding response body: "@ + reason)),
        reply matches Reply::NotSent(reason) ==> rpc::result_of(reply) == Err::<Json, RpcFault>(
            RpcFault::NotSent(reason@),
        ),
        reply matches Reply::NotReceived(reason) ==> rpc::result_of(reply) == Err::<Json, RpcFault>(
            RpcFault::NotJson(reason@),
        ),
{
}

/// What is said of the outcome of a call is the value that came of it, or the error with its text.
pub proof fn law_outcome(value: Value, t: String)
    ensures
        rpc::outcome(Ok(value)) == Ok::<Json, RpcFault>(json::json_of(value)),
        rpc::outcome(Err(RpcError::NotSent(t))) == Err::<Json, RpcFault>(RpcFault::NotSent(t@)),
        rpc::outcome(Err(RpcError::NotJson(t))) == Err::<Json, RpcFault>(RpcFault::NotJson(t@)),
        rpc::outcome(Err(RpcError::Remote(t))) == Err::<Json, RpcFault>(RpcFault::Remote(t@)),
        rpc::outcome(Err(RpcError::NoResult)) == Err::<Json, RpcFault>(RpcFault::NoResult),
{
}

/// The message of an error is told in full, whatever its text is: what differs between two errors of one kind is their text
/// alone.
pub proof fn law_messages(t: Seq<char>)
    ensures
        RpcFault::NotSent(t).message() == RpcFault::NotSent(seq![]).message() + t,
        RpcFault::NotJson(t).message() == RpcFault::NotJson(seq![]).message() + t,
        RpcFault::Remote(t).message() == RpcFault::Remote(seq![]).message() + t,
        RpcFault::NotSent(seq![]).message() == "rpc http request failed: "@,
        RpcFault::NotJson(seq![]).message() == "rpc response json decode failed: "@,
        RpcFault::Remote(seq![]).message() == "rpc error: "@,
        RpcFault::NoResult.message() == "rpc response missing result"@,
{
    assert("rpc http request failed: "@ + seq![] =~= "rpc http request failed: "@);
    assert("rpc response json decode failed: "@ + seq![] =~= "rpc response json decode failed: "@);
    assert("rpc error: "@ + seq![] =~= "rpc error: "@);
}

} // verus!
