use oracle_monitor::json::member_str;
use oracle_monitor::poll::{members_payload, oracle_allowlist, PollError};
use oracle_monitor::rpc::{
    block_number_payload, block_payload, call_payload, logs_payload, response_result, rpc_request, rpc_result,
    transaction_payload, Reply, RpcError,
};
use serde_json::Value;

fn json(text: &str) -> Value {
    serde_json::from_str(text).unwrap()
}

fn body(text: &str) -> Reply {
    Reply::Body(text.as_bytes().to_vec())
}

#[test]
fn requests_are_json_rpc() {
    assert_eq!(
        rpc_request("m", vec![Value::Null, Value::from(2)]),
        json(r#"{"jsonrpc":"2.0","id":1,"method":"m","params":[null,2]}"#)
    );
    assert_eq!(
        block_number_payload(),
        json(r#"{"jsonrpc":"2.0","id":1,"method":"eth_blockNumber","params":[]}"#)
    );
    assert_eq!(
        call_payload("0xa", "0xb"),
        json(r#"{"jsonrpc":"2.0","id":1,"method":"eth_call","params":[{"to":"0xa","data":"0xb"},"latest"]}"#)
    );
    assert_eq!(
        members_payload("0xa"),
        json(r#"{"jsonrpc":"2.0","id":1,"method":"eth_call","params":[{"to":"0xa","data":"0x9eab5253"},"latest"]}"#)
    );
    assert_eq!(
        logs_payload("0x1", "0xA"),
        json(
            r#"{"jsonrpc":"2.0","id":1,"method":"eth_getLogs",
            "params":[{"fromBlock":"0x1","toBlock":"latest","address":"0xA"}]}"#
        )
    );
    assert_eq!(
        transaction_payload("0xh"),
        json(r#"{"jsonrpc":"2.0","id":1,"method":"eth_getTransactionByHash","params":["0xh"]}"#)
    );
    assert_eq!(
        block_payload("0x5"),
        json(r#"{"jsonrpc":"2.0","id":1,"method":"eth_getBlockByNumber","params":["0x5",false]}"#)
    );
}

#[test]
fn result_is_taken_out_of_a_response() {
    assert_eq!(rpc_result(body(r#"{"id":1,"result":"0x10"}"#)).unwrap(), Value::from("0x10"));
    assert_eq!(rpc_result(body(r#"{"result":null}"#)).unwrap(), Value::Null);
    assert_eq!(response_result(&json(r#"{"result":[1,{"a":2.5}]}"#)).unwrap(), json(r#"[1,{"a":2.5}]"#));
}

#[test]
fn error_of_the_node_comes_first() {
    let e = rpc_result(body(r#"{"result":"0x1","error":{"message":"no","code":-32000}}"#)).unwrap_err();
    assert_eq!(e.message(), r#"rpc error: {"code":-32000,"message":"no"}"#);
    let e = response_result(&json(r#"{"error":null}"#)).unwrap_err();
    assert_eq!(e.message(), "rpc error: null");
}

#[test]
fn response_without_result() {
    let e = rpc_result(body(r#"{"id":1}"#)).unwrap_err();
    assert!(matches!(e, RpcError::NoResult));
    assert_eq!(e.message(), "rpc response missing result");
    assert!(matches!(rpc_result(body(r#"["result"]"#)), Err(RpcError::NoResult)));
    assert!(matches!(rpc_result(body(r#""result""#)), Err(RpcError::NoResult)));
}

#[test]
fn response_that_is_no_json() {
    let e = rpc_result(body("<html>")).unwrap_err();
    assert_eq!(e.message(), "rpc response json decode failed: error decoding response body: expected value at line 1 column 1");
    assert!(matches!(rpc_result(body("")), Err(RpcError::NotJson(_))));
    assert!(matches!(rpc_result(body("{} x")), Err(RpcError::NotJson(_))));
}

#[test]
fn request_that_fails() {
    let e = rpc_result(Reply::NotSent(String::from("refused"))).unwrap_err();
    assert_eq!(e.message(), "rpc http request failed: refused");
    let e = rpc_result(Reply::NotReceived(String::from("cut off"))).unwrap_err();
    assert_eq!(e.message(), "rpc response json decode failed: cut off");
}

#[test]
fn members_are_read_from_strings() {
    let value = json(r#"{"a":"x","b":1,"c":null}"#);
    assert_eq!(member_str(&value, "a"), Some("x"));
    assert_eq!(member_str(&value, "b"), None);
    assert_eq!(member_str(&value, "c"), None);
    assert_eq!(member_str(&value, "d"), None);
    assert_eq!(member_str(&json("[\"a\"]"), "a"), None);
}

#[test]
fn allowlist_is_fetched() {
    let data = format!("0x{:064x}{:064x}{:0>64}", 32, 1, "ABCDEFabcdef0123456789ABCDEFabcdef012345");
    let members = oracle_allowlist("0xs", body(&format!(r#"{{"result":"{}"}}"#, data))).unwrap();
    assert_eq!(members, vec![String::from("0xabcdefabcdef0123456789abcdefabcdef012345")]);
}

#[test]
fn allowlist_fails() {
    let e = oracle_allowlist("0xs", body(r#"{"error":"down"}"#)).unwrap_err();
    assert_eq!(e.message(), "getMembers eth_call failed on members source 0xs: rpc error: \"down\"");
    let e = oracle_allowlist("0xs", body(r#"{"result":7}"#)).unwrap_err();
    assert!(matches!(e, PollError::MembersNotText));
    assert_eq!(e.message(), "getMembers eth_call result was not a string");
    let e = oracle_allowlist("0xs", body(r#"{"result":"0x"}"#)).unwrap_err();
    assert_eq!(e.message(), "failed to decode getMembers() response: abi decode out of bounds");
    assert_eq!(PollError::Clock(String::from("why")).message(), "system clock is before UNIX_EPOCH: why");
}
