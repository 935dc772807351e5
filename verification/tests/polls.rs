use oracle_monitor::clock::unix_secs;
use oracle_monitor::config::{load_config, Config, MAX_TX_TO_CHECK};
use oracle_monitor::endpoints::{health, render_metrics};
use oracle_monitor::hex::HexError;
use oracle_monitor::poll::{record_no_time, record_outcome, Poll, PollError, PollReport, Step};
use oracle_monitor::rpc::{Reply, RpcError};
use oracle_monitor::scan::{candidate_hashes, ReportScan, ScanError};
use oracle_monitor::state::{build_initial_state, MonitorState, OracleMetrics};
use serde_json::Value;
use std::collections::HashMap;
use std::time::{Duration, UNIX_EPOCH};

const CONTRACT: &str = "0x32EC59a78abaca3f91527aeB2008925D5AaC1eFC";
const A: &str = "0xaaaaaaaaaaaaaaaaaaaaaaaaaaaaaaaaaaaaaaaa";
const B: &str = "0xbbbbbbbbbbbbbbbbbbbbbbbbbbbbbbbbbbbbbbbb";
const C: &str = "0xcccccccccccccccccccccccccccccccccccccccc";

fn json(text: &str) -> Value {
    serde_json::from_str(text).unwrap()
}

/// A node that answers from lists, and keeps the methods and first parameters that it was asked for.
struct Node {
    latest: Value,
    logs: Value,
    transactions: HashMap<String, Value>,
    blocks: HashMap<String, Value>,
    asked: Vec<(String, String)>,
}

impl Node {
    fn new(logs: &[&str]) -> Node {
        let logs: Vec<Value> = logs.iter().map(|h| json(&format!(r#"{{"transactionHash":"{}"}}"#, h))).collect();
        Node {
            latest: Value::from("0x186a5"),
            logs: Value::from(logs),
            transactions: HashMap::new(),
            blocks: HashMap::new(),
            asked: Vec::new(),
        }
    }

    fn transaction(mut self, hash: &str, from: &str, to: &str, block: &str) -> Node {
        let tx = json(&format!(r#"{{"from":"{}","to":"{}","blockNumber":"{}"}}"#, from, to, block));
        self.transactions.insert(hash.to_string(), tx);
        self
    }

    fn block(mut self, number: &str, timestamp: &str) -> Node {
        let block = json(&format!(r#"{{"timestamp":"{}"}}"#, timestamp));
        self.blocks.insert(number.to_string(), block);
        self
    }

    fn answer(&mut self, request: &Value) -> Value {
        let method = request["method"].as_str().unwrap().to_string();
        let first = &request["params"][0];
        let key = first.as_str().unwrap_or("").to_string();
        let shown = if first.is_object() { first.to_string() } else { key.clone() };
        self.asked.push((method.clone(), shown));
        match method.as_str() {
            "eth_call" => {
                let words = [A, B].map(|a| format!("{:0>64}", &a[2..])).concat();
                Value::from(format!("0x{:064x}{:064x}{}", 32, 2, words))
            }
            "eth_blockNumber" => self.latest.clone(),
            "eth_getLogs" => self.logs.clone(),
            "eth_getTransactionByHash" => self.transactions.get(&key).cloned().unwrap_or(Value::Null),
            "eth_getBlockByNumber" => self.blocks.get(&key).cloned().unwrap_or(Value::Null),
            other => panic!("unexpected method {}", other),
        }
    }

    fn asked_for(&self, method: &str) -> Vec<&str> {
        self.asked.iter().filter(|(m, _)| m == method).map(|(_, k)| k.as_str()).collect()
    }
}

fn search(node: &mut Node, members: &[&str]) -> Result<Vec<(String, u64)>, ScanError> {
    let members: Vec<String> = members.iter().map(|s| s.to_string()).collect();
    let mut scan = ReportScan::new(&members, CONTRACT);
    while let Some(request) = scan.request() {
        let result = node.answer(&request);
        scan = scan.advance(&result)?;
    }
    let found = scan.reports();
    Ok((0..found.len()).map(|i| (found.entry(i).0.to_string(), *found.entry(i).1)).collect())
}

fn config() -> Config {
    let args: Vec<String> = ["monitor", "hoodi", "url"].iter().map(|s| s.to_string()).collect();
    load_config(&args, None).unwrap()
}

fn poll(node: &mut Node) -> Result<PollReport, PollError> {
    let (mut poll, mut request) = Poll::begin(&config());
    loop {
        let result = node.answer(&request);
        let body = format!(r#"{{"jsonrpc":"2.0","id":1,"result":{}}}"#, result);
        match poll.advance(Reply::Body(body.into_bytes())) {
            Step::Ask(p, r) => {
                poll = p;
                request = r;
            }
            Step::Over(outcome) => return outcome,
        }
    }
}

#[test]
fn newest_report_of_each_member_is_found() {
    let mut node = Node::new(&["h1", "h2", "h3", "h4", "h5"])
        .transaction("h1", A, CONTRACT, "0x1")
        .transaction("h2", B, CONTRACT, "0x2")
        .transaction("h3", A, CONTRACT, "0x3")
        .transaction("h4", C, CONTRACT, "0x4")
        .transaction("h5", B, A, "0x5")
        .block("0x1", "0x10")
        .block("0x2", "0x20")
        .block("0x3", "0x30")
        .block("0x4", "0x40")
        .block("0x5", "0x50");
    assert_eq!(search(&mut node, &[A, B]), Ok(vec![(A.to_string(), 0x30), (B.to_string(), 0x20)]));
    assert_eq!(node.asked_for("eth_getTransactionByHash"), vec!["h5", "h4", "h3", "h2"]);
    assert_eq!(node.asked_for("eth_getBlockByNumber"), vec!["0x3", "0x2"]);
}

#[test]
fn search_begins_with_the_window() {
    let mut node = Node::new(&[]);
    assert_eq!(search(&mut node, &[A]), Ok(vec![]));
    assert_eq!(
        node.asked,
        vec![
            ("eth_blockNumber".to_string(), String::new()),
            (
                "eth_getLogs".to_string(),
                format!(r#"{{"address":"{}","fromBlock":"0x5","toBlock":"latest"}}"#, CONTRACT)
            ),
        ]
    );
    let mut node = Node::new(&[]);
    node.latest = Value::from("0x10");
    assert_eq!(search(&mut node, &[A]), Ok(vec![]));
    assert!(node.asked_for("eth_getLogs")[0].contains(r#""fromBlock":"0x0""#));
}

#[test]
fn letter_case_of_addresses_does_not_matter() {
    let mut node = Node::new(&["h"])
        .transaction("h", &A.to_uppercase().replace("0X", "0x"), &CONTRACT.to_lowercase(), "0x1")
        .block("0x1", "ff");
    assert_eq!(search(&mut node, &[A]), Ok(vec![(A.to_string(), 255)]));
}

#[test]
fn block_is_asked_for_once() {
    let mut node = Node::new(&["h1", "h2"])
        .transaction("h1", A, CONTRACT, "0x7")
        .transaction("h2", B, CONTRACT, "0x7")
        .block("0x7", "0x99");
    assert_eq!(search(&mut node, &[A, B]), Ok(vec![(A.to_string(), 0x99), (B.to_string(), 0x99)]));
    assert_eq!(node.asked_for("eth_getBlockByNumber"), vec!["0x7"]);
}

#[test]
fn unusable_transactions_are_passed_over() {
    let mut node = Node::new(&["old", "no-block", "pending", "odd", "unknown"])
        .transaction("old", A, CONTRACT, "0x1")
        .transaction("no-block", A, CONTRACT, "0x2")
        .block("0x1", "0x11");
    node.transactions.insert("pending".into(), json(&format!(r#"{{"from":"{}","to":"{}"}}"#, A, CONTRACT)));
    node.transactions.insert("odd".into(), json("\"text\""));
    assert_eq!(search(&mut node, &[A]), Ok(vec![(A.to_string(), 0x11)]));
    assert_eq!(
        node.asked_for("eth_getTransactionByHash"),
        vec!["unknown", "odd", "pending", "no-block", "old"]
    );
}

#[test]
fn search_ends_when_all_are_found() {
    let mut node = Node::new(&["h1", "h2"])
        .transaction("h1", A, CONTRACT, "0x1")
        .transaction("h2", A, CONTRACT, "0x2")
        .block("0x1", "bad")
        .block("0x2", "0x22");
    assert_eq!(search(&mut node, &[A, A]), Ok(vec![(A.to_string(), 0x22)]));
    assert_eq!(node.asked_for("eth_getTransactionByHash"), vec!["h2"]);
    let mut node = Node::new(&["h1"]);
    assert_eq!(search(&mut node, &[]), Ok(vec![]));
    assert!(node.asked_for("eth_getTransactionByHash").is_empty());
}

#[test]
fn search_succeeds_whatever_it_does_not_ask_for() {
    let mut node = Node::new(&["h1", "h2", "h3"])
        .transaction("h1", A, CONTRACT, "0x1")
        .transaction("h2", C, CONTRACT, "0x2")
        .transaction("h3", A, B, "0x3")
        .block("0x1", "0x11")
        .block("0x2", "bad")
        .block("0x3", "bad");
    assert_eq!(search(&mut node, &[A]), Ok(vec![(A.to_string(), 0x11)]));
    assert_eq!(node.asked_for("eth_getBlockByNumber"), vec!["0x1"]);
}

#[test]
fn fewer_members_have_the_same_reports() {
    let chain = || {
        Node::new(&["h1", "h2", "h3"])
            .transaction("h1", A, CONTRACT, "0x1")
            .transaction("h2", B, CONTRACT, "0x2")
            .transaction("h3", C, CONTRACT, "0x2")
            .block("0x1", "0x11")
            .block("0x2", "0x22")
    };
    let all = search(&mut chain(), &[A, B, C]).unwrap();
    assert_eq!(all.len(), 3);
    for (i, member) in [A, B, C].iter().enumerate() {
        assert_eq!(search(&mut chain(), &[*member]), Ok(vec![all[i].clone()]));
    }
    assert_eq!(search(&mut chain(), &[A, C]), Ok(vec![all[0].clone(), all[2].clone()]));
}

#[test]
fn search_fails() {
    let mut node = Node::new(&[]);
    node.latest = Value::from(5);
    assert_eq!(search(&mut node, &[A]), Err(ScanError::BlockNumberNotText));
    let mut node = Node::new(&[]);
    node.latest = Value::from("0x");
    assert_eq!(search(&mut node, &[A]), Err(ScanError::BlockNumber(HexError::Empty)));
    let mut node = Node::new(&[]);
    node.logs = json("{}");
    assert_eq!(search(&mut node, &[A]), Err(ScanError::LogsNotList));
    let mut node = Node::new(&["h"]).transaction("h", A, CONTRACT, "0x1");
    node.blocks.insert("0x1".into(), json(r#"{"timestamp":12}"#));
    assert_eq!(search(&mut node, &[A]), Err(ScanError::NoTimestamp));
    let mut node = Node::new(&["h"]).transaction("h", A, CONTRACT, "0x1").block("0x1", "0xzz");
    assert_eq!(search(&mut node, &[A]), Err(ScanError::Timestamp(HexError::InvalidDigit)));
}

#[test]
fn search_errors_have_messages() {
    assert_eq!(ScanError::BlockNumberNotText.message(), "eth_blockNumber result was not a string");
    assert_eq!(
        ScanError::BlockNumber(HexError::Empty).message(),
        "invalid hex u64: cannot parse integer from empty string"
    );
    assert_eq!(ScanError::LogsNotList.message(), "eth_getLogs result was not an array");
    assert_eq!(ScanError::NoTimestamp.message(), "block missing timestamp");
    assert_eq!(
        ScanError::Timestamp(HexError::InvalidDigit).message(),
        "invalid hex u64: invalid digit found in string"
    );
}

#[test]
fn candidates_are_newest_and_different() {
    let logs = json(
        r#"[{"transactionHash":"a"},{"transactionHash":"b"},{"other":"x"},{"transactionHash":7},null,
        {"transactionHash":"a"},{"transactionHash":"c"},{"transactionHash":"c"}]"#,
    );
    assert_eq!(candidate_hashes(logs.as_array().unwrap()), vec!["c", "a", "b"]);
    let without = json(r#"[{"transactionHash":"b"},{"transactionHash":"a"},{"transactionHash":"c"}]"#);
    assert_eq!(candidate_hashes(without.as_array().unwrap()), candidate_hashes(logs.as_array().unwrap()));
    assert!(candidate_hashes(&vec![]).is_empty());
}

#[test]
fn candidates_are_bounded() {
    let logs: Vec<Value> =
        (0..1000).map(|i| json(&format!(r#"{{"transactionHash":"{}"}}"#, i / 2))).collect();
    let hashes = candidate_hashes(&logs);
    assert_eq!(hashes.len(), MAX_TX_TO_CHECK);
    assert_eq!(hashes[0], "499");
    assert_eq!(hashes[MAX_TX_TO_CHECK - 1], "200");
}

#[test]
fn search_makes_a_bounded_number_of_requests() {
    let hashes: Vec<String> = (0..400).map(|i| format!("h{}", i)).collect();
    let names: Vec<&str> = hashes.iter().map(|s| s.as_str()).collect();
    let mut node = Node::new(&names);
    for (i, hash) in names.iter().enumerate() {
        node = node.transaction(hash, A, CONTRACT, &format!("0x{:x}", i));
    }
    assert_eq!(search(&mut node, &[A]), Ok(vec![]));
    assert_eq!(node.asked.len(), 2 + 2 * MAX_TX_TO_CHECK);
}

#[test]
fn poll_fills_the_state() {
    let mut node = Node::new(&["h1"]).transaction("h1", B, CONTRACT, "0x1").block("0x1", "0x64");
    let outcome = poll(&mut node);
    let mut state = build_initial_state();
    record_outcome(&mut state, 150, &outcome);
    assert_eq!(state.last_check_ts, 150);
    assert!(state.last_check_ok);
    assert_eq!(state.per_oracle.len(), 2);
    assert_eq!(state.per_oracle.get(A), Some(&OracleMetrics::default()));
    assert_eq!(
        state.per_oracle.get(B),
        Some(&OracleMetrics { last_report_ts: Some(100), time_since_last_report_secs: Some(50) })
    );
    let report = outcome.unwrap();
    assert_eq!(report.members, vec![A, B]);
    assert_eq!(report.reports.len(), 1);
}

#[test]
fn report_from_the_future_has_no_age() {
    let mut node = Node::new(&["h1"]).transaction("h1", B, CONTRACT, "0x1").block("0x1", "0x64");
    let mut state = build_initial_state();
    record_outcome(&mut state, 99, &poll(&mut node));
    assert_eq!(
        state.per_oracle.get(B),
        Some(&OracleMetrics { last_report_ts: Some(100), time_since_last_report_secs: Some(0) })
    );
}

#[test]
fn failed_poll_keeps_what_is_known() {
    let mut state = build_initial_state();
    let mut node = Node::new(&["h1"]).transaction("h1", B, CONTRACT, "0x1").block("0x1", "0x64");
    record_outcome(&mut state, 150, &poll(&mut node));
    assert_eq!(health(&state), (200, "ok"));

    let (members, _) = Poll::begin(&config());
    let failed = match members.advance(Reply::NotSent(String::from("refused"))) {
        Step::Over(outcome) => outcome,
        Step::Ask(_, _) => panic!("the poll goes on"),
    };
    assert!(matches!(failed, Err(PollError::MembersCall(_, RpcError::NotSent(_)))));
    record_outcome(&mut state, 160, &failed);
    assert_eq!(health(&state), (503, "last check failed"));
    assert_eq!(state.last_check_ts, 160);
    assert_eq!(state.per_oracle.get(B).unwrap().last_report_ts, Some(100));
}

#[test]
fn poll_whose_search_fails_is_recorded_as_failed() {
    let mut state = build_initial_state();
    record_outcome(&mut state, 150, &poll(&mut Node::new(&[])));
    assert_eq!(health(&state), (200, "ok"));
    let mut node = Node::new(&[]);
    node.logs = Value::Null;
    let outcome = poll(&mut node);
    assert!(matches!(outcome, Err(PollError::Scan(ScanError::LogsNotList))));
    record_outcome(&mut state, 170, &outcome);
    assert_eq!(health(&state), (503, "last check failed"));
    assert_eq!(state.last_check_ts, 170);
    assert_eq!(state.per_oracle.len(), 2);
}

#[test]
fn poll_fails_where_a_call_of_the_search_fails() {
    let mut node = Node::new(&[]);
    let (poll, request) = Poll::begin(&config());
    assert_eq!(request["params"][0]["to"], Value::from("0x30308cd8844fb2db3ec4d056f1d475a802dca07c"));
    let body = format!(r#"{{"result":{}}}"#, node.answer(&request));
    let poll = match poll.advance(Reply::Body(body.into_bytes())) {
        Step::Ask(p, r) => {
            assert_eq!(r["method"], Value::from("eth_blockNumber"));
            p
        }
        Step::Over(_) => panic!("the poll is over"),
    };
    match poll.advance(Reply::Body(b"{\"error\":1}".to_vec())) {
        Step::Over(Err(e)) => assert_eq!(e.message(), "rpc error: 1"),
        _ => panic!("the poll does not fail"),
    }
}

#[test]
fn clock_failure_is_recorded() {
    let mut state = build_initial_state();
    state.record_success(10, &vec![A.to_string()], &oracle_monitor::table::TextMap::new());
    let early = unix_secs(&(UNIX_EPOCH - Duration::from_secs(1))).unwrap_err();
    let e = record_no_time(&mut state, early);
    assert!(matches!(e, PollError::Clock(_)));
    assert_eq!(e.message(), "system clock is before UNIX_EPOCH: second time provided was later than self");
    assert_eq!(health(&state), (503, "last check failed"));
    assert_eq!(state.last_check_ts, 10);
    assert!(!state.last_check_ok);
    assert_eq!(state.per_oracle.len(), 1);
}

#[test]
fn initial_state_is_unhealthy() {
    let state = build_initial_state();
    assert_eq!(state.per_oracle.len(), 0);
    assert_eq!(state.last_check_ts, 0);
    assert!(!state.last_check_ok);
    assert_eq!(health(&state), (503, "last check failed"));
    assert_eq!(MonitorState::default().last_check_ts, 0);
}

#[test]
fn metrics_are_written() {
    let mut state = build_initial_state();
    let mut node = Node::new(&["h1"]).transaction("h1", B, CONTRACT, "0x1").block("0x1", "0x64");
    record_outcome(&mut state, 150, &poll(&mut node));
    let expected = "\
# HELP oracle_last_check_success 1 if last chain check succeeded, else 0
# TYPE oracle_last_check_success gauge
oracle_last_check_success 1
# HELP oracle_last_check_timestamp_seconds Unix timestamp of last poll attempt
# TYPE oracle_last_check_timestamp_seconds gauge
oracle_last_check_timestamp_seconds 150
# HELP oracle_allowlist_size Number of oracle addresses in latest on-chain allowlist snapshot
# TYPE oracle_allowlist_size gauge
oracle_allowlist_size 2
# HELP oracle_report_present 1 if report was found for oracle in current scan window
# TYPE oracle_report_present gauge
# HELP oracle_last_report_timestamp_seconds Unix timestamp of latest matched report tx per oracle
# TYPE oracle_last_report_timestamp_seconds gauge
# HELP oracle_time_since_last_report_seconds Seconds elapsed since latest matched report tx per oracle
# TYPE oracle_time_since_last_report_seconds gauge
oracle_report_present{oracle_address=\"0xaaaaaaaaaaaaaaaaaaaaaaaaaaaaaaaaaaaaaaaa\"} 0
oracle_last_report_timestamp_seconds{oracle_address=\"0xaaaaaaaaaaaaaaaaaaaaaaaaaaaaaaaaaaaaaaaa\"} 0
oracle_time_since_last_report_seconds{oracle_address=\"0xaaaaaaaaaaaaaaaaaaaaaaaaaaaaaaaaaaaaaaaa\"} 0
oracle_report_present{oracle_address=\"0xbbbbbbbbbbbbbbbbbbbbbbbbbbbbbbbbbbbbbbbb\"} 1
oracle_last_report_timestamp_seconds{oracle_address=\"0xbbbbbbbbbbbbbbbbbbbbbbbbbbbbbbbbbbbbbbbb\"} 100
oracle_time_since_last_report_seconds{oracle_address=\"0xbbbbbbbbbbbbbbbbbbbbbbbbbbbbbbbbbbbbbbbb\"} 50
";
    assert_eq!(render_metrics(&state), expected);
    assert_eq!(render_metrics(&state.clone()), expected);
}

#[test]
fn metrics_of_the_initial_state() {
    let text = render_metrics(&build_initial_state());
    assert!(text.contains("\noracle_last_check_success 0\n"));
    assert!(text.contains("\noracle_last_check_timestamp_seconds 0\n"));
    assert!(text.contains("\noracle_allowlist_size 0\n"));
    assert!(!text.contains("oracle_address"));
}
