//! The search for the latest report of each oracle.
//!
//! The search asks a node one thing after the other: for the latest block, for the logs of the contract, and then for
//! transactions and their blocks. `ReportScan::request` says what to ask next, and `ReportScan::advance` takes in the
//! result.
use serde_json::Value;
use vstd::prelude::*;
use vstd::string::*;

use crate::config::{LOG_BLOCK_WINDOW, MAX_TX_TO_CHECK};
use crate::hex;
use crate::hex::HexError;
use crate::json;
use crate::json::Json;
use crate::rpc;
use crate::table;
use crate::table::TextMap;
use crate::text;

verus! {

/// Why a result of the node is of no use.
#[derive(Debug, Clone, Copy, PartialEq, Eq, Structural)]
pub enum ScanError {
    /// The number of the latest block is no string.
    BlockNumberNotText,
    /// The number of the latest block is no number.
    BlockNumber(HexError),
    /// The logs are no list.
    LogsNotList,
    /// A block has no time.
    NoTimestamp,
    /// The time of a block is no number.
    Timestamp(HexError),
}

impl ScanError {
    /// What is logged.
    pub open spec fn text(self) -> Seq<char> {
        match self {
            ScanError::BlockNumberNotText => "eth_blockNumber result was not a string"@,
            ScanError::BlockNumber(e) => "invalid hex u64: "@ + e.text(),
            ScanError::LogsNotList => "eth_getLogs result was not an array"@,
            ScanError::NoTimestamp => "block missing timestamp"@,
            ScanError::Timestamp(e) => "invalid hex u64: "@ + e.text(),
        }
    }

    /// What is logged.
    pub fn message(&self) -> (m: String)
        ensures
            m@ == self.text(),
    {
        match self {
            ScanError::BlockNumberNotText => String::from_str("eth_blockNumber result was not a string"),
            ScanError::BlockNumber(e) => String::from_str("invalid hex u64: ").concat(e.message()),
            ScanError::LogsNotList => String::from_str("eth_getLogs result was not an array"),
            ScanError::NoTimestamp => String::from_str("block missing timestamp"),
            ScanError::Timestamp(e) => String::from_str("invalid hex u64: ").concat(e.message()),
        }
    }
}

/// What the search waits for.
pub enum Phase {
    /// The number of the latest block.
    BlockNumber,
    /// The logs from a block on.
    Logs(String),
    /// The transaction with a hash.
    Transaction(String),
    /// The block that holds a report of an oracle: the oracle, and the number of the block.
    Block(String, String),
    /// Nothing: the search is over.
    Done,
}

/// A search for the latest report of each oracle.
pub struct ReportScan {
    members: TextMap<()>,
    contract: String,
    phase: Phase,
    /// The transactions that were not asked for, the one to ask for next at the end.
    pending: Vec<String>,
    found: TextMap<u64>,
    block_times: TextMap<u64>,
}

/// What a search waits for.
pub enum ScanPhase {
    BlockNumber,
    Logs { from_block: Seq<char> },
    Transaction { hash: Seq<char> },
    Block { oracle: Seq<char>, number: Seq<char> },
    Done,
}

/// What a search holds.
#[verifier::ext_equal]
pub struct ScanView {
    /// The oracles to find reports of.
    pub members: Set<Seq<char>>,
    /// The contract that reports go to.
    pub contract: Seq<char>,
    pub phase: ScanPhase,
    /// The transactions that were not asked for, in the order in which they will be.
    pub pending: Seq<Seq<char>>,
    /// The oracles of which a report was found, and the time of it.
    pub found: Map<Seq<char>, u64>,
    /// The blocks of which the time is known.
    pub block_times: Map<Seq<char>, u64>,
}

impl View for Phase {
    type V = ScanPhase;

    open spec fn view(&self) -> ScanPhase {
        match self {
            Phase::BlockNumber => ScanPhase::BlockNumber,
            Phase::Logs(from_block) => ScanPhase::Logs { from_block: from_block@ },
            Phase::Transaction(hash) => ScanPhase::Transaction { hash: hash@ },
            Phase::Block(oracle, number) => ScanPhase::Block { oracle: oracle@, number: number@ },
            Phase::Done => ScanPhase::Done,
        }
    }
}

impl View for ReportScan {
    type V = ScanView;

    closed spec fn view(&self) -> ScanView {
        ScanView {
            members: self.members@.dom(),
            contract: self.contract@,
            phase: self.phase@,
            pending: text::views(self.pending@).reverse(),
            found: self.found@,
            block_times: self.block_times@,
        }
    }
}

// ---- The transactions to look up ----
/// The hash of the transaction that wrote a log.
pub open spec fn log_hash(log: Json) -> Option<Seq<char>> {
    log.member_text("transactionHash"@)
}

/// The hashes of the transactions that wrote `logs`, which stand from the oldest to the newest: each once, that of the
/// newest log first.
pub open spec fn hashes_newest_first(logs: Seq<Json>) -> Seq<Seq<char>>
    decreases logs.len(),
{
    if logs.len() == 0 {
        seq![]
    } else {
        let newer = hashes_newest_first(logs.drop_first());
        match log_hash(logs[0]) {
            Some(hash) => if newer.contains(hash) {
                newer
            } else {
                newer.push(hash)
            },
            None => newer,
        }
    }
}

/// The transactions to look up: the newest of those that wrote `logs`, as many as are looked up at most.
pub open spec fn candidates(logs: Seq<Json>) -> Seq<Seq<char>> {
    let hashes = hashes_newest_first(logs);
    if hashes.len() <= MAX_TX_TO_CHECK {
        hashes
    } else {
        hashes.take(MAX_TX_TO_CHECK as int)
    }
}

/// The hashes of newer logs come first.
proof fn lemma_newer_hashes_first(logs: Seq<Json>, i: int)
    requires
        0 <= i <= logs.len(),
    ensures
        hashes_newest_first(logs.skip(i)).len() <= hashes_newest_first(logs).len(),
        hashes_newest_first(logs).take(hashes_newest_first(logs.skip(i)).len() as int) == hashes_newest_first(
            logs.skip(i),
        ),
    decreases logs.len(),
{
    if i == 0 {
        assert(logs.skip(0) == logs);
        assert(hashes_newest_first(logs).take(hashes_newest_first(logs).len() as int) == hashes_newest_first(logs));
    } else {
        let rest = logs.drop_first();
        lemma_newer_hashes_first(rest, i - 1);
        assert(rest.skip(i - 1) == logs.skip(i));
        let n = hashes_newest_first(logs.skip(i)).len() as int;
        assert(hashes_newest_first(logs).take(n) == hashes_newest_first(rest).take(n));
    }
}

/// Lists the transactions to look up: the newest of those that wrote `logs`, each once.
pub fn candidate_hashes(logs: &Vec<Value>) -> (hashes: Vec<String>)
    ensures
        text::views(hashes@) == candidates(json::jsons(logs@)),
{
    let mut hashes: Vec<String> = Vec::new();
    let mut seen: TextMap<()> = TextMap::new();
    let mut i: usize = logs.len();
    let ghost all = json::jsons(logs@);
    proof {
        assert(all.skip(i as int) =~= seq![]);
        assert(text::views(hashes@) =~= seq![]);
        assert(seen@.dom() =~= text::views(hashes@).to_set());
    }
    while i > 0
        invariant
            i <= logs@.len(),
            all == json::jsons(logs@),
            text::views(hashes@) == hashes_newest_first(all.skip(i as int)),
            hashes@.len() < MAX_TX_TO_CHECK,
            seen@.dom() == text::views(hashes@).to_set(),
        decreases i,
    {
        i -= 1;
        let ghost before = text::views(hashes@);
        proof {
            assert(all.skip(i as int).drop_first() == all.skip(i + 1));
            assert(all.skip(i as int)[0] == json::json_of(logs@[i as int]));
        }
        if let Some(hash) = json::member_str(&logs[i], "transactionHash") {
            if !seen.contains_key(hash) {
                seen.insert(String::from_str(hash), ());
                hashes.push(String::from_str(hash));
                proof {
                    assert(text::views(hashes@) =~= before.push(hash@));
                    table::lemma_push_member(before, hash@);
                    assert(seen@.dom() =~= text::views(hashes@).to_set());
                }
                if hashes.len() >= MAX_TX_TO_CHECK {
                    proof {
                        lemma_newer_hashes_first(all, i as int);
                        assert(hashes_newest_first(all).take(hashes@.len() as int) == text::views(hashes@));
                        if hashes_newest_first(all).len() == hashes@.len() {
                            assert(hashes_newest_first(all).take(hashes@.len() as int) == hashes_newest_first(all));
                        }
                    }
                    return hashes;
                }
            }
        }
    }
    assert(all.skip(0) == all);
    hashes
}

// ---- What a result means ----
/// The sender of a transaction, in small letters.
pub open spec fn sender(tx: Json) -> Seq<char> {
    match tx.member_text("from"@) {
        Some(from) => text::lower(from),
        None => text::lower(seq![]),
    }
}

/// The receiver of a transaction, in small letters.
pub open spec fn receiver(tx: Json) -> Seq<char> {
    match tx.member_text("to"@) {
        Some(to) => text::lower(to),
        None => text::lower(seq![]),
    }
}

/// The number of the block that holds a transaction.
pub open spec fn block_of(tx: Json) -> Option<Seq<char>> {
    tx.member_text("blockNumber"@)
}

/// The time of a block that exists.
pub open spec fn block_time(block: Json) -> Result<u64, ScanError> {
    match block.member_text("timestamp"@) {
        Some(t) => match hex::hex_value(hex::without_0x(t)) {
            Ok(ts) => Ok(ts),
            Err(e) => Err(ScanError::Timestamp(e)),
        },
        None => Err(ScanError::NoTimestamp),
    }
}

/// The first block to search, where `latest` is the latest one.
pub open spec fn first_block(latest: u64) -> Seq<char> {
    seq!['0', 'x'] + text::numeral(
        if latest >= LOG_BLOCK_WINDOW {
            (latest - LOG_BLOCK_WINDOW) as nat
        } else {
            0
        },
        16,
    )
}

impl ScanView {
    /// A search that has not begun.
    pub open spec fn start(members: Set<Seq<char>>, contract: Seq<char>) -> ScanView {
        ScanView {
            members,
            contract,
            phase: ScanPhase::BlockNumber,
            pending: seq![],
            found: Map::empty(),
            block_times: Map::empty(),
        }
    }

    /// What to ask the node next.
    pub open spec fn request(self) -> Option<Json> {
        match self.phase {
            ScanPhase::BlockNumber => Some(rpc::block_number_request()),
            ScanPhase::Logs { from_block } => Some(rpc::logs_request(from_block, self.contract)),
            ScanPhase::Transaction { hash } => Some(rpc::transaction_request(hash)),
            ScanPhase::Block { oracle, number } => Some(rpc::block_request(number)),
            ScanPhase::Done => None,
        }
    }

    /// The search turns to the next transaction. It is over where there is none, or where a report of each oracle is
    /// found.
    pub open spec fn next_transaction(self) -> ScanView {
        if self.found.dom().len() >= self.members.len() || self.pending.len() == 0 {
            ScanView { phase: ScanPhase::Done, ..self }
        } else {
            ScanView {
                phase: ScanPhase::Transaction { hash: self.pending[0] },
                pending: self.pending.drop_first(),
                ..self
            }
        }
    }

    /// A transaction was found: it is a report if it goes to the contract and comes from an oracle. The first report of
    /// an oracle counts.
    pub open spec fn with_transaction(self, tx: Json) -> ScanView {
        let oracle = sender(tx);
        if tx is Null || receiver(tx) != text::lower(self.contract) || !self.members.contains(oracle)
            || self.found.dom().contains(oracle) {
            self.next_transaction()
        } else {
            match block_of(tx) {
                None => self.next_transaction(),
                Some(number) => if self.block_times.dom().contains(number) {
                    ScanView {
                        found: self.found.insert(oracle, self.block_times[number]),
                        ..self
                    }.next_transaction()
                } else {
                    ScanView { phase: ScanPhase::Block { oracle, number }, ..self }
                },
            }
        }
    }

    /// The time of a block is known, and with it that of the report of `oracle` in it.
    pub open spec fn with_block_time(self, oracle: Seq<char>, number: Seq<char>, ts: u64) -> ScanView {
        ScanView {
            found: self.found.insert(oracle, ts),
            block_times: self.block_times.insert(number, ts),
            ..self
        }.next_transaction()
    }

    /// The search takes in a result of the node.
    pub open spec fn advance(self, result: Json) -> Result<ScanView, ScanError> {
        match self.phase {
            ScanPhase::BlockNumber => match result.text() {
                None => Err(ScanError::BlockNumberNotText),
                Some(t) => match hex::hex_value(hex::without_0x(t)) {
                    Err(e) => Err(ScanError::BlockNumber(e)),
                    Ok(latest) => Ok(
                        ScanView { phase: ScanPhase::Logs { from_block: first_block(latest) }, ..self },
                    ),
                },
            },
            ScanPhase::Logs { from_block } => match result {
                Json::List(logs) => Ok(ScanView { pending: candidates(logs), ..self }.next_transaction()),
                _ => Err(ScanError::LogsNotList),
            },
            ScanPhase::Transaction { hash } => Ok(self.with_transaction(result)),
            ScanPhase::Block { oracle, number } => if result is Null {
                Ok(self.next_transaction())
            } else {
                match block_time(result) {
                    Err(e) => Err(e),
                    Ok(ts) => Ok(self.with_block_time(oracle, number, ts)),
                }
            },
            ScanPhase::Done => Ok(self),
        }
    }
}

// ---- The search ----
/// Reverses a list of strings.
fn reversed(list: Vec<String>) -> (out: Vec<String>)
    ensures
        text::views(out@).reverse() == text::views(list@),
{
    let mut rest: Vec<String> = list;
    let mut out: Vec<String> = Vec::new();
    while rest.len() > 0
        invariant
            rest@ + out@.reverse() == list@,
        decreases rest@.len(),
    {
        let ghost before = (rest@, out@);
        let last: Option<String> = rest.pop();
        if let Some(s) = last {
            out.push(s);
            assert(rest@ + out@.reverse() =~= before.0 + before.1.reverse());
        }
    }
    assert(text::views(out@).reverse() =~= text::views(list@));
    out
}

impl ReportScan {
    /// A search for the reports of `members` to `contract`.
    pub fn new(members: &Vec<String>, contract: &str) -> (scan: ReportScan)
        ensures
            scan@ == ScanView::start(text::views(members@).to_set(), contract@),
    {
        let mut set: TextMap<()> = TextMap::new();
        let mut i: usize = 0;
        let ghost names = text::views(members@);
        assert(set@.dom() =~= names.take(0).to_set());
        while i < members.len()
            invariant
                i <= members@.len(),
                names == text::views(members@),
                set@.dom() == names.take(i as int).to_set(),
            decreases members@.len() - i,
        {
            set.insert(members[i].clone(), ());
            proof {
                assert(names.take(i + 1) == names.take(i as int).push(names[i as int]));
                table::lemma_push_member(names.take(i as int), names[i as int]);
                assert(set@.dom() =~= names.take(i + 1).to_set());
            }
            i += 1;
        }
        assert(names.take(i as int) == names);
        let scan = ReportScan {
            members: set,
            contract: String::from_str(contract),
            phase: Phase::BlockNumber,
            pending: Vec::new(),
            found: TextMap::new(),
            block_times: TextMap::new(),
        };
        assert(scan@ =~= ScanView::start(text::views(members@).to_set(), contract@));
        scan
    }

    /// What to ask the node next, or `None` where the search is over.
    pub fn request(&self) -> (payload: Option<Value>)
        ensures
            match payload {
                Some(p) => self@.request() == Some(json::json_of(p)),
                None => self@.request() is None,
            },
    {
        match &self.phase {
            Phase::BlockNumber => Some(rpc::block_number_payload()),
            Phase::Logs(from_block) => Some(rpc::logs_payload(from_block.as_str(), self.contract.as_str())),
            Phase::Transaction(hash) => Some(rpc::transaction_payload(hash.as_str())),
            Phase::Block(_, number) => Some(rpc::block_payload(number.as_str())),
            Phase::Done => None,
        }
    }

    /// Turns to the next transaction.
    fn next_transaction(self) -> (scan: ReportScan)
        ensures
            scan@ == self@.next_transaction(),
    {
        let mut pending: Vec<String> = self.pending;
        let phase: Phase = if self.found.len() >= self.members.len() {
            Phase::Done
        } else {
            match pending.pop() {
                Some(hash) => Phase::Transaction(hash),
                None => Phase::Done,
            }
        };
        let scan = ReportScan {
            members: self.members,
            contract: self.contract,
            phase,
            pending,
            found: self.found,
            block_times: self.block_times,
        };
        assert(scan@ =~= self@.next_transaction());
        scan
    }

    /// Takes in a transaction.
    fn with_transaction(self, tx: &Value) -> (scan: ReportScan)
        ensures
            scan@ == self@.with_transaction(json::json_of(*tx)),
    {
        if tx.is_null() {
            return self.next_transaction();
        }
        let from: String = match json::member_str(tx, "from") {
            Some(from) => text::to_lower(from),
            None => text::to_lower(""),
        };
        let to: String = match json::member_str(tx, "to") {
            Some(to) => text::to_lower(to),
            None => text::to_lower(""),
        };
        proof {
            reveal_strlit("");
            assert(""@ =~= seq![]);
        }
        let target: String = text::to_lower(self.contract.as_str());
        if !text::same(to.as_str(), target.as_str()) || !self.members.contains_key(from.as_str())
            || self.found.contains_key(from.as_str()) {
            return self.next_transaction();
        }
        let number: &str = match json::member_str(tx, "blockNumber") {
            Some(number) => number,
            None => {
                return self.next_transaction();
            },
        };
        let known: Option<u64> = match self.block_times.get(number) {
            Some(ts) => Some(*ts),
            None => None,
        };
        match known {
            Some(ts) => {
                let mut found: TextMap<u64> = self.found;
                found.insert(from, ts);
                let scan = ReportScan {
                    members: self.members,
                    contract: self.contract,
                    phase: self.phase,
                    pending: self.pending,
                    found,
                    block_times: self.block_times,
                };
                scan.next_transaction()
            },
            None => ReportScan {
                members: self.members,
                contract: self.contract,
                phase: Phase::Block(from, String::from_str(number)),
                pending: self.pending,
                found: self.found,
                block_times: self.block_times,
            },
        }
    }

    /// Takes in the time of the block that holds a report of `oracle`.
    fn with_block_time(self, oracle: String, number: String, ts: u64) -> (scan: ReportScan)
        ensures
            scan@ == self@.with_block_time(oracle@, number@, ts),
    {
        let mut found: TextMap<u64> = self.found;
        found.insert(oracle, ts);
        let mut block_times: TextMap<u64> = self.block_times;
        block_times.insert(number, ts);
        let scan = ReportScan {
            members: self.members,
            contract: self.contract,
            phase: self.phase,
            pending: self.pending,
            found,
            block_times,
        };
        scan.next_transaction()
    }

    /// The same search, waiting for something else.
    fn with_phase(self, phase: Phase) -> (scan: ReportScan)
        ensures
            scan@ == (ScanView { phase: phase@, ..self@ }),
    {
        ReportScan {
            members: self.members,
            contract: self.contract,
            phase,
            pending: self.pending,
            found: self.found,
            block_times: self.block_times,
        }
    }

    /// Takes in the result of the request that was made.
    pub fn advance(self, result: &Value) -> (r: Result<ReportScan, ScanError>)
        ensures
            match r {
                Ok(scan) => self@.advance(json::json_of(*result)) == Ok::<ScanView, ScanError>(scan@),
                Err(e) => self@.advance(json::json_of(*result)) == Err::<ScanView, ScanError>(e),
            },
    {
        match &self.phase {
            Phase::BlockNumber => match result.as_str() {
                None => Err(ScanError::BlockNumberNotText),
                Some(t) => match hex::hex_to_u64(t) {
                    Err(e) => Err(ScanError::BlockNumber(e)),
                    Ok(latest) => {
                        let mut from_block = String::new();
                        from_block.push('0');
                        from_block.push('x');
                        text::push_numeral(&mut from_block, latest.saturating_sub(LOG_BLOCK_WINDOW), 16);
                        assert(from_block@ =~= first_block(latest));
                        Ok(self.with_phase(Phase::Logs(from_block)))
                    },
                },
            },
            Phase::Logs(_) => match result.as_array() {
                None => Err(ScanError::LogsNotList),
                Some(logs) => {
                    let scan = ReportScan {
                        members: self.members,
                        contract: self.contract,
                        phase: self.phase,
                        pending: reversed(candidate_hashes(logs)),
                        found: self.found,
                        block_times: self.block_times,
                    };
                    Ok(scan.next_transaction())
                },
            },
            Phase::Transaction(_) => Ok(self.with_transaction(result)),
            Phase::Block(oracle, number) => {
                if result.is_null() {
                    return Ok(self.next_transaction());
                }
                match json::member_str(result, "timestamp") {
                    None => Err(ScanError::NoTimestamp),
                    Some(t) => match hex::hex_to_u64(t) {
                        Err(e) => Err(ScanError::Timestamp(e)),
                        Ok(ts) => {
                            let oracle: String = oracle.clone();
                            let number: String = number.clone();
                            Ok(self.with_block_time(oracle, number, ts))
                        },
                    },
                }
            },
            Phase::Done => Ok(self),
        }
    }

    /// The reports that were found: the oracles, and the time of the latest report of each.
    pub fn reports(self) -> (found: TextMap<u64>)
        ensures
            found@ == self@.found,
    {
        self.found
    }
}

} // verus!
