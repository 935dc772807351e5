//! One poll: the members are fetched, then the latest report of each is searched for, and the state takes in what came
//! of it.
//!
//! `Poll::begin` gives the first request for the node, and `Poll::advance` takes in the reply to each.
use serde_json::Value;
use vstd::prelude::*;
use vstd::string::*;

use crate::abi;
use crate::abi::MembersError;
use crate::clock::BeforeEpoch;
use crate::config::{Config, ConfigText};
use crate::json;
use crate::json::Json;
use crate::rpc;
use crate::rpc::{Reply, RpcError, RpcFault};
use crate::scan::{ReportScan, ScanError, ScanView};
use crate::state;
use crate::state::{MonitorState, StateView};
use crate::table::TextMap;
use crate::text;

verus! {

/// The selector of `getMembers()`.
pub const GET_MEMBERS_SELECTOR: &'static str = "0x9eab5253";

/// Why a poll failed.
#[derive(Debug)]
pub enum PollError {
    /// The clock shows a time before 1970, as the text says.
    Clock(String),
    /// The call of `getMembers()` on the contract named has no result.
    MembersCall(String, RpcError),
    /// The result of `getMembers()` is no string.
    MembersNotText,
    /// The result of `getMembers()` cannot be read.
    Members(MembersError),
    /// A call of the node has no result.
    Call(RpcError),
    /// A result of the node is of no use.
    Scan(ScanError),
}

/// A `PollError` and the text in it.
pub enum PollFault {
    Clock(Seq<char>),
    MembersCall(Seq<char>, RpcFault),
    MembersNotText,
    Members(MembersError),
    Call(RpcFault),
    Scan(ScanError),
}

impl View for PollError {
    type V = PollFault;

    open spec fn view(&self) -> PollFault {
        match self {
            PollError::Clock(reason) => PollFault::Clock(reason@),
            PollError::MembersCall(source, e) => PollFault::MembersCall(source@, e@),
            PollError::MembersNotText => PollFault::MembersNotText,
            PollError::Members(e) => PollFault::Members(*e),
            PollError::Call(e) => PollFault::Call(e@),
            PollError::Scan(e) => PollFault::Scan(*e),
        }
    }
}

impl PollFault {
    /// What is logged.
    pub open spec fn message(self) -> Seq<char> {
        match self {
            PollFault::Clock(reason) => "system clock is before UNIX_EPOCH: "@ + reason,
            PollFault::MembersCall(source, e) => "getMembers eth_call failed on members source "@ + source + ": "@
                + e.message(),
            PollFault::MembersNotText => "getMembers eth_call result was not a string"@,
            PollFault::Members(e) => "failed to decode getMembers() response: "@ + e.text(),
            PollFault::Call(e) => e.message(),
            PollFault::Scan(e) => e.text(),
        }
    }
}

impl PollError {
    /// What is logged.
    pub fn message(&self) -> (m: String)
        ensures
            m@ == self@.message(),
    {
        match self {
            PollError::Clock(reason) => String::from_str("system clock is before UNIX_EPOCH: ").concat(reason.as_str()),
            PollError::MembersCall(source, e) => String::from_str(
                "getMembers eth_call failed on members source ",
            ).concat(source.as_str()).concat(": ").concat(e.message().as_str()),
            PollError::MembersNotText => String::from_str("getMembers eth_call result was not a string"),
            PollError::Members(e) => String::from_str("failed to decode getMembers() response: ").concat(
                e.message().as_str(),
            ),
            PollError::Call(e) => e.message(),
            PollError::Scan(e) => e.message(),
        }
    }
}

// ---- The members ----
/// The request for the members, which the contract at `source` knows.
pub open spec fn members_request(source: Seq<char>) -> Json {
    rpc::call_request(source, GET_MEMBERS_SELECTOR@)
}

/// Builds the request for the members, which the contract at `source` knows.
pub fn members_payload(source: &str) -> (payload: Value)
    ensures
        json::json_of(payload) == members_request(source@),
{
    rpc::call_payload(source, GET_MEMBERS_SELECTOR)
}

/// The members in the result of the call of `getMembers()` on the contract at `source`.
pub open spec fn members_in(source: Seq<char>, result: Result<Json, RpcFault>) -> Result<
    Seq<Seq<char>>,
    PollFault,
> {
    match result {
        Err(fault) => Err(PollFault::MembersCall(source, fault)),
        Ok(value) => match value.text() {
            None => Err(PollFault::MembersNotText),
            Some(t) => match abi::decoded_members(t) {
                Err(e) => Err(PollFault::Members(e)),
                Ok(members) => Ok(members),
            },
        },
    }
}

/// Reads the members from the reply to the call of `getMembers()` on the contract at `source`.
pub fn oracle_allowlist(source: &str, reply: Reply) -> (r: Result<Vec<String>, PollError>)
    ensures
        match r {
            Ok(members) => members_in(source@, rpc::result_of(reply)) == Ok::<Seq<Seq<char>>, PollFault>(
                text::views(members@),
            ),
            Err(e) => members_in(source@, rpc::result_of(reply)) == Err::<Seq<Seq<char>>, PollFault>(e@),
        },
{
    match rpc::rpc_result(reply) {
        Err(e) => Err(PollError::MembersCall(String::from_str(source), e)),
        Ok(value) => match value.as_str() {
            None => Err(PollError::MembersNotText),
            Some(t) => match abi::decode_get_members_addresses(t) {
                Err(e) => Err(PollError::Members(e)),
                Ok(members) => Ok(members),
            },
        },
    }
}

// ---- The poll ----
/// What a poll found.
pub struct PollReport {
    /// The members, in ascending order.
    pub members: Vec<String>,
    /// The members of which a report was found, and the time of the latest.
    pub reports: TextMap<u64>,
}

/// What a poll found.
#[verifier::ext_equal]
pub struct Findings {
    pub members: Seq<Seq<char>>,
    pub reports: Map<Seq<char>, u64>,
}

impl View for PollReport {
    type V = Findings;

    open spec fn view(&self) -> Findings {
        Findings { members: text::views(self.members@), reports: self.reports@ }
    }
}

/// What came of a poll.
pub open spec fn outcome(r: Result<PollReport, PollError>) -> Result<Findings, PollFault> {
    match r {
        Ok(report) => Ok(report@),
        Err(e) => Err(e@),
    }
}

enum Stage {
    /// The members are asked for.
    Members,
    /// The reports of the members are searched for.
    Reports(Vec<String>, ReportScan),
}

/// A poll that waits for a reply of the node.
pub struct Poll {
    contract: String,
    source: String,
    stage: Stage,
}

/// What a poll does.
pub enum PollStage {
    Members,
    Reports { members: Seq<Seq<char>>, scan: ScanView },
}

/// What a poll holds.
pub struct PollView {
    pub contract: Seq<char>,
    pub source: Seq<char>,
    pub stage: PollStage,
}

impl View for Poll {
    type V = PollView;

    closed spec fn view(&self) -> PollView {
        PollView {
            contract: self.contract@,
            source: self.source@,
            stage: match self.stage {
                Stage::Members => PollStage::Members,
                Stage::Reports(members, scan) => PollStage::Reports {
                    members: text::views(members@),
                    scan: scan@,
                },
            },
        }
    }
}

/// What to do next.
pub enum Step {
    /// Send the request, and hand the reply to the poll.
    Ask(Poll, Value),
    /// The poll is over.
    Over(Result<PollReport, PollError>),
}

/// What to do next.
pub enum StepView {
    Ask(PollView, Json),
    Over(Result<Findings, PollFault>),
}

impl View for Step {
    type V = StepView;

    open spec fn view(&self) -> StepView {
        match self {
            Step::Ask(poll, request) => StepView::Ask(poll@, json::json_of(*request)),
            Step::Over(r) => StepView::Over(outcome(*r)),
        }
    }
}

impl PollView {
    /// A poll that has not begun.
    pub open spec fn start(config: ConfigText) -> PollView {
        PollView {
            contract: config.target_contract_address,
            source: config.members_source_address,
            stage: PollStage::Members,
        }
    }

    /// The poll goes on with a search.
    pub open spec fn searching(self, members: Seq<Seq<char>>, scan: ScanView) -> StepView {
        match scan.request() {
            Some(request) => StepView::Ask(
                PollView { stage: PollStage::Reports { members, scan }, ..self },
                request,
            ),
            None => StepView::Over(Ok(Findings { members, reports: scan.found })),
        }
    }

    /// The poll takes in the result of a call.
    pub open spec fn advance(self, result: Result<Json, RpcFault>) -> StepView {
        match self.stage {
            PollStage::Members => match members_in(self.source, result) {
                Err(fault) => StepView::Over(Err(fault)),
                Ok(members) => self.searching(members, ScanView::start(members.to_set(), self.contract)),
            },
            PollStage::Reports { members, scan } => match result {
                Err(fault) => StepView::Over(Err(PollFault::Call(fault))),
                Ok(value) => match scan.advance(value) {
                    Err(e) => StepView::Over(Err(PollFault::Scan(e))),
                    Ok(next) => self.searching(members, next),
                },
            },
        }
    }
}

impl Poll {
    /// A poll, and its first request.
    pub fn begin(config: &Config) -> (r: (Poll, Value))
        ensures
            r.0@ == PollView::start(config@),
            json::json_of(r.1) == members_request(config@.members_source_address),
    {
        let payload: Value = members_payload(config.members_source_address.as_str());
        let poll = Poll {
            contract: config.target_contract_address.clone(),
            source: config.members_source_address.clone(),
            stage: Stage::Members,
        };
        (poll, payload)
    }

    /// Goes on with a search.
    fn searching(contract: String, source: String, members: Vec<String>, scan: ReportScan) -> (step: Step)
        ensures
            step@ == (PollView { contract: contract@, source: source@, stage: PollStage::Members }).searching(
                text::views(members@),
                scan@,
            ),
    {
        match scan.request() {
            Some(request) => {
                let poll = Poll { contract, source, stage: Stage::Reports(members, scan) };
                Step::Ask(poll, request)
            },
            None => {
                let report = PollReport { members, reports: scan.reports() };
                Step::Over(Ok(report))
            },
        }
    }

    /// Takes in the reply to the request that was made.
    pub fn advance(self, reply: Reply) -> (step: Step)
        ensures
            step@ == self@.advance(rpc::result_of(reply)),
    {
        let contract: String = self.contract;
        let source: String = self.source;
        match self.stage {
            Stage::Members => match oracle_allowlist(source.as_str(), reply) {
                Err(e) => Step::Over(Err(e)),
                Ok(members) => {
                    let scan = ReportScan::new(&members, contract.as_str());
                    Poll::searching(contract, source, members, scan)
                },
            },
            Stage::Reports(members, scan) => match rpc::rpc_result(reply) {
                Err(e) => Step::Over(Err(PollError::Call(e))),
                Ok(value) => match scan.advance(&value) {
                    Err(e) => Step::Over(Err(PollError::Scan(e))),
                    Ok(next) => Poll::searching(contract, source, members, next),
                },
            },
        }
    }
}

/// The state takes in that a poll could not begin, as the clock does not tell the time.
pub fn record_no_time(state: &mut MonitorState, early: BeforeEpoch) -> (e: PollError)
    ensures
        final(state)@ == old(state)@.failed(None),
        e@ == PollFault::Clock(early.0@),
{
    state.record_failure(None);
    PollError::Clock(early.0)
}

/// The state after a poll at `now`, of which `r` came.
pub open spec fn recorded(before: StateView, now: u64, r: Result<Findings, PollFault>) -> StateView {
    match r {
        Ok(findings) => StateView::succeeded(
            now,
            state::oracles_at(now, findings.members.to_set(), findings.reports),
        ),
        Err(_) => before.failed(Some(now)),
    }
}

/// The state takes in what came of a poll at `now`, whichever part of the poll failed, if one did.
pub fn record_outcome(state: &mut MonitorState, now: u64, r: &Result<PollReport, PollError>)
    ensures
        final(state)@ == recorded(old(state)@, now, outcome(*r)),
{
    match r {
        Ok(report) => state.record_success(now, &report.members, &report.reports),
        Err(_) => state.record_failure(Some(now)),
    }
}

} // verus!
