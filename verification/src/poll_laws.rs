//! What a whole poll does.
use vstd::prelude::*;

use crate::abi;
use crate::config::ConfigText;
use crate::endpoints;
use crate::json::Json;
use crate::poll;
use crate::poll::{Findings, PollFault, PollStage, PollView, StepView};
use crate::rpc;
use crate::rpc::RpcFault;
use crate::scan;
use crate::scan::ScanView;
use crate::scan_laws;
use crate::scan_laws::SearchFault;
use crate::state;
use crate::state::{OracleMetrics, StateView};
use crate::table;

verus! {

/// How far a poll is from its end: first by what it waits for.
pub open spec fn stage(step: StepView) -> nat {
    match step {
        StepView::Ask(p, request) => match p.stage {
            PollStage::Members => 5,
            PollStage::Reports { members, scan } => scan_laws::stage(scan) + 1,
        },
        StepView::Over(r) => 0,
    }
}

/// Then by how much its search has still to ask for.
pub open spec fn left(step: StepView) -> nat {
    match step {
        StepView::Ask(p, request) => match p.stage {
            PollStage::Members => 0,
            PollStage::Reports { members, scan } => scan_laws::left(scan),
        },
        StepView::Over(r) => 0,
    }
}

/// What comes of a poll from `step` on, where `node` tells the result of each request.
pub open spec fn follow(node: spec_fn(Json) -> Result<Json, RpcFault>, step: StepView) -> Result<Findings, PollFault>
    decreases stage(step), left(step),
{
    match step {
        StepView::Over(r) => r,
        StepView::Ask(p, request) => follow(node, p.advance(node(request))),
    }
}

/// What comes of a whole poll.
pub open spec fn polled(node: spec_fn(Json) -> Result<Json, RpcFault>, config: ConfigText) -> Result<
    Findings,
    PollFault,
> {
    follow(
        node,
        StepView::Ask(PollView::start(config), poll::members_request(config.members_source_address)),
    )
}

/// What comes of a poll, where a search found the reports of `members`.
pub open spec fn searched(members: Seq<Seq<char>>, r: Result<Map<Seq<char>, u64>, SearchFault>) -> Result<
    Findings,
    PollFault,
> {
    match r {
        Ok(reports) => Ok(Findings { members, reports }),
        Err(SearchFault::Rpc(fault)) => Err(PollFault::Call(fault)),
        Err(SearchFault::Scan(e)) => Err(PollFault::Scan(e)),
    }
}

proof fn lemma_follow_search(
    node: spec_fn(Json) -> Result<Json, RpcFault>,
    p: PollView,
    members: Seq<Seq<char>>,
    scan: ScanView,
)
    ensures
        follow(node, p.searching(members, scan)) == searched(members, scan_laws::run(node, scan)),
    decreases scan_laws::stage(scan), scan_laws::left(scan),
{
    reveal_with_fuel(follow, 3);
    if let Some(request) = scan.request() {
        let q = PollView { stage: PollStage::Reports { members, scan }, ..p };
        if let Ok(result) = node(request) {
            if let Ok(next) = scan.advance(result) {
                lemma_follow_search(node, q, members, next);
            }
        }
    }
}

/// A poll fails where the members cannot be fetched, or where the search fails. Else it finds the members, and the
/// reports that the search finds.
pub proof fn law_poll_is_fetch_and_search(node: spec_fn(Json) -> Result<Json, RpcFault>, config: ConfigText)
    ensures
        polled(node, config) == (match poll::members_in(
            config.members_source_address,
            node(poll::members_request(config.members_source_address)),
        ) {
            Err(fault) => Err(fault),
            Ok(members) => searched(
                members,
                scan_laws::run(node, ScanView::start(members.to_set(), config.target_contract_address)),
            ),
        }),
{
    reveal_with_fuel(follow, 3);
    let p = PollView::start(config);
    let result = node(poll::members_request(config.members_source_address));
    if let Ok(members) = poll::members_in(p.source, result) {
        lemma_follow_search(node, p, members, ScanView::start(members.to_set(), p.contract));
    }
}

/// After a poll that found something, the state holds the members, each with its newest report among the candidates, and
/// no one else.
pub proof fn law_poll_records_newest_reports(
    node: spec_fn(Json) -> Result<Json, RpcFault>,
    config: ConfigText,
    before: StateView,
    now: u64,
)
    requires
        polled(node, config) is Ok,
    ensures
        scan_laws::logs_read(node, config.target_contract_address) is Some,
        ({
            let findings = polled(node, config)->Ok_0;
            let oracles = poll::recorded(before, now, polled(node, config)).per_oracle;
            let hashes = scan::candidates(scan_laws::logs_read(node, config.target_contract_address)->Some_0);
            forall|oracle: Seq<char>| #[trigger]
                state::lookup(oracles, oracle) == (if findings.members.contains(oracle) {
                    Some(
                        OracleMetrics::at(
                            now,
                            scan_laws::first_report(node, config.target_contract_address, hashes, oracle),
                        ),
                    )
                } else {
                    None
                })
        }),
{
    law_poll_is_fetch_and_search(node, config);
    let findings = polled(node, config)->Ok_0;
    let members = findings.members.to_set();
    vstd::seq_lib::seq_to_set_is_finite(findings.members);
    scan_laws::law_search_finds_newest_reports(node, members, config.target_contract_address);
    let oracles = state::oracles_at(now, members, findings.reports);
    let hashes = scan::candidates(scan_laws::logs_read(node, config.target_contract_address)->Some_0);
    assert forall|oracle: Seq<char>| #[trigger] state::lookup(oracles, oracle) == (if findings.members.contains(oracle) {
        Some(
            OracleMetrics::at(
                now,
                scan_laws::first_report(node, config.target_contract_address, hashes, oracle),
            ),
        )
    } else {
        None
    }) by {
        assert(members.contains(oracle) == findings.members.contains(oracle));
        assert(members.contains(oracle) ==> state::lookup(findings.reports, oracle) == scan_laws::first_report(
            node,
            config.target_contract_address,
            hashes,
            oracle,
        ));
    }
}

/// After a poll that found something, the metrics say so: they show the success, the time of the poll, how many members
/// there are, and then the samples of each member, in ascending order.
pub proof fn law_metrics_show_last_poll(
    node: spec_fn(Json) -> Result<Json, RpcFault>,
    config: ConfigText,
    before: StateView,
    now: u64,
)
    requires
        polled(node, config) is Ok,
    ensures
        ({
            let members = polled(node, config)->Ok_0.members;
            let after = poll::recorded(before, now, polled(node, config));
            &&& members.len() > 0
            &&& table::ascending(members)
            &&& endpoints::metrics_text(after) == endpoints::metrics_head(members.len(), now, true)
                + endpoints::all_samples(members, after.per_oracle)
        }),
{
    law_poll_is_fetch_and_search(node, config);
    let members = polled(node, config)->Ok_0.members;
    let after = poll::recorded(before, now, polled(node, config));
    let result = node(poll::members_request(config.members_source_address))->Ok_0;
    abi::law_members(result.text()->Some_0);
    assert(after.per_oracle.dom() =~= members.to_set());
    table::lemma_in_order(members);
    table::lemma_ascending_distinct(members);
    members.unique_seq_to_set();
}

/// A poll succeeds wherever the members can be fetched and the node answers what the search for their reports asks as it
/// should.
pub proof fn law_poll_succeeds(node: spec_fn(Json) -> Result<Json, RpcFault>, config: ConfigText)
    requires
        poll::members_in(
            config.members_source_address,
            node(poll::members_request(config.members_source_address)),
        ) is Ok,
        scan_laws::answers_well(
            node,
            poll::members_in(
                config.members_source_address,
                node(poll::members_request(config.members_source_address)),
            )->Ok_0.to_set(),
            config.target_contract_address,
        ),
    ensures
        polled(node, config) matches Ok(findings) && findings.members == poll::members_in(
            config.members_source_address,
            node(poll::members_request(config.members_source_address)),
        )->Ok_0,
{
    law_poll_is_fetch_and_search(node, config);
    let members = poll::members_in(
        config.members_source_address,
        node(poll::members_request(config.members_source_address)),
    )->Ok_0;
    scan_laws::law_search_succeeds(node, members.to_set(), config.target_contract_address);
}

/// After a poll the health endpoint answers with status 200 exactly where the poll succeeded, and with 503 else. Before the
/// first poll, and after one that could not begin for want of the time, it answers with 503.
pub proof fn law_health_tells_last_poll(before: StateView, now: u64, r: Result<Findings, PollFault>)
    ensures
        endpoints::health_answer(poll::recorded(before, now, r)).0 == (if r is Ok {
            200u16
        } else {
            503u16
        }),
        endpoints::health_answer(StateView::initial()).0 == 503,
        endpoints::health_answer(before.failed(None)).0 == 503,
{
}

/// Of each oracle, the time of the latest report and its age are known together, or neither is.
pub open spec fn report_with_age(state: StateView) -> bool {
    forall|oracle: Seq<char>| #[trigger]
        state.per_oracle.dom().contains(oracle) ==> (state.per_oracle[oracle].last_report_ts is Some
            <==> state.per_oracle[oracle].time_since_last_report_secs is Some)
}

/// In every state the time of the latest report of an oracle and its age are known together: it is so before the first
/// poll, and stays so whatever comes of a poll.
pub proof fn law_report_with_age(before: StateView, now: u64, r: Result<Findings, PollFault>)
    ensures
        report_with_age(StateView::initial()),
        report_with_age(before) ==> report_with_age(poll::recorded(before, now, r)),
        report_with_age(before) ==> report_with_age(before.failed(None)),
{
}

/// A poll is known by its time, and as a success exactly where it was one. Where it was, the oracles are the members that it
/// found. The report of each is the one found, if any, and its age and its time add up to the time of the poll; a report of
/// a later time has no age. Where the poll failed, the oracles are as before.
pub proof fn law_recorded(before: StateView, now: u64, r: Result<Findings, PollFault>, oracle: Seq<char>)
    ensures
        ({
            let after = poll::recorded(before, now, r);
            &&& after.last_check_ts == now
            &&& after.last_check_ok <==> r is Ok
            &&& r is Err ==> after.per_oracle == before.per_oracle
            &&& r matches Ok(findings) ==> {
                let known = after.per_oracle[oracle];
                &&& after.per_oracle.dom().contains(oracle) <==> findings.members.contains(oracle)
                &&& findings.members.contains(oracle) && findings.reports.dom().contains(oracle) ==> {
                    &&& known.last_report_ts == Some(findings.reports[oracle])
                    &&& known.time_since_last_report_secs is Some
                    &&& findings.reports[oracle] <= now ==> known.last_report_ts->Some_0
                        + known.time_since_last_report_secs->Some_0 == after.last_check_ts
                    &&& findings.reports[oracle] > now ==> known.time_since_last_report_secs == Some(0u64)
                }
                &&& findings.members.contains(oracle) && !findings.reports.dom().contains(oracle) ==> {
                    &&& known.last_report_ts is None
                    &&& known.time_since_last_report_secs is None
                }
            }
        }),
{
}

/// The members are asked for by a call of the contract `source` with the selector of `getMembers()`.
pub proof fn law_members_request(source: Seq<char>)
    ensures
        poll::members_request(source) == rpc::request(
            "eth_call"@,
            seq![
                Json::Object(map!["to"@ => Json::Text(source), "data"@ => Json::Text("0x9eab5253"@)]),
                Json::Text("latest"@),
            ],
        ),
{
    crate::rpc_laws::law_call_request(source, "0x9eab5253"@);
}

/// The members are those that are decoded from the string that the call returned. Where the call failed, it is named with
/// its contract; where it returned no string, or one that cannot be decoded, that is the error.
pub proof fn law_members_in(source: Seq<char>, fault: RpcFault, t: Seq<char>, other: Json)
    requires
        !(other is Text),
    ensures
        poll::members_in(source, Err(fault)) == Err::<Seq<Seq<char>>, PollFault>(PollFault::MembersCall(source, fault)),
        poll::members_in(source, Ok(other)) == Err::<Seq<Seq<char>>, PollFault>(PollFault::MembersNotText),
        abi::decoded_members(t) matches Ok(members) ==> poll::members_in(source, Ok(Json::Text(t))) == Ok::<
            Seq<Seq<char>>,
            PollFault,
        >(members),
        abi::decoded_members(t) matches Err(e) ==> poll::members_in(source, Ok(Json::Text(t))) == Err::<
            Seq<Seq<char>>,
            PollFault,
        >(PollFault::Members(e)),
{
}

/// A poll begins with the contract and the members source of its configuration.
pub proof fn law_poll_start(config: ConfigText)
    ensures
        PollView::start(config).contract == config.target_contract_address,
        PollView::start(config).source == config.members_source_address,
        PollView::start(config).stage is Members,
{
}

/// The message of an error is told in full: whatever the contract, the cause and the reason are, they stand in it.
pub proof fn law_messages(source: Seq<char>, fault: RpcFault, e: abi::MembersError, s: scan::ScanError, reason: Seq<char>)
    ensures
        PollFault::Clock(reason).message() == "system clock is before UNIX_EPOCH: "@ + reason,
        PollFault::MembersCall(source, fault).message() == "getMembers eth_call failed on members source "@ + source
            + ": "@ + fault.message(),
        PollFault::MembersNotText.message() == "getMembers eth_call result was not a string"@,
        PollFault::Members(e).message() == "failed to decode getMembers() response: "@ + e.text(),
        PollFault::Call(fault).message() == fault.message(),
        PollFault::Scan(s).message() == s.text(),
{
}

/// The views of what came of a poll hold what it does.
pub proof fn law_views(report: poll::PollReport, e: poll::PollError, t: String, f: crate::rpc::RpcError)
    ensures
        poll::outcome(Ok(report)) matches Ok(findings) && findings.members == crate::text::views(report.members@)
            && findings.reports == report.reports@,
        poll::outcome(Err(e)) == Err::<Findings, PollFault>(e@),
        poll::PollError::Clock(t)@ == PollFault::Clock(t@),
        poll::PollError::MembersCall(t, f)@ == PollFault::MembersCall(t@, f@),
        poll::PollError::Call(f)@ == PollFault::Call(f@),
{
}

/// A poll that fails changes nothing of what is known of the oracles, and each poll is known by its time.
pub proof fn law_failed_poll_keeps_oracles(before: StateView, now: u64, fault: PollFault, r: Result<Findings, PollFault>)
    ensures
        poll::recorded(before, now, Err(fault)).per_oracle == before.per_oracle,
        poll::recorded(before, now, r).last_check_ts == now,
{
}

} // verus!
