//! What a whole search finds.
use vstd::prelude::*;

use crate::config::{LOG_BLOCK_WINDOW, MAX_TX_TO_CHECK};
use crate::hex;
use crate::json::Json;
use crate::rpc;
use crate::rpc::RpcFault;
use crate::scan;
use crate::scan::{ScanError, ScanPhase, ScanView};
use crate::state;
use crate::text;

verus! {

/// Why a search ends without reports.
pub enum SearchFault {
    /// A call of the node has no result.
    Rpc(RpcFault),
    /// A result of the node is of no use.
    Scan(ScanError),
}

/// How far a search is from its end: first by what it waits for.
pub open spec fn stage(v: ScanView) -> nat {
    match v.phase {
        ScanPhase::BlockNumber => 3,
        ScanPhase::Logs { .. } => 2,
        ScanPhase::Transaction { .. } => 1,
        ScanPhase::Block { .. } => 1,
        ScanPhase::Done => 0,
    }
}

/// Then by how much it has still to ask for.
pub open spec fn left(v: ScanView) -> nat {
    match v.phase {
        ScanPhase::Transaction { .. } => 2 * v.pending.len() + 2,
        ScanPhase::Block { .. } => 2 * v.pending.len() + 1,
        _ => 0,
    }
}

/// What comes of a search from `v` on, where `node` tells the result of each request.
pub open spec fn run(node: spec_fn(Json) -> Result<Json, RpcFault>, v: ScanView) -> Result<
    Map<Seq<char>, u64>,
    SearchFault,
>
    decreases stage(v), left(v),
{
    match v.request() {
        None => Ok(v.found),
        Some(request) => match node(request) {
            Err(fault) => Err(SearchFault::Rpc(fault)),
            Ok(result) => match v.advance(result) {
                Err(e) => Err(SearchFault::Scan(e)),
                Ok(w) => run(node, w),
            },
        },
    }
}

/// How many requests a search from `v` on makes.
pub open spec fn requests(node: spec_fn(Json) -> Result<Json, RpcFault>, v: ScanView) -> nat
    decreases stage(v), left(v),
{
    match v.request() {
        None => 0,
        Some(request) => match node(request) {
            Err(fault) => 1,
            Ok(result) => match v.advance(result) {
                Err(e) => 1,
                Ok(w) => 1 + requests(node, w),
            },
        },
    }
}

/// The time of the report of `oracle` that the transaction `hash` is, if it is one: it goes to the contract, comes from
/// the oracle, and stands in a block of which the node tells the time.
pub open spec fn report_time(
    node: spec_fn(Json) -> Result<Json, RpcFault>,
    contract: Seq<char>,
    hash: Seq<char>,
    oracle: Seq<char>,
) -> Option<u64> {
    match node(rpc::transaction_request(hash)) {
        Ok(tx) => if tx is Null || scan::receiver(tx) != text::lower(contract) || scan::sender(tx) != oracle {
            None
        } else {
            match scan::block_of(tx) {
                Some(number) => time_of_block(node, number),
                None => None,
            }
        },
        Err(_) => None,
    }
}

/// The time of the block `number`, if the node tells it.
pub open spec fn time_of_block(node: spec_fn(Json) -> Result<Json, RpcFault>, number: Seq<char>) -> Option<u64> {
    match node(rpc::block_request(number)) {
        Ok(block) => match scan::block_time(block) {
            Ok(ts) => Some(ts),
            Err(_) => None,
        },
        Err(_) => None,
    }
}

/// The time of the first report of `oracle` among the transactions `hashes`.
pub open spec fn first_report(
    node: spec_fn(Json) -> Result<Json, RpcFault>,
    contract: Seq<char>,
    hashes: Seq<Seq<char>>,
    oracle: Seq<char>,
) -> Option<u64>
    decreases hashes.len(),
{
    if hashes.len() == 0 {
        None
    } else {
        match report_time(node, contract, hashes[0], oracle) {
            Some(ts) => Some(ts),
            None => first_report(node, contract, hashes.drop_first(), oracle),
        }
    }
}

/// What holds of a search at any time: reports are found of members alone, the times of blocks are those that the node
/// tells, and a search that is over has nothing left to find.
spec fn sound(node: spec_fn(Json) -> Result<Json, RpcFault>, v: ScanView) -> bool {
    &&& v.members.finite()
    &&& v.found.dom().subset_of(v.members)
    &&& forall|number: Seq<char>| #[trigger]
        v.block_times.dom().contains(number) ==> time_of_block(node, number) == Some(v.block_times[number])
    &&& match v.phase {
        ScanPhase::Block { oracle, number } => v.members.contains(oracle) && !v.found.dom().contains(oracle),
        ScanPhase::Done => v.found.dom().len() >= v.members.len() || v.pending.len() == 0,
        _ => true,
    }
}

/// The report of `oracle` that a search from `v` on finds.
spec fn expected(node: spec_fn(Json) -> Result<Json, RpcFault>, v: ScanView, oracle: Seq<char>) -> Option<u64> {
    if v.found.dom().contains(oracle) {
        Some(v.found[oracle])
    } else {
        match v.phase {
            ScanPhase::Transaction { hash } => first_report(node, v.contract, seq![hash] + v.pending, oracle),
            ScanPhase::Block { oracle: reporter, number } => if oracle == reporter && time_of_block(
                node,
                number,
            ) is Some {
                time_of_block(node, number)
            } else {
                first_report(node, v.contract, v.pending, oracle)
            },
            _ => first_report(node, v.contract, v.pending, oracle),
        }
    }
}

/// Where reports of as many members are found as there are, one of each member is found.
proof fn lemma_all_found(v: ScanView, oracle: Seq<char>)
    requires
        v.members.finite(),
        v.found.dom().subset_of(v.members),
        v.found.dom().len() >= v.members.len(),
        v.members.contains(oracle),
    ensures
        v.found.dom().contains(oracle),
{
    if !v.found.dom().contains(oracle) {
        let rest = v.members.remove(oracle);
        assert(v.found.dom().subset_of(rest));
        vstd::set_lib::lemma_len_subset(v.found.dom(), rest);
    }
}

/// To turn to the next transaction changes nothing of what is found in the end.
proof fn lemma_next(node: spec_fn(Json) -> Result<Json, RpcFault>, v: ScanView)
    requires
        v.members.finite(),
        v.found.dom().subset_of(v.members),
        forall|number: Seq<char>| #[trigger]
            v.block_times.dom().contains(number) ==> time_of_block(node, number) == Some(v.block_times[number]),
    ensures
        sound(node, v.next_transaction()),
        v.next_transaction().members == v.members,
        v.next_transaction().contract == v.contract,
        stage(v.next_transaction()) <= 1,
        left(v.next_transaction()) <= 2 * v.pending.len(),
        forall|oracle: Seq<char>| #[trigger]
            v.members.contains(oracle) ==> expected(node, v.next_transaction(), oracle) == (if v.found.dom().contains(
                oracle,
            ) {
                Some(v.found[oracle])
            } else {
                first_report(node, v.contract, v.pending, oracle)
            }),
{
    let w = v.next_transaction();
    assert forall|oracle: Seq<char>| #[trigger] v.members.contains(oracle) implies expected(node, w, oracle) == (
    if v.found.dom().contains(oracle) {
        Some(v.found[oracle])
    } else {
        first_report(node, v.contract, v.pending, oracle)
    }) by {
        if v.found.dom().len() >= v.members.len() {
            lemma_all_found(v, oracle);
        } else if v.pending.len() > 0 {
            assert(seq![v.pending[0]] + v.pending.drop_first() =~= v.pending);
        }
    }
}

/// One step changes nothing of what is found in the end.
proof fn lemma_step(node: spec_fn(Json) -> Result<Json, RpcFault>, v: ScanView)
    requires
        sound(node, v),
        v.phase is Transaction || v.phase is Block,
        v.request() matches Some(request) && node(request) matches Ok(result) && v.advance(result) is Ok,
    ensures
        ({
            let w = v.advance(node(v.request()->Some_0)->Ok_0)->Ok_0;
            &&& sound(node, w)
            &&& w.members == v.members
            &&& w.contract == v.contract
            &&& forall|oracle: Seq<char>| #[trigger]
                v.members.contains(oracle) ==> expected(node, w, oracle) == expected(node, v, oracle)
        }),
{
    let result = node(v.request()->Some_0)->Ok_0;
    let w = v.advance(result)->Ok_0;
    match v.phase {
        ScanPhase::Transaction { hash } => {
            let hashes = seq![hash] + v.pending;
            assert(hashes.drop_first() =~= v.pending);
            let from = scan::sender(result);
            if result is Null || scan::receiver(result) != text::lower(v.contract) || !v.members.contains(from)
                || v.found.dom().contains(from) || scan::block_of(result) is None {
                lemma_next(node, v);
            } else {
                let number = scan::block_of(result)->Some_0;
                if v.block_times.dom().contains(number) {
                    let u = ScanView { found: v.found.insert(from, v.block_times[number]), ..v };
                    lemma_next(node, u);
                }
            }
        },
        ScanPhase::Block { oracle, number } => {
            if result is Null {
                lemma_next(node, v);
            } else {
                let ts = scan::block_time(result)->Ok_0;
                let u = ScanView {
                    found: v.found.insert(oracle, ts),
                    block_times: v.block_times.insert(number, ts),
                    ..v
                };
                lemma_next(node, u);
            }
        },
        _ => {},
    }
}

/// From any point on, a search that ends finds what is expected of it.
proof fn lemma_run(node: spec_fn(Json) -> Result<Json, RpcFault>, v: ScanView)
    requires
        sound(node, v),
        v.phase is Transaction || v.phase is Block || v.phase is Done,
        run(node, v) is Ok,
    ensures
        run(node, v)->Ok_0.dom().subset_of(v.members),
        forall|oracle: Seq<char>| #[trigger]
            v.members.contains(oracle) ==> state::lookup(run(node, v)->Ok_0, oracle) == expected(node, v, oracle),
    decreases stage(v), left(v),
{
    if v.phase is Done {
        assert forall|oracle: Seq<char>| #[trigger] v.members.contains(oracle) implies state::lookup(
            v.found,
            oracle,
        ) == expected(node, v, oracle) by {
            if v.found.dom().len() >= v.members.len() {
                lemma_all_found(v, oracle);
            }
        }
    } else {
        lemma_step(node, v);
        let w = v.advance(node(v.request()->Some_0)->Ok_0)->Ok_0;
        lemma_run(node, w);
    }
}

/// The logs that a search reads, where the node tells the latest block and the logs since the first block to search.
pub open spec fn logs_read(node: spec_fn(Json) -> Result<Json, RpcFault>, contract: Seq<char>) -> Option<Seq<Json>> {
    match node(rpc::block_number_request()) {
        Ok(Json::Text(t)) => match hex::hex_value(hex::without_0x(t)) {
            Ok(latest) => match node(rpc::logs_request(scan::first_block(latest), contract)) {
                Ok(Json::List(logs)) => Some(logs),
                _ => None,
            },
            Err(_) => None,
        },
        _ => None,
    }
}

/// A search that ends well finds the newest report of each member among the candidates, and nothing else: of a member
/// with no report among them, and of anyone who is no member, it finds none.
pub proof fn law_search_finds_newest_reports(
    node: spec_fn(Json) -> Result<Json, RpcFault>,
    members: Set<Seq<char>>,
    contract: Seq<char>,
)
    requires
        members.finite(),
        run(node, ScanView::start(members, contract)) is Ok,
    ensures
        logs_read(node, contract) is Some,
        ({
            let found = run(node, ScanView::start(members, contract))->Ok_0;
            let hashes = scan::candidates(logs_read(node, contract)->Some_0);
            forall|oracle: Seq<char>| #[trigger]
                state::lookup(found, oracle) == (if members.contains(oracle) {
                    first_report(node, contract, hashes, oracle)
                } else {
                    None
                })
        }),
{
    let v0 = ScanView::start(members, contract);
    let v1 = v0.advance(node(v0.request()->Some_0)->Ok_0)->Ok_0;
    assert(run(node, v1) is Ok);
    let logs = node(v1.request()->Some_0)->Ok_0->List_0;
    let v = ScanView { pending: scan::candidates(logs), ..v1 };
    let v2 = v.next_transaction();
    assert(v1.advance(node(v1.request()->Some_0)->Ok_0) == Ok::<ScanView, ScanError>(v2));
    lemma_next(node, v);
    lemma_run(node, v2);
    let found = run(node, v0)->Ok_0;
    assert(found == run(node, v2)->Ok_0);
    assert forall|oracle: Seq<char>| #[trigger] state::lookup(found, oracle) == (if members.contains(oracle) {
        first_report(node, contract, scan::candidates(logs), oracle)
    } else {
        None
    }) by {
        if members.contains(oracle) {
            assert(v2.members.contains(oracle));
        }
    }
}

/// The node answers the request for the block `number` as it should: it knows no such block, or tells its time.
pub open spec fn block_answered(node: spec_fn(Json) -> Result<Json, RpcFault>, number: Seq<char>) -> bool {
    node(rpc::block_request(number)) matches Ok(block) && (block is Null || scan::block_time(block) is Ok)
}

/// The node answers the request for the transaction `hash` as it should. Where the transaction goes to the contract, comes
/// from a member, and names a block, the node answers the request for that block too.
pub open spec fn transaction_answered(
    node: spec_fn(Json) -> Result<Json, RpcFault>,
    members: Set<Seq<char>>,
    contract: Seq<char>,
    hash: Seq<char>,
) -> bool {
    node(rpc::transaction_request(hash)) matches Ok(tx) && (!(tx is Null) && scan::receiver(tx) == text::lower(contract)
        && members.contains(scan::sender(tx)) ==> (scan::block_of(tx) matches Some(number) ==> block_answered(
        node,
        number,
    )))
}

/// The node answers what a search asks it as it should: it tells the latest block and the logs, and answers the requests
/// that the candidates among the transactions lead to.
pub open spec fn answers_well(
    node: spec_fn(Json) -> Result<Json, RpcFault>,
    members: Set<Seq<char>>,
    contract: Seq<char>,
) -> bool {
    &&& logs_read(node, contract) is Some
    &&& forall|i: int|
        0 <= i < scan::candidates(logs_read(node, contract)->Some_0).len() ==> transaction_answered(
            node,
            members,
            contract,
            #[trigger] scan::candidates(logs_read(node, contract)->Some_0)[i],
        )
}

proof fn lemma_run_succeeds(node: spec_fn(Json) -> Result<Json, RpcFault>, v: ScanView)
    requires
        forall|i: int|
            0 <= i < v.pending.len() ==> transaction_answered(node, v.members, v.contract, #[trigger] v.pending[i]),
        match v.phase {
            ScanPhase::Transaction { hash } => transaction_answered(node, v.members, v.contract, hash),
            ScanPhase::Block { oracle, number } => block_answered(node, number),
            ScanPhase::Done => true,
            _ => false,
        },
    ensures
        run(node, v) is Ok,
    decreases stage(v), left(v),
{
    match v.phase {
        ScanPhase::Transaction { hash } => {
            let tx = node(rpc::transaction_request(hash))->Ok_0;
            lemma_run_succeeds(node, v.with_transaction(tx));
        },
        ScanPhase::Block { oracle, number } => {
            let block = node(rpc::block_request(number))->Ok_0;
            lemma_run_succeeds(node, v.advance(block)->Ok_0);
        },
        _ => {},
    }
}

/// A search ends well wherever the node answers what the search asks as it should.
pub proof fn law_search_succeeds(
    node: spec_fn(Json) -> Result<Json, RpcFault>,
    members: Set<Seq<char>>,
    contract: Seq<char>,
)
    requires
        answers_well(node, members, contract),
    ensures
        run(node, ScanView::start(members, contract)) is Ok,
{
    let v0 = ScanView::start(members, contract);
    let v1 = v0.advance(node(v0.request()->Some_0)->Ok_0)->Ok_0;
    let v2 = v1.advance(node(v1.request()->Some_0)->Ok_0)->Ok_0;
    let hashes = scan::candidates(logs_read(node, contract)->Some_0);
    assert forall|i: int| 0 <= i < v2.pending.len() implies transaction_answered(
        node,
        members,
        contract,
        #[trigger] v2.pending[i],
    ) by {
        assert(v2.pending[i] == hashes[if v2.phase is Done { i } else { i + 1 }]);
    }
    lemma_run_succeeds(node, v2);
    assert(run(node, v1) is Ok);
}

/// `w` is at the same point as `v`, in a search for fewer members.
spec fn alongside(v: ScanView, w: ScanView) -> bool {
    &&& v.members.finite()
    &&& w.members.subset_of(v.members)
    &&& w.contract == v.contract
    &&& w.pending == v.pending
    &&& v.found.dom().subset_of(v.members)
    &&& w.found.dom().subset_of(w.members)
    &&& forall|oracle: Seq<char>|
        w.members.contains(oracle) ==> (#[trigger] w.found.dom().contains(oracle) <==> v.found.dom().contains(oracle))
}

/// A search for fewer members goes on to the next transaction only where the other one does.
proof fn lemma_alongside_next(v: ScanView, w: ScanView)
    requires
        alongside(v, w),
    ensures
        w.next_transaction().phase is Done || {
            &&& w.next_transaction().phase == v.next_transaction().phase
            &&& alongside(v.next_transaction(), w.next_transaction())
        },
{
    if v.found.dom().len() >= v.members.len() {
        assert(w.members.subset_of(w.found.dom())) by {
            assert forall|oracle: Seq<char>| w.members.contains(oracle) implies w.found.dom().contains(oracle) by {
                lemma_all_found(v, oracle);
            }
        }
        vstd::set_lib::lemma_len_subset(w.members, w.found.dom());
    }
}

/// Where a search ends well, one for fewer members does so too.
proof fn lemma_fewer_members(node: spec_fn(Json) -> Result<Json, RpcFault>, v: ScanView, w: ScanView)
    requires
        sound(node, v),
        sound(node, w),
        run(node, v) is Ok,
        w.phase is Done || (w.phase is Transaction && v.phase == w.phase && alongside(v, w)),
    ensures
        run(node, w) is Ok,
    decreases stage(w), left(w),
{
    if let ScanPhase::Transaction { hash } = w.phase {
        let tx = node(rpc::transaction_request(hash))->Ok_0;
        let v1 = v.with_transaction(tx);
        let w1 = w.with_transaction(tx);
        assert(run(node, v1) is Ok);
        lemma_step(node, v);
        lemma_step(node, w);
        let from = scan::sender(tx);
        if tx is Null || scan::receiver(tx) != text::lower(v.contract) || !v.members.contains(from)
            || v.found.dom().contains(from) || scan::block_of(tx) is None {
            lemma_alongside_next(v, w);
            lemma_fewer_members(node, v1, w1);
        } else {
            let number = scan::block_of(tx)->Some_0;
            let answer = node(rpc::block_request(number));
            let v2 = if v.block_times.dom().contains(number) {
                v1
            } else {
                assert(run(node, v1) is Ok && answer is Ok && v1.advance(answer->Ok_0) is Ok);
                lemma_step(node, v1);
                v1.advance(answer->Ok_0)->Ok_0
            };
            assert(run(node, v2) is Ok);
            assert(answer is Ok && (answer->Ok_0 is Null || scan::block_time(answer->Ok_0) is Ok));
            let known = |u: ScanView| if answer->Ok_0 is Null {
                u
            } else {
                ScanView { found: u.found.insert(from, scan::block_time(answer->Ok_0)->Ok_0), ..u }
            };
            if w1.phase is Block {
                lemma_step(node, w1);
                let w2 = w1.advance(answer->Ok_0)->Ok_0;
                lemma_alongside_next(known(v), known(w));
                lemma_fewer_members(node, v2, w2);
                assert(run(node, w1) is Ok);
            } else if w.members.contains(from) {
                lemma_alongside_next(known(v), known(w));
                lemma_fewer_members(node, v2, w1);
            } else {
                lemma_alongside_next(known(v), w);
                lemma_fewer_members(node, v2, w1);
            }
        }
    }
}

/// Where a search ends well, one for fewer members ends well too, and finds the same reports of its members.
pub proof fn law_fewer_members(
    node: spec_fn(Json) -> Result<Json, RpcFault>,
    members: Set<Seq<char>>,
    fewer: Set<Seq<char>>,
    contract: Seq<char>,
)
    requires
        members.finite(),
        fewer.subset_of(members),
        run(node, ScanView::start(members, contract)) is Ok,
    ensures
        run(node, ScanView::start(fewer, contract)) matches Ok(found) && found == run(
            node,
            ScanView::start(members, contract),
        )->Ok_0.restrict(fewer),
{
    let (v0, w0) = (ScanView::start(members, contract), ScanView::start(fewer, contract));
    let latest = node(v0.request()->Some_0)->Ok_0;
    let (v1, w1) = (v0.advance(latest)->Ok_0, w0.advance(latest)->Ok_0);
    assert(run(node, v1) is Ok);
    let logs = node(v1.request()->Some_0)->Ok_0;
    let (v2, w2) = (v1.advance(logs)->Ok_0, w1.advance(logs)->Ok_0);
    assert(run(node, v2) is Ok);
    vstd::set_lib::lemma_set_subset_finite(members, fewer);
    let pending = scan::candidates(logs->List_0);
    let (v, w) = (ScanView { pending, ..v1 }, ScanView { pending, ..w1 });
    lemma_next(node, v);
    lemma_next(node, w);
    lemma_alongside_next(v, w);
    lemma_fewer_members(node, v2, w2);
    assert(run(node, w1) is Ok);
    law_search_finds_newest_reports(node, members, contract);
    law_search_finds_newest_reports(node, fewer, contract);
    let (all, some) = (run(node, v0)->Ok_0, run(node, w0)->Ok_0);
    assert forall|oracle: Seq<char>| some.dom().contains(oracle) <==> all.restrict(fewer).dom().contains(oracle) by {
        assert(state::lookup(some, oracle) is Some <==> some.dom().contains(oracle));
        assert(state::lookup(all, oracle) is Some <==> all.dom().contains(oracle));
    }
    assert forall|oracle: Seq<char>| some.dom().contains(oracle) implies some[oracle] == all[oracle] by {
        assert(state::lookup(some, oracle) == state::lookup(all, oracle));
    }
    assert(some =~= all.restrict(fewer));
}

proof fn lemma_requests(node: spec_fn(Json) -> Result<Json, RpcFault>, v: ScanView)
    requires
        v.phase is Transaction || v.phase is Block || v.phase is Done,
    ensures
        requests(node, v) <= left(v),
    decreases stage(v), left(v),
{
    if let Some(request) = v.request() {
        if let Ok(result) = node(request) {
            if let Ok(w) = v.advance(result) {
                lemma_requests(node, w);
            }
        }
    }
}

/// A search makes no more requests than one for the latest block, one for the logs, and two for each of the
/// transactions that it looks up at most: whatever the node answers, it comes to an end.
pub proof fn law_search_requests(
    node: spec_fn(Json) -> Result<Json, RpcFault>,
    members: Set<Seq<char>>,
    contract: Seq<char>,
)
    ensures
        requests(node, ScanView::start(members, contract)) <= 2 + 2 * MAX_TX_TO_CHECK,
{
    let v0 = ScanView::start(members, contract);
    if let Ok(r0) = node(v0.request()->Some_0) {
        if let Ok(v1) = v0.advance(r0) {
            if let Ok(r1) = node(v1.request()->Some_0) {
                if let Ok(v2) = v1.advance(r1) {
                    lemma_requests(node, v2);
                    assert(requests(node, v1) == 1 + requests(node, v2));
                }
            }
            assert(requests(node, v0) == 1 + requests(node, v1));
        }
    }
}

/// The first block to search is as many blocks before the latest one as a poll looks back, or else the first of all.
pub proof fn law_search_window(latest: u64)
    ensures
        hex::hex_value(hex::without_0x(scan::first_block(latest))) == Ok::<u64, hex::HexError>(
            if latest >= LOG_BLOCK_WINDOW {
                (latest - LOG_BLOCK_WINDOW) as u64
            } else {
                0
            },
        ),
{
    hex::law_hex_round_trip(
        if latest >= LOG_BLOCK_WINDOW {
            (latest - LOG_BLOCK_WINDOW) as u64
        } else {
            0
        },
    );
}

/// What holds of a search at any time. Reports are found of members alone. No transaction is asked for twice. No block is
/// asked for of which the time is known, or for the sake of anyone but a member of whom no report is found.
pub open spec fn consistent(v: ScanView) -> bool {
    &&& v.found.dom().subset_of(v.members)
    &&& v.pending.no_duplicates()
    &&& match v.phase {
        ScanPhase::Transaction { hash } => !v.pending.contains(hash),
        ScanPhase::Block { oracle, number } => v.members.contains(oracle) && !v.found.dom().contains(oracle)
            && !v.block_times.dom().contains(number),
        _ => true,
    }
}

/// A search begins consistent, and stays so whatever the node answers. It keeps its members and its contract, and loses
/// nothing of what it has found.
pub proof fn law_search_stays_consistent(v: ScanView, result: Json)
    ensures
        consistent(ScanView::start(v.members, v.contract)),
        consistent(v) && v.advance(result) is Ok ==> {
            let w = v.advance(result)->Ok_0;
            &&& consistent(w)
            &&& w.members == v.members
            &&& w.contract == v.contract
            &&& v.found.submap_of(w.found)
            &&& v.block_times.submap_of(w.block_times)
        },
{
    if consistent(v) && v.advance(result) is Ok {
        let w = v.advance(result)->Ok_0;
        if let ScanPhase::Logs { from_block } = v.phase {
            law_candidates(result->List_0);
            lemma_first_not_pending(scan::candidates(result->List_0));
        }
        lemma_first_not_pending(v.pending);
    }
}

proof fn lemma_first_not_pending(pending: Seq<Seq<char>>)
    requires
        pending.no_duplicates(),
    ensures
        pending.len() > 0 ==> pending.drop_first().no_duplicates() && !pending.drop_first().contains(pending[0]),
{
    if pending.len() > 0 {
        let rest = pending.drop_first();
        assert forall|i: int| 0 <= i < rest.len() implies rest[i] != pending[0] by {
            assert(rest[i] == pending[i + 1]);
        }
    }
}

/// Where the newest of `logs` stands that the transaction `hash` wrote, or -1 where it wrote none.
pub open spec fn newest_log(logs: Seq<Json>, hash: Seq<char>) -> int
    decreases logs.len(),
{
    if logs.len() == 0 {
        -1
    } else {
        let later = newest_log(logs.drop_first(), hash);
        if later >= 0 {
            later + 1
        } else if scan::log_hash(logs[0]) == Some(hash) {
            0
        } else {
            -1
        }
    }
}

/// The transactions to look up stand in the order of their newest logs, the newest first. They are different, and there are
/// no more of them than are looked up at most. Each wrote one of the logs; where fewer are looked up than could be, each
/// transaction that wrote a log is among them.
pub proof fn law_candidates(logs: Seq<Json>)
    ensures
        scan::candidates(logs).no_duplicates(),
        scan::candidates(logs).len() <= MAX_TX_TO_CHECK,
        forall|hash: Seq<char>| #[trigger]
            scan::candidates(logs).contains(hash) ==> newest_log(logs, hash) >= 0,
        forall|a: int, b: int|
            0 <= a < b < scan::candidates(logs).len() ==> newest_log(logs, #[trigger] scan::candidates(logs)[a])
                > newest_log(logs, #[trigger] scan::candidates(logs)[b]),
        scan::candidates(logs).len() < MAX_TX_TO_CHECK ==> forall|i: int|
            0 <= i < logs.len() && scan::log_hash(#[trigger] logs[i]) is Some ==> scan::candidates(logs).contains(
                scan::log_hash(logs[i])->Some_0,
            ),
{
    lemma_hashes(logs);
    let (hashes, all) = (scan::candidates(logs), scan::hashes_newest_first(logs));
    assert forall|hash: Seq<char>| #[trigger] hashes.contains(hash) implies newest_log(logs, hash) >= 0 by {
        let k = choose|k: int| 0 <= k < hashes.len() && hashes[k] == hash;
        assert(all[k] == hash);
    }
    assert forall|a: int, b: int| 0 <= a < b < hashes.len() implies newest_log(logs, #[trigger] hashes[a])
        > newest_log(logs, #[trigger] hashes[b]) by {
        assert(all[a] == hashes[a] && all[b] == hashes[b]);
    }
}

/// A transaction that wrote a log is passed over only where 300 others with newer logs are looked up.
pub proof fn law_candidates_are_newest(logs: Seq<Json>, hash: Seq<char>)
    requires
        newest_log(logs, hash) >= 0,
        !scan::candidates(logs).contains(hash),
    ensures
        scan::candidates(logs).len() == 300,
        forall|k: int|
            0 <= k < scan::candidates(logs).len() ==> newest_log(logs, #[trigger] scan::candidates(logs)[k]) > newest_log(
                logs,
                hash,
            ),
{
    lemma_hashes(logs);
    let (hashes, all) = (scan::candidates(logs), scan::hashes_newest_first(logs));
    assert(all.contains(hash));
    let n = choose|n: int| 0 <= n < all.len() && all[n] == hash;
    assert(n >= hashes.len()) by {
        if n < hashes.len() {
            assert(hashes[n] == hash);
        }
    }
    assert forall|k: int| 0 <= k < hashes.len() implies newest_log(logs, #[trigger] hashes[k]) > newest_log(logs, hash) by {
        assert(all[k] == hashes[k]);
        assert(newest_log(logs, all[k]) > newest_log(logs, all[n]));
    }
}

proof fn lemma_log_without_effect(logs: Seq<Json>, i: int)
    requires
        0 <= i < logs.len(),
        scan::log_hash(logs[i]) matches Some(hash) ==> newest_log(logs, hash) > i,
    ensures
        scan::hashes_newest_first(logs.remove(i)) == scan::hashes_newest_first(logs),
    decreases logs.len(),
{
    let rest = logs.drop_first();
    if i == 0 {
        assert(logs.remove(0) =~= rest);
        if let Some(hash) = scan::log_hash(logs[0]) {
            lemma_hashes(rest);
            assert(newest_log(rest, hash) >= 0);
        }
    } else {
        assert(rest[i - 1] == logs[i]);
        lemma_log_without_effect(rest, i - 1);
        assert(logs.remove(i).drop_first() =~= rest.remove(i - 1));
        assert(logs.remove(i)[0] == logs[0]);
    }
}

/// A log that names no transaction has no effect on which transactions are looked up, nor has one that is followed by
/// another log of the same transaction.
pub proof fn law_log_without_effect(logs: Seq<Json>, i: int)
    requires
        0 <= i < logs.len(),
        scan::log_hash(logs[i]) matches Some(hash) ==> newest_log(logs, hash) > i,
    ensures
        scan::candidates(logs.remove(i)) == scan::candidates(logs),
{
    lemma_log_without_effect(logs, i);
}

proof fn lemma_hashes(logs: Seq<Json>)
    ensures
        scan::hashes_newest_first(logs).no_duplicates(),
        forall|hash: Seq<char>|
            #![trigger scan::hashes_newest_first(logs).contains(hash)]
            #![trigger newest_log(logs, hash)]
            scan::hashes_newest_first(logs).contains(hash) <==> newest_log(logs, hash) >= 0,
        forall|a: int, b: int|
            0 <= a < b < scan::hashes_newest_first(logs).len() ==> newest_log(
                logs,
                #[trigger] scan::hashes_newest_first(logs)[a],
            ) > newest_log(logs, #[trigger] scan::hashes_newest_first(logs)[b]),
        forall|i: int|
            0 <= i < logs.len() && scan::log_hash(#[trigger] logs[i]) is Some ==> scan::hashes_newest_first(
                logs,
            ).contains(scan::log_hash(logs[i])->Some_0),
    decreases logs.len(),
{
    if logs.len() > 0 {
        let rest = logs.drop_first();
        let newer = scan::hashes_newest_first(rest);
        let all = scan::hashes_newest_first(logs);
        lemma_hashes(rest);
        assert forall|hash: Seq<char>| all.contains(hash) <==> newest_log(logs, hash) >= 0 by {
            if newer.contains(hash) {
                let k = choose|k: int| 0 <= k < newer.len() && newer[k] == hash;
                assert(all[k] == hash);
            } else if scan::log_hash(logs[0]) == Some(hash) {
                assert(all[newer.len() as int] == hash);
            }
        }
        assert forall|a: int, b: int| 0 <= a < b < all.len() implies newest_log(logs, #[trigger] all[a])
            > newest_log(logs, #[trigger] all[b]) by {
            assert(newer.contains(newer[a]));
            if b < newer.len() {
                assert(newer.contains(newer[b]));
            }
        }
        assert forall|i: int| 0 <= i < logs.len() && scan::log_hash(#[trigger] logs[i]) is Some implies all.contains(
            scan::log_hash(logs[i])->Some_0,
        ) by {
            let hash = scan::log_hash(logs[i])->Some_0;
            if i > 0 {
                assert(rest[i - 1] == logs[i]);
                assert(newest_log(rest, hash) >= 0);
            }
        }
    } else {
        assert forall|hash: Seq<char>| !scan::hashes_newest_first(logs).contains(hash) by {}
    }
}

} // verus!
