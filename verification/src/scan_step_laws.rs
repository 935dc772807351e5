//! What each step of a search makes of a result of the node.
use vstd::prelude::*;

use crate::hex;
use crate::hex::HexError;
use crate::json::Json;
use crate::rpc;
use crate::rpc_laws;
use crate::scan;
use crate::scan::{ScanError, ScanPhase, ScanView};
use crate::text;
use crate::text_laws;

verus! {

/// A block that exists has the time that the string under `timestamp` writes, whatever else it holds. Where no string stands
/// there, the block has no time; where the string is no number, that is the error.
pub proof fn law_block_time(block: Json)
    ensures
        rpc_laws::text_under(block, "timestamp"@) is None ==> scan::block_time(block) == Err::<u64, ScanError>(
            ScanError::NoTimestamp,
        ),
        rpc_laws::text_under(block, "timestamp"@) matches Some(t) ==> match hex::hex_value(hex::without_0x(t)) {
            Ok(n) => scan::block_time(block) == Ok::<u64, ScanError>(n),
            Err(e) => scan::block_time(block) == Err::<u64, ScanError>(ScanError::Timestamp(e)),
        },
{
}

/// Another member of a block changes nothing of its time.
pub proof fn law_block_time_alone(block: Map<Seq<char>, Json>, key: Seq<char>, value: Json)
    requires
        key != "timestamp"@,
    ensures
        scan::block_time(Json::Object(block.insert(key, value))) == scan::block_time(Json::Object(block)),
        scan::block_time(Json::Object(block.remove(key))) == scan::block_time(Json::Object(block)),
{
}

/// The text under `key`, or nothing where there is none.
pub open spec fn text_or_none(value: Json, key: Seq<char>) -> Seq<char> {
    match rpc_laws::text_under(value, key) {
        Some(t) => t,
        None => seq![],
    }
}

/// A transaction is sent by what stands under `from` and goes to what stands under `to`, both in small letters, and is held
/// by the block that stands under `blockNumber`, as it stands there. A log is that of the transaction under
/// `transactionHash`.
pub proof fn law_transaction(tx: Json)
    ensures
        scan::sender(tx) == text::lower(text_or_none(tx, "from"@)),
        scan::receiver(tx) == text::lower(text_or_none(tx, "to"@)),
        scan::block_of(tx) == rpc_laws::text_under(tx, "blockNumber"@),
        scan::log_hash(tx) == rpc_laws::text_under(tx, "transactionHash"@),
{
}

/// The first block to search is written with `0x` in base sixteen, without leading zeros, and lies 100000 blocks before the
/// latest one, or is the very first.
pub proof fn law_first_block(latest: u64)
    ensures
        ({
            let written = scan::first_block(latest);
            let digits = written.skip(2);
            &&& written.len() > 2
            &&& written[0] == '0'
            &&& written[1] == 'x'
            &&& text_laws::meaning(digits, 16) == (if latest >= 100_000 {
                latest - 100_000
            } else {
                0
            })
            &&& digits[0] == '0' ==> digits.len() == 1
            &&& forall|i: int|
                0 <= i < digits.len() ==> 48 <= #[trigger] digits[i] as int <= 57 || 97 <= digits[i] as int <= 102
        }),
{
    let n: nat = if latest >= 100_000 {
        (latest - 100_000) as nat
    } else {
        0
    };
    text_laws::law_numeral(n, 16);
    let digits = text::numeral(n, 16);
    assert(scan::first_block(latest).skip(2) =~= digits);
    assert forall|i: int| 0 <= i < digits.len() implies 48 <= #[trigger] digits[i] as int <= 57 || 97 <= digits[i] as int
        <= 102 by {
        assert(text_laws::digit_meaning(digits[i]) < 16);
    }
}

/// A search begins with its members and its contract, having found nothing, and waits for the latest block.
pub proof fn law_start(members: Set<Seq<char>>, contract: Seq<char>)
    ensures
        ({
            let v = ScanView::start(members, contract);
            &&& v.members == members
            &&& v.contract == contract
            &&& v.phase is BlockNumber
            &&& v.pending.len() == 0
            &&& v.found.dom() == Set::<Seq<char>>::empty()
            &&& v.block_times.dom() == Set::<Seq<char>>::empty()
        }),
{
}

/// A search asks for what it waits for, and for the logs of its contract.
pub proof fn law_request(v: ScanView)
    ensures
        v.phase is BlockNumber ==> v.request() == Some(rpc::block_number_request()),
        v.phase matches ScanPhase::Logs { from_block } ==> v.request() == Some(rpc::logs_request(from_block, v.contract)),
        v.phase matches ScanPhase::Transaction { hash } ==> v.request() == Some(rpc::transaction_request(hash)),
        v.phase matches ScanPhase::Block { oracle, number } ==> v.request() == Some(rpc::block_request(number)),
        v.phase is Done ==> v.request() is None,
{
}

/// `w` is a search that has found `found`, knows the times `times` of blocks, and turns from `pending` to what is next: it is
/// over where reports of as many oracles are found as there are members, or where nothing is pending, and else waits for the
/// first of the pending transactions.
pub open spec fn turned(
    v: ScanView,
    pending: Seq<Seq<char>>,
    found: Map<Seq<char>, u64>,
    times: Map<Seq<char>, u64>,
    w: ScanView,
) -> bool {
    &&& w.members == v.members
    &&& w.contract == v.contract
    &&& w.found == found
    &&& w.block_times == times
    &&& if found.dom().len() >= v.members.len() || pending.len() == 0 {
        w.phase is Done && w.pending == pending
    } else {
        w.phase == (ScanPhase::Transaction { hash: pending[0] }) && seq![pending[0]] + w.pending == pending
    }
}

proof fn lemma_next_turned(v: ScanView)
    ensures
        turned(v, v.pending, v.found, v.block_times, v.next_transaction()),
{
    if v.pending.len() > 0 {
        assert(seq![v.pending[0]] + v.pending.drop_first() =~= v.pending);
    }
}

/// A search that waits for the latest block takes its number from a string, and then waits for the logs from the first block
/// to search on. Anything else is an error.
pub proof fn law_latest_block(v: ScanView, result: Json)
    requires
        v.phase is BlockNumber,
    ensures
        !(result is Text) ==> v.advance(result) == Err::<ScanView, ScanError>(ScanError::BlockNumberNotText),
        result matches Json::Text(t) ==> match hex::hex_value(hex::without_0x(t)) {
            Err(e) => v.advance(result) == Err::<ScanView, ScanError>(ScanError::BlockNumber(e)),
            Ok(latest) => v.advance(result) == Ok::<ScanView, ScanError>(
                (ScanView { phase: ScanPhase::Logs { from_block: scan::first_block(latest) }, ..v }),
            ),
        },
{
}

/// A search that waits for the logs takes a list, and turns to the candidates among the transactions that wrote them.
/// Anything else is an error.
pub proof fn law_logs(v: ScanView, result: Json)
    requires
        v.phase is Logs,
    ensures
        !(result is List) ==> v.advance(result) == Err::<ScanView, ScanError>(ScanError::LogsNotList),
        result matches Json::List(logs) ==> (v.advance(result) matches Ok(w) && turned(
            v,
            scan::candidates(logs),
            v.found,
            v.block_times,
            w,
        )),
{
    if let Json::List(logs) = result {
        lemma_next_turned(ScanView { pending: scan::candidates(logs), ..v });
    }
}

/// `tx` is a report that counts: it goes to the contract, comes from a member of which none is found, and names its block.
pub open spec fn counts(v: ScanView, tx: Json) -> bool {
    &&& !(tx is Null)
    &&& text::lower(text_or_none(tx, "to"@)) == text::lower(v.contract)
    &&& v.members.contains(text::lower(text_or_none(tx, "from"@)))
    &&& !v.found.dom().contains(text::lower(text_or_none(tx, "from"@)))
    &&& rpc_laws::text_under(tx, "blockNumber"@) is Some
}

/// A search that waits for a transaction passes over one that does not count. Of one that does, the report has the time of
/// its block, which is asked for where it is not known.
pub proof fn law_transaction_step(v: ScanView, tx: Json)
    requires
        v.phase is Transaction,
    ensures
        v.advance(tx) is Ok,
        ({
            let w = v.advance(tx)->Ok_0;
            let oracle = text::lower(text_or_none(tx, "from"@));
            let number = rpc_laws::text_under(tx, "blockNumber"@)->Some_0;
            if !counts(v, tx) {
                turned(v, v.pending, v.found, v.block_times, w)
            } else if v.block_times.dom().contains(number) {
                turned(v, v.pending, v.found.insert(oracle, v.block_times[number]), v.block_times, w)
            } else {
                w == (ScanView { phase: ScanPhase::Block { oracle, number }, ..v })
            }
        }),
{
    law_transaction(tx);
    lemma_next_turned(v);
    let oracle = text::lower(text_or_none(tx, "from"@));
    let number = rpc_laws::text_under(tx, "blockNumber"@)->Some_0;
    if counts(v, tx) && v.block_times.dom().contains(number) {
        lemma_next_turned(ScanView { found: v.found.insert(oracle, v.block_times[number]), ..v });
    }
}

/// A search that waits for the block of a report passes over a report of which the node does not know the block. Else the
/// report has the time under `timestamp` in the block, and that time is remembered. A block without a time that can be read
/// is an error.
pub proof fn law_block_step(v: ScanView, oracle: Seq<char>, number: Seq<char>, block: Json)
    requires
        v.phase == (ScanPhase::Block { oracle, number }),
    ensures
        block is Null ==> (v.advance(block) matches Ok(w) && turned(v, v.pending, v.found, v.block_times, w)),
        !(block is Null) && rpc_laws::text_under(block, "timestamp"@) is None ==> v.advance(block) == Err::<
            ScanView,
            ScanError,
        >(ScanError::NoTimestamp),
        rpc_laws::text_under(block, "timestamp"@) matches Some(t) ==> match hex::hex_value(hex::without_0x(t)) {
            Err(e) => v.advance(block) == Err::<ScanView, ScanError>(ScanError::Timestamp(e)),
            Ok(ts) => v.advance(block) matches Ok(w) && turned(
                v,
                v.pending,
                v.found.insert(oracle, ts),
                v.block_times.insert(number, ts),
                w,
            ),
        },
{
    lemma_next_turned(v);
    if let Ok(ts) = scan::block_time(block) {
        lemma_next_turned(
            ScanView { found: v.found.insert(oracle, ts), block_times: v.block_times.insert(number, ts), ..v },
        );
    }
}

/// A search that is over stays as it is.
pub proof fn law_over(v: ScanView, result: Json)
    requires
        v.phase is Done,
    ensures
        v.advance(result) == Ok::<ScanView, ScanError>(v),
{
}

/// The messages of the errors end with the messages of their causes.
pub proof fn law_messages(e: HexError)
    ensures
        ScanError::BlockNumber(e).text() == "invalid hex u64: "@ + e.text(),
        ScanError::Timestamp(e).text() == "invalid hex u64: "@ + e.text(),
        HexError::Empty.text() == "cannot parse integer from empty string"@,
        HexError::InvalidDigit.text() == "invalid digit found in string"@,
        HexError::Overflow.text() == "number too large to fit in target type"@,
{
}

} // verus!
