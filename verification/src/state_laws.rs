//! What the state says of the oracles and of the polls.
use vstd::prelude::*;

use crate::state;
use crate::state::{MonitorState, OracleMetrics, StateView};

verus! {

/// Of an oracle with a report, the time of the report is known as it is, and its age: the two add up to the time at which
/// that is said, and a report of a later time has no age. Of one without a report nothing is known.
pub proof fn law_age(now: u64, ts: u64)
    ensures
        OracleMetrics::at(now, Some(ts)).last_report_ts == Some(ts),
        OracleMetrics::at(now, Some(ts)).time_since_last_report_secs is Some,
        ts <= now ==> OracleMetrics::at(now, Some(ts)).time_since_last_report_secs->Some_0 + ts == now,
        ts > now ==> OracleMetrics::at(now, Some(ts)).time_since_last_report_secs == Some(0u64),
        OracleMetrics::at(now, None).last_report_ts is None,
        OracleMetrics::at(now, None).time_since_last_report_secs is None,
        OracleMetrics::unknown().last_report_ts is None,
        OracleMetrics::unknown().time_since_last_report_secs is None,
{
}

/// The oracles are the members, and no one else. The report of each is that which was found of it, if one was.
pub proof fn law_oracles(now: u64, members: Set<Seq<char>>, reports: Map<Seq<char>, u64>, oracle: Seq<char>)
    ensures
        ({
            let oracles = state::oracles_at(now, members, reports);
            &&& oracles.dom().contains(oracle) <==> members.contains(oracle)
            &&& members.contains(oracle) && reports.dom().contains(oracle) ==> {
                &&& oracles[oracle].last_report_ts == Some(reports[oracle])
                &&& oracles[oracle].time_since_last_report_secs is Some
                &&& reports[oracle] <= now ==> oracles[oracle].time_since_last_report_secs->Some_0 + reports[oracle] == now
                &&& reports[oracle] > now ==> oracles[oracle].time_since_last_report_secs == Some(0u64)
            }
            &&& members.contains(oracle) && !reports.dom().contains(oracle) ==> {
                &&& oracles[oracle].last_report_ts is None
                &&& oracles[oracle].time_since_last_report_secs is None
            }
        }),
{
}

/// What is looked up in a map is what stands under the key, if anything does.
pub proof fn law_lookup<V>(map: Map<Seq<char>, V>, key: Seq<char>)
    ensures
        map.dom().contains(key) ==> state::lookup(map, key) == Some(map[key]),
        !map.dom().contains(key) ==> state::lookup(map, key) is None,
{
}

/// A poll that succeeds is known by its time and as a success, with the oracles that it found. One that fails is known as a
/// failure, by its time if there is one, and leaves the oracles as they were. At first there are no oracles, and no success.
pub proof fn law_polls(before: StateView, now: u64, oracles: Map<Seq<char>, OracleMetrics>)
    ensures
        StateView::initial().per_oracle.dom() == Set::<Seq<char>>::empty(),
        StateView::initial().last_check_ts == 0,
        !StateView::initial().last_check_ok,
        StateView::succeeded(now, oracles).per_oracle == oracles,
        StateView::succeeded(now, oracles).last_check_ts == now,
        StateView::succeeded(now, oracles).last_check_ok,
        before.failed(Some(now)).per_oracle == before.per_oracle,
        before.failed(Some(now)).last_check_ts == now,
        !before.failed(Some(now)).last_check_ok,
        before.failed(None).per_oracle == before.per_oracle,
        before.failed(None).last_check_ts == before.last_check_ts,
        !before.failed(None).last_check_ok,
{
}

/// The view of a state holds what the state does.
pub proof fn law_view(state: MonitorState)
    ensures
        state@.per_oracle == state.per_oracle@,
        state@.last_check_ts == state.last_check_ts,
        state@.last_check_ok == state.last_check_ok,
{
}

} // verus!
