//! What the endpoints answer.
use vstd::prelude::*;
use vstd::string::*;

use crate::state::{MonitorState, OracleMetrics, StateView};
use crate::table;
use crate::text;

verus! {

/// A sample line: `before`, the oracle, and its value.
pub open spec fn sample(before: Seq<char>, oracle: Seq<char>, value: nat) -> Seq<char> {
    before + oracle + "\"} "@ + text::numeral(value, 10) + "\n"@
}

/// The three samples of one oracle.
pub open spec fn oracle_samples(oracle: Seq<char>, metrics: OracleMetrics) -> Seq<char> {
    sample(
        "oracle_report_present{oracle_address=\""@,
        oracle,
        if metrics.last_report_ts is Some {
            1
        } else {
            0
        },
    ) + sample(
        "oracle_last_report_timestamp_seconds{oracle_address=\""@,
        oracle,
        match metrics.last_report_ts {
            Some(ts) => ts as nat,
            None => 0,
        },
    ) + sample(
        "oracle_time_since_last_report_seconds{oracle_address=\""@,
        oracle,
        match metrics.time_since_last_report_secs {
            Some(secs) => secs as nat,
            None => 0,
        },
    )
}

/// The samples of `oracles`, one after the other.
pub open spec fn all_samples(oracles: Seq<Seq<char>>, metrics: Map<Seq<char>, OracleMetrics>) -> Seq<char>
    decreases oracles.len(),
{
    if oracles.len() == 0 {
        seq![]
    } else {
        all_samples(oracles.drop_last(), metrics) + oracle_samples(oracles.last(), metrics[oracles.last()])
    }
}

/// The lines before the samples of the oracles.
pub open spec fn metrics_head(oracles: nat, last_check_ts: u64, last_check_ok: bool) -> Seq<char> {
    "# HELP oracle_last_check_success 1 if last chain check succeeded, else 0\n"@
        + "# TYPE oracle_last_check_success gauge\n"@ + "oracle_last_check_success "@ + text::numeral(
        if last_check_ok {
            1
        } else {
            0
        },
        10,
    ) + "\n"@ + "# HELP oracle_last_check_timestamp_seconds Unix timestamp of last poll attempt\n"@
        + "# TYPE oracle_last_check_timestamp_seconds gauge\n"@ + "oracle_last_check_timestamp_seconds "@ + text::numeral(
        last_check_ts as nat,
        10,
    ) + "\n"@
        + "# HELP oracle_allowlist_size Number of oracle addresses in latest on-chain allowlist snapshot\n"@
        + "# TYPE oracle_allowlist_size gauge\n"@ + "oracle_allowlist_size "@ + text::numeral(oracles, 10) + "\n"@
        + "# HELP oracle_report_present 1 if report was found for oracle in current scan window\n"@
        + "# TYPE oracle_report_present gauge\n"@
        + "# HELP oracle_last_report_timestamp_seconds Unix timestamp of latest matched report tx per oracle\n"@
        + "# TYPE oracle_last_report_timestamp_seconds gauge\n"@
        + "# HELP oracle_time_since_last_report_seconds Seconds elapsed since latest matched report tx per oracle\n"@
        + "# TYPE oracle_time_since_last_report_seconds gauge\n"@
}

/// The metrics of a state in the text format of Prometheus.
pub open spec fn metrics_text(state: StateView) -> Seq<char> {
    metrics_head(state.per_oracle.dom().len(), state.last_check_ts, state.last_check_ok) + all_samples(
        table::in_order(state.per_oracle.dom()),
        state.per_oracle,
    )
}

/// Appends a sample line.
fn push_sample(body: &mut String, before: &str, oracle: &str, value: u64)
    ensures
        final(body)@ == old(body)@ + sample(before@, oracle@, value as nat),
{
    body.append(before);
    body.append(oracle);
    body.append("\"} ");
    text::push_numeral(body, value, 10);
    body.append("\n");
}

/// Writes the metrics of a state in the text format of Prometheus. The samples stand in the order of the oracles.
pub fn render_metrics(snapshot: &MonitorState) -> (body: String)
    ensures
        body@ == metrics_text(snapshot@),
{
    let mut body = String::new();
    body.append("# HELP oracle_last_check_success 1 if last chain check succeeded, else 0\n");
    body.append("# TYPE oracle_last_check_success gauge\n");
    body.append("oracle_last_check_success ");
    text::push_numeral(
        &mut body,
        if snapshot.last_check_ok {
            1
        } else {
            0
        },
        10,
    );
    body.append("\n");
    body.append("# HELP oracle_last_check_timestamp_seconds Unix timestamp of last poll attempt\n");
    body.append("# TYPE oracle_last_check_timestamp_seconds gauge\n");
    body.append("oracle_last_check_timestamp_seconds ");
    text::push_numeral(&mut body, snapshot.last_check_ts, 10);
    body.append("\n");
    body.append("# HELP oracle_allowlist_size Number of oracle addresses in latest on-chain allowlist snapshot\n");
    body.append("# TYPE oracle_allowlist_size gauge\n");
    body.append("oracle_allowlist_size ");
    text::push_numeral(&mut body, snapshot.per_oracle.len() as u64, 10);
    body.append("\n");
    body.append("# HELP oracle_report_present 1 if report was found for oracle in current scan window\n");
    body.append("# TYPE oracle_report_present gauge\n");
    body.append("# HELP oracle_last_report_timestamp_seconds Unix timestamp of latest matched report tx per oracle\n");
    body.append("# TYPE oracle_last_report_timestamp_seconds gauge\n");
    body.append("# HELP oracle_time_since_last_report_seconds Seconds elapsed since latest matched report tx per oracle\n");
    body.append("# TYPE oracle_time_since_last_report_seconds gauge\n");
    let ghost head = metrics_head(
        snapshot.per_oracle@.dom().len(),
        snapshot.last_check_ts,
        snapshot.last_check_ok,
    );
    assert(body@ =~= head);
    let ghost metrics = snapshot.per_oracle@;
    let ghost names = table::in_order(metrics.dom());
    let n: usize = snapshot.per_oracle.len();
    let mut i: usize = 0;
    assert(body@ =~= head + all_samples(names.take(0), metrics));
    while i < n
        invariant
            i <= n,
            n == metrics.dom().len(),
            n == names.len(),
            metrics == snapshot.per_oracle@,
            names == table::in_order(metrics.dom()),
            body@ == head + all_samples(names.take(i as int), metrics),
        decreases n - i,
    {
        let (oracle, known) = snapshot.per_oracle.entry(i);
        let present: u64 = if known.last_report_ts.is_some() {
            1
        } else {
            0
        };
        let last_ts: u64 = match known.last_report_ts {
            Some(ts) => ts,
            None => 0,
        };
        let age: u64 = match known.time_since_last_report_secs {
            Some(secs) => secs,
            None => 0,
        };
        let ghost before = body@;
        push_sample(&mut body, "oracle_report_present{oracle_address=\"", oracle, present);
        push_sample(&mut body, "oracle_last_report_timestamp_seconds{oracle_address=\"", oracle, last_ts);
        push_sample(&mut body, "oracle_time_since_last_report_seconds{oracle_address=\"", oracle, age);
        proof {
            assert(names.take(i + 1).drop_last() == names.take(i as int));
            assert(names.take(i + 1).last() == oracle@);
            assert(body@ =~= before + oracle_samples(oracle@, *known));
            assert(body@ =~= head + all_samples(names.take(i + 1), metrics));
        }
        i += 1;
    }
    assert(names.take(i as int) == names);
    body
}

/// What the health endpoint answers: a status code and a text.
pub open spec fn health_answer(state: StateView) -> (u16, Seq<char>) {
    if state.last_check_ok {
        (200, "ok"@)
    } else {
        (503, "last check failed"@)
    }
}

/// What the health endpoint answers: a status code and a text.
pub fn health(snapshot: &MonitorState) -> (answer: (u16, &'static str))
    ensures
        (answer.0, answer.1@) == health_answer(snapshot@),
{
    if snapshot.last_check_ok {
        (200, "ok")
    } else {
        (503, "last check failed")
    }
}

proof fn lemma_samples(oracles: Seq<Seq<char>>, metrics: Map<Seq<char>, OracleMetrics>, i: int) -> (parts: (
    Seq<char>,
    Seq<char>,
))
    requires
        0 <= i < oracles.len(),
    ensures
        all_samples(oracles, metrics) == parts.0 + oracle_samples(oracles[i], metrics[oracles[i]]) + parts.1,
    decreases oracles.len(),
{
    let last = oracle_samples(oracles.last(), metrics[oracles.last()]);
    if i == oracles.len() - 1 {
        let parts = (all_samples(oracles.drop_last(), metrics), seq![]);
        assert(all_samples(oracles, metrics) =~= parts.0 + oracle_samples(oracles[i], metrics[oracles[i]]) + parts.1);
        parts
    } else {
        let before = lemma_samples(oracles.drop_last(), metrics, i);
        let parts = (before.0, before.1 + last);
        assert(all_samples(oracles, metrics) =~= parts.0 + oracle_samples(oracles[i], metrics[oracles[i]]) + parts.1);
        parts
    }
}

/// The metrics show the samples of each oracle.
pub proof fn law_each_oracle_is_shown(state: StateView, oracle: Seq<char>)
    requires
        state.per_oracle.dom().finite(),
        state.per_oracle.dom().contains(oracle),
    ensures
        exists|before: Seq<char>, after: Seq<char>|
            metrics_text(state) == #[trigger] (before + oracle_samples(oracle, state.per_oracle[oracle]) + after),
{
    let oracles = table::in_order(state.per_oracle.dom());
    table::law_in_order(state.per_oracle.dom());
    assert(oracles.to_set().contains(oracle));
    let i = choose|i: int| 0 <= i < oracles.len() && oracles[i] == oracle;
    let parts = lemma_samples(oracles, state.per_oracle, i);
    let before = metrics_head(state.per_oracle.dom().len(), state.last_check_ts, state.last_check_ok) + parts.0;
    assert(metrics_text(state) =~= before + oracle_samples(oracle, state.per_oracle[oracle]) + parts.1);
}

} // verus!
