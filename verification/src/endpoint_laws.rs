//! What the endpoints show of a state.
use vstd::prelude::*;

use crate::endpoints;
use crate::state::{OracleMetrics, StateView};
use crate::table;
use crate::text;
use crate::text_laws;

verus! {

/// The line that shows `value` for a metric.
pub open spec fn line(metric: Seq<char>, value: Seq<char>) -> Seq<char> {
    metric + " "@ + value + "\n"@
}

/// The line that shows `value` for a metric of an oracle.
pub open spec fn oracle_line(metric: Seq<char>, oracle: Seq<char>, value: Seq<char>) -> Seq<char> {
    line(metric + "{oracle_address=\""@ + oracle + "\"}"@, value)
}

/// `value` is a number in decimal: `n`, without leading zeros.
pub open spec fn is_decimal(value: Seq<char>, n: int) -> bool {
    &&& value.len() > 0
    &&& forall|i: int| 0 <= i < value.len() ==> 48 <= #[trigger] value[i] as int <= 57
    &&& text_laws::meaning(value, 10) == n
    &&& value[0] == '0' ==> value.len() == 1
}

/// A number is shown in decimal.
pub proof fn law_decimal(n: nat)
    ensures
        is_decimal(text::numeral(n, 10), n as int),
{
    text_laws::law_numeral(n, 10);
    let written = text::numeral(n, 10);
    assert forall|i: int| 0 <= i < written.len() implies 48 <= #[trigger] written[i] as int <= 57 by {
        assert(text_laws::digit_meaning(written[i]) < 10);
    }
}

/// An oracle is shown by three lines: whether a report is known, when it was made, and how old it is. The first line shows 1
/// exactly where the time of a report is known, whatever its age, and 0 else. The others show the time and the age, each
/// whatever the other is, and 0 where they are not known.
pub proof fn law_oracle_lines(oracle: Seq<char>, metrics: OracleMetrics) -> (values: (Seq<char>, Seq<char>))
    ensures
        endpoints::oracle_samples(oracle, metrics) == oracle_line(
            "oracle_report_present"@,
            oracle,
            if metrics.last_report_ts is Some {
                seq!['1']
            } else {
                seq!['0']
            },
        ) + oracle_line("oracle_last_report_timestamp_seconds"@, oracle, values.0) + oracle_line(
            "oracle_time_since_last_report_seconds"@,
            oracle,
            values.1,
        ),
        metrics.last_report_ts matches Some(ts) ==> is_decimal(values.0, ts as int),
        metrics.last_report_ts is None ==> values.0 == seq!['0'],
        metrics.time_since_last_report_secs matches Some(secs) ==> is_decimal(values.1, secs as int),
        metrics.time_since_last_report_secs is None ==> values.1 == seq!['0'],
{
    reveal_strlit("oracle_report_present{oracle_address=\"");
    reveal_strlit("oracle_last_report_timestamp_seconds{oracle_address=\"");
    reveal_strlit("oracle_time_since_last_report_seconds{oracle_address=\"");
    reveal_strlit("oracle_report_present");
    reveal_strlit("oracle_last_report_timestamp_seconds");
    reveal_strlit("oracle_time_since_last_report_seconds");
    reveal_strlit("{oracle_address=\"");
    assert("oracle_report_present{oracle_address=\""@ =~= "oracle_report_present"@ + "{oracle_address=\""@);
    assert("oracle_last_report_timestamp_seconds{oracle_address=\""@ =~= "oracle_last_report_timestamp_seconds"@
        + "{oracle_address=\""@);
    assert("oracle_time_since_last_report_seconds{oracle_address=\""@ =~= "oracle_time_since_last_report_seconds"@
        + "{oracle_address=\""@);
    assert(text::numeral(0, 10) =~= seq!['0']);
    assert(text::numeral(1, 10) =~= seq!['1']);
    let ts: nat = match metrics.last_report_ts {
        Some(ts) => ts as nat,
        None => 0,
    };
    let secs: nat = match metrics.time_since_last_report_secs {
        Some(secs) => secs as nat,
        None => 0,
    };
    law_decimal(ts);
    law_decimal(secs);
    let values = (text::numeral(ts, 10), text::numeral(secs, 10));
    lemma_sample("oracle_report_present"@, oracle, if metrics.last_report_ts is Some { 1 } else { 0 });
    lemma_sample("oracle_last_report_timestamp_seconds"@, oracle, ts);
    lemma_sample("oracle_time_since_last_report_seconds"@, oracle, secs);
    values
}

proof fn lemma_sample(metric: Seq<char>, oracle: Seq<char>, value: nat)
    ensures
        endpoints::sample(metric + "{oracle_address=\""@, oracle, value) == oracle_line(
            metric,
            oracle,
            text::numeral(value, 10),
        ),
{
    reveal_strlit("\"}");
    reveal_strlit("\"} ");
    reveal_strlit(" ");
    assert("\"} "@ =~= "\"}"@ + " "@);
    assert(endpoints::sample(metric + "{oracle_address=\""@, oracle, value) =~= oracle_line(
        metric,
        oracle,
        text::numeral(value, 10),
    ));
}

/// Two oracles of which reports are known are shown in the same way by their first lines, whatever the reports are.
pub proof fn law_present_whatever_the_age(oracle: Seq<char>, a: OracleMetrics, b: OracleMetrics)
    requires
        a.last_report_ts is Some,
        b.last_report_ts is Some,
    ensures
        exists|first: Seq<char>, x: Seq<char>, y: Seq<char>|
            {
                &&& #[trigger] (first + x) == endpoints::oracle_samples(oracle, a)
                &&& #[trigger] (first + y) == endpoints::oracle_samples(oracle, b)
                &&& first == oracle_line("oracle_report_present"@, oracle, seq!['1'])
            },
{
    let u = law_oracle_lines(oracle, a);
    let v = law_oracle_lines(oracle, b);
    let first = oracle_line("oracle_report_present"@, oracle, seq!['1']);
    let rest = |w: (Seq<char>, Seq<char>)|
        oracle_line("oracle_last_report_timestamp_seconds"@, oracle, w.0) + oracle_line(
            "oracle_time_since_last_report_seconds"@,
            oracle,
            w.1,
        );
    assert(first + rest(u) =~= endpoints::oracle_samples(oracle, a));
    assert(first + rest(v) =~= endpoints::oracle_samples(oracle, b));
}

/// The lines of oracles stand one after the other.
pub proof fn law_lines_of_all(a: Seq<Seq<char>>, b: Seq<Seq<char>>, oracle: Seq<char>, metrics: Map<
    Seq<char>,
    OracleMetrics,
>)
    ensures
        endpoints::all_samples(seq![], metrics) == Seq::<char>::empty(),
        endpoints::all_samples(seq![oracle], metrics) == endpoints::oracle_samples(oracle, metrics[oracle]),
        endpoints::all_samples(a + b, metrics) == endpoints::all_samples(a, metrics) + endpoints::all_samples(b, metrics),
    decreases b.len(),
{
    reveal_with_fuel(endpoints::all_samples, 2);
    assert(seq![oracle].drop_last() =~= seq![]);
    assert(endpoints::all_samples(seq![oracle], metrics) =~= endpoints::oracle_samples(oracle, metrics[oracle]));
    if b.len() == 0 {
        assert(a + b =~= a);
        assert(endpoints::all_samples(a, metrics) + endpoints::all_samples(b, metrics) =~= endpoints::all_samples(
            a,
            metrics,
        ));
    } else {
        law_lines_of_all(a, b.drop_last(), oracle, metrics);
        assert((a + b).drop_last() =~= a + b.drop_last());
        assert((a + b).last() == b.last());
        assert(endpoints::all_samples(a + b, metrics) =~= endpoints::all_samples(a, metrics) + endpoints::all_samples(
            b,
            metrics,
        ));
    }
}

/// The metrics are a head, and then the lines of the oracles of the state: of each once, and in ascending order.
pub proof fn law_metrics(state: StateView) -> (oracles: Seq<Seq<char>>)
    requires
        state.per_oracle.dom().finite(),
    ensures
        endpoints::metrics_text(state) == endpoints::metrics_head(
            oracles.len(),
            state.last_check_ts,
            state.last_check_ok,
        ) + endpoints::all_samples(oracles, state.per_oracle),
        forall|i: int, j: int|
            0 <= i < j < oracles.len() ==> text::text_lt(#[trigger] oracles[i], #[trigger] oracles[j]),
        forall|oracle: Seq<char>| #[trigger] oracles.contains(oracle) <==> state.per_oracle.dom().contains(oracle),
{
    let dom = state.per_oracle.dom();
    let oracles = table::in_order(dom);
    table::law_in_order(dom);
    table::lemma_ascending_distinct(oracles);
    oracles.unique_seq_to_set();
    assert forall|oracle: Seq<char>| #[trigger] oracles.contains(oracle) <==> dom.contains(oracle) by {
        assert(oracles.contains(oracle) <==> oracles.to_set().contains(oracle));
    }
    oracles
}

/// The head of the metrics shows, each with its help and its type, whether the last poll succeeded, as 1 or 0, the time of
/// the last poll, and how many oracles there are. The help and the types of the metrics of the oracles follow.
pub proof fn law_head(oracles: nat, last_check_ts: u64, last_check_ok: bool) -> (values: (Seq<char>, Seq<char>))
    ensures
        endpoints::metrics_head(oracles, last_check_ts, last_check_ok)
            == "# HELP oracle_last_check_success 1 if last chain check succeeded, else 0\n"@
            + "# TYPE oracle_last_check_success gauge\n"@ + line(
            "oracle_last_check_success"@,
            if last_check_ok {
                seq!['1']
            } else {
                seq!['0']
            },
        ) + "# HELP oracle_last_check_timestamp_seconds Unix timestamp of last poll attempt\n"@
            + "# TYPE oracle_last_check_timestamp_seconds gauge\n"@ + line(
            "oracle_last_check_timestamp_seconds"@,
            values.0,
        ) + "# HELP oracle_allowlist_size Number of oracle addresses in latest on-chain allowlist snapshot\n"@
            + "# TYPE oracle_allowlist_size gauge\n"@ + line("oracle_allowlist_size"@, values.1)
            + "# HELP oracle_report_present 1 if report was found for oracle in current scan window\n"@
            + "# TYPE oracle_report_present gauge\n"@
            + "# HELP oracle_last_report_timestamp_seconds Unix timestamp of latest matched report tx per oracle\n"@
            + "# TYPE oracle_last_report_timestamp_seconds gauge\n"@
            + "# HELP oracle_time_since_last_report_seconds Seconds elapsed since latest matched report tx per oracle\n"@
            + "# TYPE oracle_time_since_last_report_seconds gauge\n"@,
        is_decimal(values.0, last_check_ts as int),
        is_decimal(values.1, oracles as int),
{
    reveal_strlit("oracle_last_check_success ");
    reveal_strlit("oracle_last_check_timestamp_seconds ");
    reveal_strlit("oracle_allowlist_size ");
    reveal_strlit("oracle_last_check_success");
    reveal_strlit("oracle_last_check_timestamp_seconds");
    reveal_strlit("oracle_allowlist_size");
    reveal_strlit(" ");
    assert("oracle_last_check_success "@ =~= "oracle_last_check_success"@ + " "@);
    assert("oracle_last_check_timestamp_seconds "@ =~= "oracle_last_check_timestamp_seconds"@ + " "@);
    assert("oracle_allowlist_size "@ =~= "oracle_allowlist_size"@ + " "@);
    assert(text::numeral(0, 10) =~= seq!['0']);
    assert(text::numeral(1, 10) =~= seq!['1']);
    law_decimal(last_check_ts as nat);
    law_decimal(oracles);
    let values = (text::numeral(last_check_ts as nat, 10), text::numeral(oracles, 10));
    assert(endpoints::metrics_head(oracles, last_check_ts, last_check_ok)
        =~= "# HELP oracle_last_check_success 1 if last chain check succeeded, else 0\n"@
        + "# TYPE oracle_last_check_success gauge\n"@ + line(
        "oracle_last_check_success"@,
        if last_check_ok {
            seq!['1']
        } else {
            seq!['0']
        },
    ) + "# HELP oracle_last_check_timestamp_seconds Unix timestamp of last poll attempt\n"@
        + "# TYPE oracle_last_check_timestamp_seconds gauge\n"@ + line(
        "oracle_last_check_timestamp_seconds"@,
        values.0,
    ) + "# HELP oracle_allowlist_size Number of oracle addresses in latest on-chain allowlist snapshot\n"@
        + "# TYPE oracle_allowlist_size gauge\n"@ + line("oracle_allowlist_size"@, values.1)
        + "# HELP oracle_report_present 1 if report was found for oracle in current scan window\n"@
        + "# TYPE oracle_report_present gauge\n"@
        + "# HELP oracle_last_report_timestamp_seconds Unix timestamp of latest matched report tx per oracle\n"@
        + "# TYPE oracle_last_report_timestamp_seconds gauge\n"@
        + "# HELP oracle_time_since_last_report_seconds Seconds elapsed since latest matched report tx per oracle\n"@
        + "# TYPE oracle_time_since_last_report_seconds gauge\n"@);
    values
}

/// The health endpoint answers with 200 and `ok` where the last poll succeeded, and else with 503 and `last check failed`,
/// whatever else is known.
pub proof fn law_health(state: StateView)
    ensures
        state.last_check_ok ==> endpoints::health_answer(state) == (200u16, "ok"@),
        !state.last_check_ok ==> endpoints::health_answer(state) == (503u16, "last check failed"@),
{
}

} // verus!
