//! What the monitor knows, and how a poll changes it.
use vstd::prelude::*;

use crate::table::TextMap;
use crate::text;

verus! {

/// What is known of the reports of one oracle.
#[derive(Debug, Clone, Copy, PartialEq, Eq, Structural)]
pub struct OracleMetrics {
    /// When the latest report was made, in seconds from the beginning of 1970.
    pub last_report_ts: Option<u64>,
    /// How long before the poll that was, in seconds.
    pub time_since_last_report_secs: Option<u64>,
}

impl OracleMetrics {
    /// No report is known.
    pub open spec fn unknown() -> OracleMetrics {
        OracleMetrics { last_report_ts: None, time_since_last_report_secs: None }
    }

    /// The latest report known, if any, as of `now`.
    pub open spec fn at(now: u64, report: Option<u64>) -> OracleMetrics {
        match report {
            Some(ts) => OracleMetrics {
                last_report_ts: Some(ts),
                time_since_last_report_secs: Some(
                    if now >= ts {
                        (now - ts) as u64
                    } else {
                        0
                    },
                ),
            },
            None => OracleMetrics::unknown(),
        }
    }
}

impl Default for OracleMetrics {
    fn default() -> (metrics: OracleMetrics)
        ensures
            metrics == OracleMetrics::unknown(),
    {
        OracleMetrics { last_report_ts: None, time_since_last_report_secs: None }
    }
}

/// What the monitor knows: each poll writes it, and the endpoints read it.
#[derive(Debug)]
pub struct MonitorState {
    /// The oracles of the latest list of members, each with its reports.
    pub per_oracle: TextMap<OracleMetrics>,
    /// When the latest poll was made, in seconds from the beginning of 1970.
    pub last_check_ts: u64,
    /// Whether the latest poll succeeded.
    pub last_check_ok: bool,
}

/// What a `MonitorState` holds.
#[verifier::ext_equal]
pub struct StateView {
    pub per_oracle: Map<Seq<char>, OracleMetrics>,
    pub last_check_ts: u64,
    pub last_check_ok: bool,
}

impl StateView {
    /// Nothing is known: no poll was made.
    pub open spec fn initial() -> StateView {
        StateView { per_oracle: Map::empty(), last_check_ts: 0, last_check_ok: false }
    }

    /// A poll at `now` found the oracles.
    pub open spec fn succeeded(now: u64, oracles: Map<Seq<char>, OracleMetrics>) -> StateView {
        StateView { per_oracle: oracles, last_check_ts: now, last_check_ok: true }
    }

    /// A poll failed, at `now` if the clock told the time: what was known of the oracles stays.
    pub open spec fn failed(self, now: Option<u64>) -> StateView {
        StateView {
            per_oracle: self.per_oracle,
            last_check_ts: match now {
                Some(ts) => ts,
                None => self.last_check_ts,
            },
            last_check_ok: false,
        }
    }
}

impl View for MonitorState {
    type V = StateView;

    open spec fn view(&self) -> StateView {
        StateView {
            per_oracle: self.per_oracle@,
            last_check_ts: self.last_check_ts,
            last_check_ok: self.last_check_ok,
        }
    }
}

impl Default for MonitorState {
    fn default() -> (state: MonitorState)
        ensures
            state@ == StateView::initial(),
    {
        MonitorState { per_oracle: TextMap::new(), last_check_ts: 0, last_check_ok: false }
    }
}

impl Clone for MonitorState {
    fn clone(&self) -> (copy: MonitorState)
        ensures
            copy@ == self@,
    {
        MonitorState {
            per_oracle: self.per_oracle.clone(),
            last_check_ts: self.last_check_ts,
            last_check_ok: self.last_check_ok,
        }
    }
}

/// The state before the first poll.
pub fn build_initial_state() -> (state: MonitorState)
    ensures
        state@ == StateView::initial(),
{
    MonitorState::default()
}

/// The value under `key`, if there is one.
pub open spec fn lookup<V>(map: Map<Seq<char>, V>, key: Seq<char>) -> Option<V> {
    if map.dom().contains(key) {
        Some(map[key])
    } else {
        None
    }
}

/// The oracles of `members`, each with its report in `reports`, as of `now`.
pub open spec fn oracles_at(
    now: u64,
    members: Set<Seq<char>>,
    reports: Map<Seq<char>, u64>,
) -> Map<Seq<char>, OracleMetrics> {
    Map::new(
        |oracle: Seq<char>| members.contains(oracle),
        |oracle: Seq<char>| OracleMetrics::at(now, lookup(reports, oracle)),
    )
}

impl MonitorState {
    /// Takes in what a poll at `now` found: the members, and the time of the latest report of those that made one.
    pub fn record_success(&mut self, now: u64, members: &Vec<String>, reports: &TextMap<u64>)
        ensures
            final(self)@ == StateView::succeeded(now, oracles_at(now, text::views(members@).to_set(), reports@)),
    {
        let mut oracles: TextMap<OracleMetrics> = TextMap::new();
        let mut i: usize = 0;
        let ghost names = text::views(members@);
        assert(oracles@ =~= oracles_at(now, names.take(0).to_set(), reports@));
        while i < members.len()
            invariant
                i <= members@.len(),
                names == text::views(members@),
                oracles@ == oracles_at(now, names.take(i as int).to_set(), reports@),
            decreases members@.len() - i,
        {
            let oracle: &String = &members[i];
            let metrics: OracleMetrics = match reports.get(oracle.as_str()) {
                Some(ts) => OracleMetrics {
                    last_report_ts: Some(*ts),
                    time_since_last_report_secs: Some(now.saturating_sub(*ts)),
                },
                None => OracleMetrics::default(),
            };
            oracles.insert(oracle.clone(), metrics);
            proof {
                assert(metrics == OracleMetrics::at(now, lookup(reports@, oracle@)));
                assert(names.take(i + 1) == names.take(i as int).push(oracle@));
                crate::table::lemma_push_member(names.take(i as int), oracle@);
                assert(oracles@ =~= oracles_at(now, names.take(i + 1).to_set(), reports@));
            }
            i += 1;
        }
        assert(names.take(i as int) == names);
        self.per_oracle = oracles;
        self.last_check_ts = now;
        self.last_check_ok = true;
    }

    /// Takes in that a poll failed: what was known of the oracles stays. The poll was made at `now`, if the clock
    /// told the time.
    pub fn record_failure(&mut self, now: Option<u64>)
        ensures
            final(self)@ == old(self)@.failed(now),
    {
        if let Some(ts) = now {
            self.last_check_ts = ts;
        }
        self.last_check_ok = false;
    }
}

} // verus!
