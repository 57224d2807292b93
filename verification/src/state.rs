//! Shared observable state: per-chain block heights, the severity histogram,
//! the bounded alert history with run-length coalescing, and rule-hit
//! counters. The surrounding process guards one value of this type with its
//! locks and passes in the clock; every transition is specified here.

use vstd::prelude::*;
use crate::events::Severity;
use crate::text::str_eq;

verus! {

/// Most records the alert history retains; eviction is FIFO.
pub const HISTORY_CAP: usize = 50;

/// One coalesced alert record: the repeated triple, when it was last seen,
/// and how many times in a row.
#[derive(Debug)]
pub struct AlertRecord {
    pub severity: Severity,
    pub chain: String,
    pub message: String,
    pub time: u64,
    pub count: u64,
}

/// The ghost image of a record, over character sequences.
#[verifier::ext_equal]
pub ghost struct RecordModel {
    pub severity: Severity,
    pub chain: Seq<char>,
    pub message: Seq<char>,
    pub time: u64,
    pub count: nat,
}

impl AlertRecord {
    pub open spec fn model(self) -> RecordModel {
        RecordModel {
            severity: self.severity,
            chain: self.chain@,
            message: self.message@,
            time: self.time,
            count: self.count as nat,
        }
    }
}

/// Cumulative alert counts per severity: every `add_alert` call increments
/// one of these, coalesced repeats included.
#[derive(Clone, Copy, Debug)]
pub struct SeverityCounts {
    pub low: u64,
    pub medium: u64,
    pub high: u64,
    pub critical: u64,
}

impl SeverityCounts {
    pub open spec fn spec_get(self, s: Severity) -> u64 {
        match s {
            Severity::Low => self.low,
            Severity::Medium => self.medium,
            Severity::High => self.high,
            Severity::Critical => self.critical,
        }
    }

    pub fn get(&self, s: Severity) -> (r: u64)
        ensures
            r == self.spec_get(s),
    {
        match s {
            Severity::Low => self.low,
            Severity::Medium => self.medium,
            Severity::High => self.high,
            Severity::Critical => self.critical,
        }
    }
}

/// The ghost image of the alert sub-state: coalesced history plus the
/// severity histogram, with unbounded counts.
#[verifier::ext_equal]
pub ghost struct AlertsModel {
    pub history: Seq<RecordModel>,
    pub low: nat,
    pub medium: nat,
    pub high: nat,
    pub critical: nat,
}

impl AlertsModel {
    pub open spec fn count_of(self, s: Severity) -> nat {
        match s {
            Severity::Low => self.low,
            Severity::Medium => self.medium,
            Severity::High => self.high,
            Severity::Critical => self.critical,
        }
    }

    /// The total number of alerts ever added.
    pub open spec fn total(self) -> nat {
        self.low + self.medium + self.high + self.critical
    }
}

pub open spec fn empty_alerts_model() -> AlertsModel {
    AlertsModel { history: Seq::empty(), low: 0, medium: 0, high: 0, critical: 0 }
}

/// Does a new (severity, chain, message) triple coalesce into the tail record?
pub open spec fn spec_coalesces(
    h: Seq<RecordModel>,
    sev: Severity,
    chain: Seq<char>,
    msg: Seq<char>,
) -> bool {
    h.len() > 0 && h.last().severity == sev && h.last().chain == chain && h.last().message == msg
}

/// The history after one add: bump the matching tail, or append, evicting the
/// oldest record once the cap is reached.
pub open spec fn spec_add_history(
    h: Seq<RecordModel>,
    sev: Severity,
    chain: Seq<char>,
    msg: Seq<char>,
    now: u64,
) -> Seq<RecordModel> {
    if spec_coalesces(h, sev, chain, msg) {
        h.update(
            h.len() - 1,
            RecordModel {
                severity: sev,
                chain: chain,
                message: msg,
                time: now,
                count: h.last().count + 1,
            },
        )
    } else {
        let rec = RecordModel { severity: sev, chain: chain, message: msg, time: now, count: 1 };
        if h.len() < HISTORY_CAP {
            h.push(rec)
        } else {
            h.drop_first().push(rec)
        }
    }
}

pub open spec fn spec_bump_count(m: AlertsModel, sev: Severity) -> AlertsModel {
    match sev {
        Severity::Low => AlertsModel { low: m.low + 1, ..m },
        Severity::Medium => AlertsModel { medium: m.medium + 1, ..m },
        Severity::High => AlertsModel { high: m.high + 1, ..m },
        Severity::Critical => AlertsModel { critical: m.critical + 1, ..m },
    }
}

/// The alert sub-state after one `add_alert` call.
pub open spec fn spec_add_alert(
    m: AlertsModel,
    sev: Severity,
    chain: Seq<char>,
    msg: Seq<char>,
    now: u64,
) -> AlertsModel {
    AlertsModel { history: spec_add_history(m.history, sev, chain, msg, now), ..spec_bump_count(m, sev) }
}

/// The first value stored under `key` in an association vector.
pub open spec fn spec_assoc_get(s: Seq<(String, u64)>, key: Seq<char>) -> Option<u64>
    decreases s.len(),
{
    if s.len() == 0 {
        None
    } else if s[0].0@ == key {
        Some(s[0].1)
    } else {
        spec_assoc_get(s.drop_first(), key)
    }
}

pub open spec fn unique_keys(s: Seq<(String, u64)>) -> bool {
    forall|i: int, j: int| 0 <= i < j < s.len() ==> (#[trigger] s[i]).0@ != (#[trigger] s[j]).0@
}

/// Looking up after updating entry `i` in place: the updated key reads the
/// new value, every other key is untouched.
pub(crate) proof fn lemma_assoc_update(s: Seq<(String, u64)>, i: int, v: u64, k: Seq<char>)
    requires
        0 <= i < s.len(),
        unique_keys(s),
        forall|j: int| 0 <= j < i ==> (#[trigger] s[j]).0@ != s[i].0@,
    ensures
        spec_assoc_get(s.update(i, (s[i].0, v)), k) == if k == s[i].0@ {
            Some(v)
        } else {
            spec_assoc_get(s, k)
        },
    decreases s.len(),
{
    let t = s.update(i, (s[i].0, v));
    if i == 0 {
        assert(t[0] == (s[0].0, v));
        if k != s[0].0@ {
            assert(t.drop_first() =~= s.drop_first());
        }
    } else {
        assert(t[0] == s[0]);
        assert(t.drop_first() =~= s.drop_first().update(i - 1, (s.drop_first()[i - 1].0, v)));
        assert(unique_keys(s.drop_first())) by {
            assert(forall|x: int, y: int|
                0 <= x < y < s.drop_first().len() ==> (#[trigger] s.drop_first()[x]).0@ != (
                #[trigger] s.drop_first()[y]).0@) by {
                assert(forall|x: int| 0 <= x < s.drop_first().len() ==> #[trigger] s.drop_first()[x]
                    == s[x + 1]);
            }
        }
        assert(forall|j: int| 0 <= j < i - 1 ==> (#[trigger] s.drop_first()[j]).0@ != s.drop_first()[i
            - 1].0@) by {
            assert(forall|x: int| 0 <= x < s.drop_first().len() ==> #[trigger] s.drop_first()[x]
                == s[x + 1]);
        }
        lemma_assoc_update(s.drop_first(), i - 1, v, k);
        assert(s.drop_first()[i - 1] == s[i]);
    }
}

/// Looking up after appending an entry: an absent key now reads the new
/// value, a present key is unchanged.
pub(crate) proof fn lemma_assoc_push(s: Seq<(String, u64)>, p: (String, u64), k: Seq<char>)
    ensures
        spec_assoc_get(s.push(p), k) == if spec_assoc_get(s, k) is Some {
            spec_assoc_get(s, k)
        } else if k == p.0@ {
            Some(p.1)
        } else {
            None::<u64>
        },
    decreases s.len(),
{
    if s.len() == 0 {
        assert(s.push(p)[0] == p);
        assert(s.push(p).drop_first() =~= Seq::<(String, u64)>::empty());
        assert(spec_assoc_get(Seq::<(String, u64)>::empty(), k) is None);
    } else {
        assert(s.push(p)[0] == s[0]);
        assert(s.push(p).drop_first() =~= s.drop_first().push(p));
        lemma_assoc_push(s.drop_first(), p, k);
    }
}

/// A key that matches no entry reads `None`.
pub(crate) proof fn lemma_assoc_absent(s: Seq<(String, u64)>, k: Seq<char>)
    requires
        forall|j: int| 0 <= j < s.len() ==> (#[trigger] s[j]).0@ != k,
    ensures
        spec_assoc_get(s, k) is None,
    decreases s.len(),
{
    if s.len() > 0 {
        assert(forall|x: int| 0 <= x < s.drop_first().len() ==> #[trigger] s.drop_first()[x] == s[
            x + 1]);
        lemma_assoc_absent(s.drop_first(), k);
    }
}

/// The process-wide observable state.
#[derive(Debug)]
pub struct AppState {
    /// Latest block height seen per chain; monotone while connected.
    pub chain_heights: Vec<(String, u64)>,
    /// When the most recent block (on any chain) arrived.
    pub last_block_time: u64,
    /// Bounded, run-length-coalesced record of recent alerts.
    pub alert_history: Vec<AlertRecord>,
    /// Cumulative alert counts per severity.
    pub severity_counts: SeverityCounts,
    /// Cumulative hits per rule name.
    pub rule_hits: Vec<(String, u64)>,
}

impl AppState {
    pub open spec fn wf(self) -> bool {
        &&& self.alert_history@.len() <= HISTORY_CAP
        &&& unique_keys(self.chain_heights@)
        &&& unique_keys(self.rule_hits@)
        &&& forall|i: int|
            0 <= i < self.alert_history@.len() ==> 1 <= (#[trigger] self.alert_history@[i]).count
                <= self.severity_counts.spec_get(self.alert_history@[i].severity)
    }

    /// The ghost image of the alert sub-state.
    pub open spec fn alerts_model(self) -> AlertsModel {
        AlertsModel {
            history: self.alert_history@.map_values(|r: AlertRecord| r.model()),
            low: self.severity_counts.low as nat,
            medium: self.severity_counts.medium as nat,
            high: self.severity_counts.high as nat,
            critical: self.severity_counts.critical as nat,
        }
    }

    pub fn new() -> (r: AppState)
        ensures
            r.wf(),
            r.chain_heights@.len() == 0,
            r.last_block_time == 0,
            r.rule_hits@.len() == 0,
            r.alerts_model() == empty_alerts_model(),
    {
        let r = AppState {
            chain_heights: Vec::new(),
            last_block_time: 0,
            alert_history: Vec::new(),
            severity_counts: SeverityCounts { low: 0, medium: 0, high: 0, critical: 0 },
            rule_hits: Vec::new(),
        };
        proof {
            assert(r.alerts_model().history =~= empty_alerts_model().history);
        }
        r
    }

    /// Record a new block height for a chain, keeping the height monotone:
    /// a replayed older height is discarded. Always refreshes the last-block
    /// clock.
    pub fn update_block(&mut self, chain_name: &str, block: u64, now: u64)
        requires
            old(self).wf(),
        ensures
            final(self).wf(),
            final(self).last_block_time == now,
            spec_assoc_get(final(self).chain_heights@, chain_name@) == match spec_assoc_get(
                old(self).chain_heights@,
                chain_name@,
            ) {
                Some(h) => if block > h {
                    Some(block)
                } else {
                    Some(h)
                },
                None => Some(block),
            },
            forall|k: Seq<char>|
                k != chain_name@ ==> #[trigger] spec_assoc_get(final(self).chain_heights@, k)
                    == spec_assoc_get(old(self).chain_heights@, k),
            final(self).alert_history == old(self).alert_history,
            final(self).severity_counts == old(self).severity_counts,
            final(self).rule_hits == old(self).rule_hits,
    {
        self.last_block_time = now;
        let n = self.chain_heights.len();
        let mut i: usize = 0;
        while i < n
            invariant
                old(self).wf(),
                n == self.chain_heights@.len(),
                i <= n,
                self.chain_heights == old(self).chain_heights,
                self.alert_history == old(self).alert_history,
                self.severity_counts == old(self).severity_counts,
                self.rule_hits == old(self).rule_hits,
                self.last_block_time == now,
                forall|j: int| 0 <= j < i ==> (#[trigger] self.chain_heights@[j]).0@ != chain_name@,
            decreases n - i,
        {
            if str_eq(self.chain_heights[i].0.as_str(), chain_name) {
                proof {
                    lemma_assoc_found(self.chain_heights@, i as int);
                }
                let existing = self.chain_heights[i].1;
                if block > existing {
                    let key = self.chain_heights[i].0.clone();
                    let ghost pre = self.chain_heights@;
                    self.chain_heights.set(i, (key, block));
                    proof {
                        assert(self.chain_heights@ =~= pre.update(i as int, (pre[i as int].0, block)));
                        assert forall|x: int, y: int|
                            0 <= x < y < self.chain_heights@.len() implies (#[trigger] self.chain_heights@[x]).0@
                            != (#[trigger] self.chain_heights@[y]).0@ by {
                            assert(self.chain_heights@[x].0 == pre[x].0);
                            assert(self.chain_heights@[y].0 == pre[y].0);
                            assert(pre[x].0@ != pre[y].0@);
                        }
                        assert forall|k: Seq<char>| true implies spec_assoc_get(
                            pre.update(i as int, (pre[i as int].0, block)),
                            k,
                        ) == if k == pre[i as int].0@ {
                            Some(block)
                        } else {
                            spec_assoc_get(pre, k)
                        } by {
                            lemma_assoc_update(pre, i as int, block, k);
                        }
                    }
                }
                return;
            }
            i += 1;
        }
        let key = chain_name.to_owned();
        let ghost pre = self.chain_heights@;
        self.chain_heights.push((key, block));
        proof {
            lemma_assoc_absent(pre, chain_name@);
            assert forall|x: int, y: int|
                0 <= x < y < self.chain_heights@.len() implies (#[trigger] self.chain_heights@[x]).0@
                != (#[trigger] self.chain_heights@[y]).0@ by {
                if y < pre.len() {
                    assert(self.chain_heights@[x] == pre[x]);
                    assert(self.chain_heights@[y] == pre[y]);
                    assert(pre[x].0@ != pre[y].0@);
                } else {
                    assert(self.chain_heights@[x] == pre[x]);
                    assert(self.chain_heights@[y].0@ == chain_name@);
                    assert(pre[x].0@ != chain_name@);
                }
            }
            assert forall|k: Seq<char>| true implies spec_assoc_get(
                pre.push((key, block)),
                k,
            ) == if spec_assoc_get(pre, k) is Some {
                spec_assoc_get(pre, k)
            } else if k == key@ {
                Some(block)
            } else {
                None::<u64>
            } by {
                lemma_assoc_push(pre, (key, block), k);
            }
        }
    }

    /// Record one alert: always increments the severity histogram; bumps the
    /// tail record when the (severity, chain, message) triple repeats,
    /// otherwise appends, evicting the oldest record at the cap.
    pub fn add_alert(&mut self, severity: Severity, chain: String, message: String, now: u64)
        requires
            old(self).wf(),
            old(self).severity_counts.spec_get(severity) < u64::MAX,
        ensures
            final(self).wf(),
            final(self).alerts_model() == spec_add_alert(
                old(self).alerts_model(),
                severity,
                chain@,
                message@,
                now,
            ),
            final(self).chain_heights == old(self).chain_heights,
            final(self).last_block_time == old(self).last_block_time,
            final(self).rule_hits == old(self).rule_hits,
    {
        let ghost m0 = self.alerts_model();
        let ghost pre = self.alert_history@;
        let n = self.alert_history.len();
        let tail_matches: bool = if n > 0 {
            let tail = &self.alert_history[n - 1];
            tail.severity == severity && str_eq(tail.chain.as_str(), chain.as_str()) && str_eq(
                tail.message.as_str(),
                message.as_str(),
            )
        } else {
            false
        };
        proof {
            if n > 0 {
                assert(m0.history.last() == pre.last().model());
            }
            assert(tail_matches == spec_coalesces(m0.history, severity, chain@, message@));
        }
        if tail_matches {
            let cnt = self.alert_history[n - 1].count;
            proof {
                assert(pre[n - 1].count <= self.severity_counts.spec_get(pre[n - 1].severity));
            }
            self.alert_history.set(
                n - 1,
                AlertRecord { severity, chain, message, time: now, count: cnt + 1 },
            );
            proof {
                assert(self.alert_history@.map_values(|r: AlertRecord| r.model())
                    =~= spec_add_history(m0.history, severity, chain@, message@, now));
            }
        } else {
            if n >= HISTORY_CAP {
                self.alert_history.remove(0);
                proof {
                    assert(self.alert_history@ =~= pre.drop_first());
                }
            }
            let ghost mid = self.alert_history@;
            self.alert_history.push(
                AlertRecord { severity, chain, message, time: now, count: 1 },
            );
            proof {
                assert(self.alert_history@.map_values(|r: AlertRecord| r.model())
                    =~= spec_add_history(m0.history, severity, chain@, message@, now)) by {
                    assert(mid.map_values(|r: AlertRecord| r.model()) =~= if pre.len()
                        < HISTORY_CAP {
                        m0.history
                    } else {
                        m0.history.drop_first()
                    });
                }
            }
        }
        match severity {
            Severity::Low => {
                self.severity_counts.low = self.severity_counts.low + 1;
            },
            Severity::Medium => {
                self.severity_counts.medium = self.severity_counts.medium + 1;
            },
            Severity::High => {
                self.severity_counts.high = self.severity_counts.high + 1;
            },
            Severity::Critical => {
                self.severity_counts.critical = self.severity_counts.critical + 1;
            },
        }
        proof {
            assert(self.alerts_model() =~= spec_add_alert(m0, severity, chain@, message@, now));
            assert forall|i: int| 0 <= i < self.alert_history@.len() implies 1 <= (
            #[trigger] self.alert_history@[i]).count <= self.severity_counts.spec_get(
                self.alert_history@[i].severity,
            ) by {
                if tail_matches {
                    if i < self.alert_history@.len() - 1 {
                        assert(self.alert_history@[i] == pre[i]);
                    }
                } else if pre.len() < HISTORY_CAP {
                    if i < self.alert_history@.len() - 1 {
                        assert(self.alert_history@[i] == pre[i]);
                    }
                } else {
                    if i < self.alert_history@.len() - 1 {
                        assert(self.alert_history@[i] == pre[i + 1]);
                    }
                }
            }
        }
    }

    /// Count one hit for a rule name.
    pub fn record_rule_hit(&mut self, rule_name: String)
        requires
            old(self).wf(),
            match spec_assoc_get(old(self).rule_hits@, rule_name@) {
                Some(c) => c < u64::MAX,
                None => true,
            },
        ensures
            final(self).wf(),
            spec_assoc_get(final(self).rule_hits@, rule_name@) == match spec_assoc_get(
                old(self).rule_hits@,
                rule_name@,
            ) {
                Some(c) => Some((c + 1) as u64),
                None => Some(1u64),
            },
            forall|k: Seq<char>|
                k != rule_name@ ==> #[trigger] spec_assoc_get(final(self).rule_hits@, k)
                    == spec_assoc_get(old(self).rule_hits@, k),
            final(self).alert_history == old(self).alert_history,
            final(self).severity_counts == old(self).severity_counts,
            final(self).chain_heights == old(self).chain_heights,
            final(self).last_block_time == old(self).last_block_time,
    {
        let n = self.rule_hits.len();
        let mut i: usize = 0;
        while i < n
            invariant
                old(self).wf(),
                n == self.rule_hits@.len(),
                i <= n,
                self.chain_heights == old(self).chain_heights,
                self.alert_history == old(self).alert_history,
                self.severity_counts == old(self).severity_counts,
                self.rule_hits == old(self).rule_hits,
                self.last_block_time == old(self).last_block_time,
                match spec_assoc_get(old(self).rule_hits@, rule_name@) {
                    Some(c) => c < u64::MAX,
                    None => true,
                },
                forall|j: int| 0 <= j < i ==> (#[trigger] self.rule_hits@[j]).0@ != rule_name@,
            decreases n - i,
        {
            if str_eq(self.rule_hits[i].0.as_str(), rule_name.as_str()) {
                proof {
                    lemma_assoc_found(self.rule_hits@, i as int);
                }
                let existing = self.rule_hits[i].1;
                let key = self.rule_hits[i].0.clone();
                let ghost pre = self.rule_hits@;
                self.rule_hits.set(i, (key, existing + 1));
                proof {
                    assert(self.rule_hits@ =~= pre.update(i as int, (pre[i as int].0, (existing
                        + 1) as u64)));
                    assert forall|x: int, y: int|
                        0 <= x < y < self.rule_hits@.len() implies (#[trigger] self.rule_hits@[x]).0@
                        != (#[trigger] self.rule_hits@[y]).0@ by {
                        assert(self.rule_hits@[x].0 == pre[x].0);
                        assert(self.rule_hits@[y].0 == pre[y].0);
                        assert(pre[x].0@ != pre[y].0@);
                    }
                    assert forall|k: Seq<char>| true implies spec_assoc_get(
                        pre.update(i as int, (pre[i as int].0, (existing + 1) as u64)),
                        k,
                    ) == if k == pre[i as int].0@ {
                        Some((existing + 1) as u64)
                    } else {
                        spec_assoc_get(pre, k)
                    } by {
                        lemma_assoc_update(pre, i as int, (existing + 1) as u64, k);
                    }
                }
                return;
            }
            i += 1;
        }
        let ghost pre = self.rule_hits@;
        let ghost keyview = rule_name@;
        self.rule_hits.push((rule_name, 1));
        proof {
            lemma_assoc_absent(pre, self.rule_hits@.last().0@);
            assert forall|x: int, y: int|
                0 <= x < y < self.rule_hits@.len() implies (#[trigger] self.rule_hits@[x]).0@
                != (#[trigger] self.rule_hits@[y]).0@ by {
                if y < pre.len() {
                    assert(self.rule_hits@[x] == pre[x]);
                    assert(self.rule_hits@[y] == pre[y]);
                    assert(pre[x].0@ != pre[y].0@);
                } else {
                    assert(self.rule_hits@[x] == pre[x]);
                    assert(self.rule_hits@[y].0@ == keyview);
                    assert(pre[x].0@ != keyview);
                }
            }
            assert forall|k: Seq<char>| true implies spec_assoc_get(self.rule_hits@, k) == if
                spec_assoc_get(pre, k) is Some {
                spec_assoc_get(pre, k)
            } else if k == self.rule_hits@.last().0@ {
                Some(1u64)
            } else {
                None::<u64>
            } by {
                lemma_assoc_push(pre, self.rule_hits@.last(), k);
                assert(pre.push(self.rule_hits@.last()) =~= self.rule_hits@);
            }
        }
    }
}

/// One `add_alert` call, as data: the triple added and the clock reading.
#[verifier::ext_equal]
pub ghost struct AddCall {
    pub severity: Severity,
    pub chain: Seq<char>,
    pub message: Seq<char>,
    pub now: u64,
}

/// The alert sub-state after a whole sequence of `add_alert` calls.
pub open spec fn spec_apply_adds(m: AlertsModel, calls: Seq<AddCall>) -> AlertsModel
    decreases calls.len(),
{
    if calls.len() == 0 {
        m
    } else {
        spec_apply_adds(
            spec_add_alert(m, calls[0].severity, calls[0].chain, calls[0].message, calls[0].now),
            calls.drop_first(),
        )
    }
}

/// After any sequence of adds, the severity counts sum to exactly the number
/// of calls made, coalesced repeats included.
pub proof fn lemma_counts_sum_to_calls(m: AlertsModel, calls: Seq<AddCall>)
    ensures
        spec_apply_adds(m, calls).total() == m.total() + calls.len(),
    decreases calls.len(),
{
    if calls.len() > 0 {
        let m1 = spec_add_alert(m, calls[0].severity, calls[0].chain, calls[0].message, calls[0].now);
        assert(m1.total() == m.total() + 1);
        lemma_counts_sum_to_calls(m1, calls.drop_first());
    }
}

/// After any sequence of adds, the history never exceeds the cap. Which
/// records it holds, and in what order, is fixed record by record by
/// `spec_add_history`.
pub proof fn lemma_history_bounded(m: AlertsModel, calls: Seq<AddCall>)
    requires
        m.history.len() <= HISTORY_CAP,
    ensures
        spec_apply_adds(m, calls).history.len() <= HISTORY_CAP,
    decreases calls.len(),
{
    if calls.len() > 0 {
        let m1 = spec_add_alert(m, calls[0].severity, calls[0].chain, calls[0].message, calls[0].now);
        assert(m1.history.len() <= HISTORY_CAP);
        lemma_history_bounded(m1, calls.drop_first());
    }
}

/// Two consecutive adds of an identical (severity, chain, message) triple
/// leave the history length unchanged and increase the tail's repeat count by
/// exactly one.
pub proof fn lemma_repeat_coalesces(
    m: AlertsModel,
    sev: Severity,
    chain: Seq<char>,
    msg: Seq<char>,
    t1: u64,
    t2: u64,
)
    ensures
        ({
            let m1 = spec_add_alert(m, sev, chain, msg, t1);
            let m2 = spec_add_alert(m1, sev, chain, msg, t2);
            &&& m1.history.len() > 0
            &&& m2.history.len() == m1.history.len()
            &&& m2.history.last().count == m1.history.last().count + 1
        }),
{
    let h1 = spec_add_history(m.history, sev, chain, msg, t1);
    assert(h1.last().severity == sev && h1.last().chain == chain && h1.last().message == msg);
    assert(spec_coalesces(h1, sev, chain, msg));
}

/// A matching scan prefix pins the lookup to entry `i`.
pub(crate) proof fn lemma_assoc_found(s: Seq<(String, u64)>, i: int)
    requires
        0 <= i < s.len(),
        forall|j: int| 0 <= j < i ==> (#[trigger] s[j]).0@ != s[i].0@,
    ensures
        spec_assoc_get(s, s[i].0@) == Some(s[i].1),
    decreases i,
{
    if i > 0 {
        assert(forall|x: int| 0 <= x < s.drop_first().len() ==> #[trigger] s.drop_first()[x] == s[
            x + 1]);
        lemma_assoc_found(s.drop_first(), i - 1);
    }
}

} // verus!
