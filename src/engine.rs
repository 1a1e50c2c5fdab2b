//! The probing engine's decisions. A cycle is planned here (which targets to
//! probe and how), the caller runs the probes concurrently and joins them, and
//! the joined reports are folded back here into the targets' state.
use std::collections::VecDeque;
use vstd::prelude::*;

use crate::config::Target;
use crate::monitor::{
    bounded_push, ping_samples, ssh_samples, stats_match, FailureEntry, FailureKind, PingResult,
    SshResult, TargetStats,
};

verus! {

/// What one probe came back with.
pub enum ProbeOutcome {
    /// The probe succeeded after `elapsed_ms` whole milliseconds.
    Reached { elapsed_ms: u64 },
    /// The probe failed; a failure is a value like any other.
    Failed { kind: FailureKind, reason: String },
}

/// One probe's report: when it started and how it ended.
pub struct ProbeReport {
    /// Milliseconds since the Unix epoch (UTC).
    pub timestamp_ms: i64,
    pub outcome: ProbeOutcome,
}

/// One SSH probe to run: connect to `ip:port` and complete a handshake within
/// `timeout_ms`.
pub struct SshProbe {
    pub ip: String,
    pub port: u16,
    pub user: String,
    pub timeout_ms: u64,
}

pub open spec fn report_ping_result(r: ProbeReport) -> PingResult {
    match r.outcome {
        ProbeOutcome::Reached { elapsed_ms } => PingResult {
            timestamp_ms: r.timestamp_ms,
            latency_ms: Some(elapsed_ms),
            success: true,
        },
        ProbeOutcome::Failed { .. } => PingResult {
            timestamp_ms: r.timestamp_ms,
            latency_ms: None,
            success: false,
        },
    }
}

pub open spec fn report_ssh_result(r: ProbeReport) -> SshResult {
    match r.outcome {
        ProbeOutcome::Reached { elapsed_ms } => SshResult {
            timestamp_ms: r.timestamp_ms,
            connection_time_ms: Some(elapsed_ms),
            success: true,
        },
        ProbeOutcome::Failed { .. } => SshResult {
            timestamp_ms: r.timestamp_ms,
            connection_time_ms: None,
            success: false,
        },
    }
}

/// The failure-log entry that a report adds: one for each failed probe.
pub open spec fn report_failure(r: ProbeReport) -> Option<FailureEntry> {
    match r.outcome {
        ProbeOutcome::Reached { .. } => None,
        ProbeOutcome::Failed { kind, reason } => Some(
            FailureEntry { timestamp_ms: r.timestamp_ms, failure_type: kind, reason },
        ),
    }
}

/// The failure log after a report.
pub open spec fn log_after(log: Seq<FailureEntry>, r: ProbeReport, cap: int) -> Seq<FailureEntry> {
    match report_failure(r) {
        Some(e) => bounded_push(log, e, cap),
        None => log,
    }
}

/// `after` is `before` with the ping report `r` folded in.
pub open spec fn ping_applied(before: TargetStats, after: TargetStats, r: ProbeReport, cap: int) -> bool {
    &&& after.target == before.target
    &&& after.ping_history@ == bounded_push(before.ping_history@, report_ping_result(r), cap)
    &&& stats_match(
        after.ping_stats,
        ping_samples(after.ping_history@),
        after.ping_history@.len() as int,
    )
    &&& after.ssh_history == before.ssh_history
    &&& after.ssh_stats == before.ssh_stats
    &&& after.failure_log@ == log_after(before.failure_log@, r, cap)
}

/// `after` is `before` with the SSH report `r` folded in.
pub open spec fn ssh_applied(before: TargetStats, after: TargetStats, r: ProbeReport, cap: int) -> bool {
    &&& after.target == before.target
    &&& after.ssh_history@ == bounded_push(before.ssh_history@, report_ssh_result(r), cap)
    &&& stats_match(
        after.ssh_stats,
        ssh_samples(after.ssh_history@),
        after.ssh_history@.len() as int,
    )
    &&& after.ping_history == before.ping_history
    &&& after.ping_stats == before.ping_stats
    &&& after.failure_log@ == log_after(before.failure_log@, r, cap)
}

/// `copy` holds the same state as `orig`.
pub open spec fn same_state(copy: TargetStats, orig: TargetStats) -> bool {
    &&& copy.target == orig.target
    &&& copy.ping_history@ == orig.ping_history@
    &&& copy.ssh_history@ == orig.ssh_history@
    &&& copy.failure_log@ == orig.failure_log@
    &&& copy.ping_stats == orig.ping_stats
    &&& copy.ssh_stats == orig.ssh_stats
}

/// A target's state after a cycle depends on its own report alone: two
/// cycles from the same state that hand target `i` the same report leave it
/// in the same state, whatever the probes of the other targets returned, and
/// however long they took.
pub proof fn lemma_fan_out_isolation(
    before: TargetStats,
    a1: TargetStats,
    a2: TargetStats,
    r: ProbeReport,
    cap: int,
)
    requires
        ping_applied(before, a1, r, cap) && ping_applied(before, a2, r, cap) || ssh_applied(
            before,
            a1,
            r,
            cap,
        ) && ssh_applied(before, a2, r, cap),
    ensures
        same_state(a1, a2),
{
}

fn ping_result_of(r: &ProbeReport) -> (p: PingResult)
    ensures
        p == report_ping_result(*r),
{
    match &r.outcome {
        ProbeOutcome::Reached { elapsed_ms } => PingResult {
            timestamp_ms: r.timestamp_ms,
            latency_ms: Some(*elapsed_ms),
            success: true,
        },
        ProbeOutcome::Failed { .. } => PingResult {
            timestamp_ms: r.timestamp_ms,
            latency_ms: None,
            success: false,
        },
    }
}

fn ssh_result_of(r: &ProbeReport) -> (s: SshResult)
    ensures
        s == report_ssh_result(*r),
{
    match &r.outcome {
        ProbeOutcome::Reached { elapsed_ms } => SshResult {
            timestamp_ms: r.timestamp_ms,
            connection_time_ms: Some(*elapsed_ms),
            success: true,
        },
        ProbeOutcome::Failed { .. } => SshResult {
            timestamp_ms: r.timestamp_ms,
            connection_time_ms: None,
            success: false,
        },
    }
}

fn failure_of(r: &ProbeReport) -> (f: Option<FailureEntry>)
    ensures
        f == report_failure(*r),
{
    match &r.outcome {
        ProbeOutcome::Reached { .. } => None,
        ProbeOutcome::Failed { kind, reason } => Some(
            FailureEntry { timestamp_ms: r.timestamp_ms, failure_type: *kind, reason: reason.clone() },
        ),
    }
}

fn copy_option_string(o: &Option<String>) -> (r: Option<String>)
    ensures
        r == *o,
{
    match o {
        Some(s) => Some(s.clone()),
        None => None,
    }
}

fn copy_target(t: &Target) -> (r: Target)
    ensures
        r == *t,
{
    Target {
        ip: t.ip.clone(),
        name: copy_option_string(&t.name),
        ssh_port: t.ssh_port,
        ssh_user: copy_option_string(&t.ssh_user),
    }
}

fn copy_deque<T: Copy>(d: &VecDeque<T>) -> (r: VecDeque<T>)
    ensures
        r@ == d@,
{
    let mut r: VecDeque<T> = VecDeque::new();
    let mut i: usize = 0;
    while i < d.len()
        invariant
            i <= d@.len(),
            r@ == d@.take(i as int),
        decreases d@.len() - i,
    {
        r.push_back(d[i]);
        i = i + 1;
    }
    assert(d@.take(d@.len() as int) == d@);
    r
}

fn copy_failure_log(d: &VecDeque<FailureEntry>) -> (r: VecDeque<FailureEntry>)
    ensures
        r@ == d@,
{
    let mut r: VecDeque<FailureEntry> = VecDeque::new();
    let mut i: usize = 0;
    while i < d.len()
        invariant
            i <= d@.len(),
            r@ == d@.take(i as int),
        decreases d@.len() - i,
    {
        let e = &d[i];
        r.push_back(
            FailureEntry {
                timestamp_ms: e.timestamp_ms,
                failure_type: e.failure_type,
                reason: e.reason.clone(),
            },
        );
        i = i + 1;
    }
    assert(d@.take(d@.len() as int) == d@);
    r
}

fn copy_target_stats(t: &TargetStats) -> (r: TargetStats)
    ensures
        same_state(r, *t),
{
    TargetStats {
        target: copy_target(&t.target),
        ping_history: copy_deque(&t.ping_history),
        ssh_history: copy_deque(&t.ssh_history),
        failure_log: copy_failure_log(&t.failure_log),
        ping_stats: t.ping_stats,
        ssh_stats: t.ssh_stats,
    }
}

/// The engine: every target's state, and the settings of the cycles.
pub struct Monitor {
    targets: Vec<TargetStats>,
    ping_interval_ms: u64,
    ssh_timeout_ms: u64,
    history_size: usize,
}

impl Monitor {
    pub closed spec fn targets_view(&self) -> Seq<TargetStats> {
        self.targets@
    }

    pub closed spec fn spec_ping_interval_ms(&self) -> u64 {
        self.ping_interval_ms
    }

    pub closed spec fn spec_ssh_timeout_ms(&self) -> u64 {
        self.ssh_timeout_ms
    }

    pub closed spec fn spec_history_size(&self) -> usize {
        self.history_size
    }

    /// Every target's cached statistics agree with its histories.
    pub open spec fn wf(&self) -> bool {
        forall|i: int| 0 <= i < self.targets_view().len() ==> (#[trigger] self.targets_view()[i]).wf()
    }

    /// One state per target, in the given order, with empty histories.
    pub fn new(targets: Vec<Target>, ping_interval_ms: u64, ssh_timeout_ms: u64, history_size: usize) -> (m: Monitor)
        ensures
            m.wf(),
            m.targets_view().len() == targets@.len(),
            forall|i: int| #![trigger m.targets_view()[i]]
                0 <= i < targets@.len() ==> {
                    let t = m.targets_view()[i];
                    &&& t.target == targets@[i]
                    &&& t.ping_history@.len() == 0
                    &&& t.ssh_history@.len() == 0
                    &&& t.failure_log@.len() == 0
                },
            m.spec_ping_interval_ms() == ping_interval_ms,
            m.spec_ssh_timeout_ms() == ssh_timeout_ms,
            m.spec_history_size() == history_size,
    {
        let ghost orig = targets@;
        let mut rest = targets;
        let mut states: Vec<TargetStats> = Vec::new();
        while rest.len() > 0
            invariant
                states@.len() + rest@.len() == orig.len(),
                rest@ == orig.skip(states@.len() as int),
                forall|i: int| #![trigger states@[i]]
                    0 <= i < states@.len() ==> {
                        let t = states@[i];
                        &&& t.target == orig[i]
                        &&& t.ping_history@.len() == 0
                        &&& t.ssh_history@.len() == 0
                        &&& t.failure_log@.len() == 0
                        &&& t.wf()
                    },
            decreases rest@.len(),
        {
            let target = rest.remove(0);
            states.push(TargetStats::new(target));
        }
        Monitor { targets: states, ping_interval_ms, ssh_timeout_ms, history_size }
    }

    pub fn get_targets(&self) -> (r: &[TargetStats])
        ensures
            r@ == self.targets_view(),
    {
        self.targets.as_slice()
    }

    pub fn ping_interval_ms(&self) -> (r: u64)
        ensures
            r == self.spec_ping_interval_ms(),
    {
        self.ping_interval_ms
    }

    /// The SSH cycle runs at five times the ping interval.
    pub fn ssh_interval_ms(&self) -> (r: u128)
        ensures
            r == 5 * self.spec_ping_interval_ms(),
    {
        5 * (self.ping_interval_ms as u128)
    }

    pub fn ssh_timeout_ms(&self) -> (r: u64)
        ensures
            r == self.spec_ssh_timeout_ms(),
    {
        self.ssh_timeout_ms
    }

    pub fn history_size(&self) -> (r: usize)
        ensures
            r == self.spec_history_size(),
    {
        self.history_size
    }

    /// The addresses to ping in this cycle: every target's, in target order.
    pub fn ping_plan(&self) -> (r: Vec<String>)
        ensures
            r@.len() == self.targets_view().len(),
            forall|i: int| 0 <= i < r@.len() ==> #[trigger] r@[i] == self.targets_view()[i].target.ip,
    {
        let mut r: Vec<String> = Vec::new();
        let mut i: usize = 0;
        while i < self.targets.len()
            invariant
                i <= self.targets@.len(),
                r@.len() == i,
                forall|j: int| 0 <= j < i ==> #[trigger] r@[j] == self.targets@[j].target.ip,
            decreases self.targets@.len() - i,
        {
            r.push(self.targets[i].target.ip.clone());
            i = i + 1;
        }
        r
    }

    /// The SSH probes of this cycle, one slot per target in target order: a
    /// probe for each target that has both an SSH port and user, with the
    /// configured timeout, and nothing for the others.
    pub fn ssh_plan(&self) -> (r: Vec<Option<SshProbe>>)
        ensures
            r@.len() == self.targets_view().len(),
            forall|i: int| #![trigger r@[i]]
                0 <= i < r@.len() ==> {
                    let t = self.targets_view()[i].target;
                    match r@[i] {
                        Some(p) => {
                            &&& t.ssh_eligible()
                            &&& p.ip == t.ip
                            &&& t.ssh_port == Some(p.port)
                            &&& t.ssh_user == Some(p.user)
                            &&& p.timeout_ms == self.spec_ssh_timeout_ms()
                        },
                        None => !t.ssh_eligible(),
                    }
                },
    {
        let mut r: Vec<Option<SshProbe>> = Vec::new();
        let mut i: usize = 0;
        while i < self.targets.len()
            invariant
                i <= self.targets@.len(),
                r@.len() == i,
                forall|j: int| #![trigger r@[j]]
                    0 <= j < i ==> {
                        let t = self.targets@[j].target;
                        match r@[j] {
                            Some(p) => {
                                &&& t.ssh_eligible()
                                &&& p.ip == t.ip
                                &&& t.ssh_port == Some(p.port)
                                &&& t.ssh_user == Some(p.user)
                                &&& p.timeout_ms == self.ssh_timeout_ms
                            },
                            None => !t.ssh_eligible(),
                        }
                    },
            decreases self.targets@.len() - i,
        {
            let t = &self.targets[i].target;
            let slot = match (&t.ssh_port, &t.ssh_user) {
                (Some(port), Some(user)) => Some(
                    SshProbe {
                        ip: t.ip.clone(),
                        port: *port,
                        user: user.clone(),
                        timeout_ms: self.ssh_timeout_ms,
                    },
                ),
                _ => None,
            };
            r.push(slot);
            i = i + 1;
        }
        r
    }

    /// Folds the joined reports of one ping cycle into the targets' state:
    /// `reports[i]` is target `i`'s. Each target gets its own report appended
    /// to its ping history, its ping statistics recomputed, and a failure-log
    /// entry when the probe failed; no report touches another target.
    pub fn run_ping_cycle(&mut self, reports: Vec<ProbeReport>)
        requires
            reports@.len() == old(self).targets_view().len(),
        ensures
            final(self).targets_view().len() == old(self).targets_view().len(),
            forall|i: int| #![trigger final(self).targets_view()[i]]
                0 <= i < reports@.len() ==> ping_applied(
                    old(self).targets_view()[i],
                    final(self).targets_view()[i],
                    reports@[i],
                    old(self).spec_history_size() as int,
                ),
            old(self).wf() ==> final(self).wf(),
            final(self).spec_ping_interval_ms() == old(self).spec_ping_interval_ms(),
            final(self).spec_ssh_timeout_ms() == old(self).spec_ssh_timeout_ms(),
            final(self).spec_history_size() == old(self).spec_history_size(),
    {
        let cap = self.history_size;
        let ghost before = self.targets@;
        let ghost interval = self.ping_interval_ms;
        let ghost timeout = self.ssh_timeout_ms;
        let mut i: usize = 0;
        while i < reports.len()
            invariant
                reports@.len() == before.len(),
                self.ping_interval_ms == interval,
                self.ssh_timeout_ms == timeout,
                self.targets@.len() == before.len(),
                i <= before.len(),
                cap == self.history_size,
                forall|j: int| #![trigger self.targets@[j]]
                    0 <= j < i ==> ping_applied(before[j], self.targets@[j], reports@[j], cap as int),
                forall|j: int| #![trigger self.targets@[j]] i <= j < before.len() ==> self.targets@[j] == before[j],
            decreases before.len() - i,
        {
            let report = &reports[i];
            let result = ping_result_of(report);
            let failure = failure_of(report);
            self.targets[i].add_ping_result(result, cap);
            if let Some(entry) = failure {
                self.targets[i].record_failure(entry, cap);
            }
            i = i + 1;
        }
    }

    /// Folds the joined reports of one SSH cycle into the targets' state:
    /// `reports[i]` is target `i`'s, if its probe ran. A target that has both
    /// an SSH port and user and a report gets it appended to its SSH history,
    /// its SSH statistics recomputed, and a failure-log entry when the probe
    /// failed; every other target stays as it was.
    pub fn run_ssh_cycle(&mut self, reports: Vec<Option<ProbeReport>>)
        requires
            reports@.len() == old(self).targets_view().len(),
        ensures
            final(self).targets_view().len() == old(self).targets_view().len(),
            forall|i: int| #![trigger final(self).targets_view()[i]]
                0 <= i < reports@.len() ==> match reports@[i] {
                    Some(r) => if old(self).targets_view()[i].target.ssh_eligible() {
                        ssh_applied(
                            old(self).targets_view()[i],
                            final(self).targets_view()[i],
                            r,
                            old(self).spec_history_size() as int,
                        )
                    } else {
                        final(self).targets_view()[i] == old(self).targets_view()[i]
                    },
                    None => final(self).targets_view()[i] == old(self).targets_view()[i],
                },
            old(self).wf() ==> final(self).wf(),
            final(self).spec_ping_interval_ms() == old(self).spec_ping_interval_ms(),
            final(self).spec_ssh_timeout_ms() == old(self).spec_ssh_timeout_ms(),
            final(self).spec_history_size() == old(self).spec_history_size(),
    {
        let cap = self.history_size;
        let ghost before = self.targets@;
        let ghost interval = self.ping_interval_ms;
        let ghost timeout = self.ssh_timeout_ms;
        let mut i: usize = 0;
        while i < reports.len()
            invariant
                reports@.len() == before.len(),
                self.ping_interval_ms == interval,
                self.ssh_timeout_ms == timeout,
                self.targets@.len() == before.len(),
                i <= before.len(),
                cap == self.history_size,
                forall|j: int| #![trigger self.targets@[j]]
                    0 <= j < i ==> match reports@[j] {
                        Some(r) => if before[j].target.ssh_eligible() {
                            ssh_applied(before[j], self.targets@[j], r, cap as int)
                        } else {
                            self.targets@[j] == before[j]
                        },
                        None => self.targets@[j] == before[j],
                    },
                forall|j: int| #![trigger self.targets@[j]] i <= j < before.len() ==> self.targets@[j] == before[j],
            decreases before.len() - i,
        {
            if let Some(report) = &reports[i] {
                if self.targets[i].target.is_ssh_enabled() {
                    let result = ssh_result_of(report);
                    let failure = failure_of(report);
                    self.targets[i].add_ssh_result(result, cap);
                    if let Some(entry) = failure {
                        self.targets[i].record_failure(entry, cap);
                    }
                }
            }
            i = i + 1;
        }
    }

    /// A full copy of every target's state, for publishing to readers.
    pub fn snapshot(&self) -> (r: Vec<TargetStats>)
        ensures
            r@.len() == self.targets_view().len(),
            forall|i: int| 0 <= i < r@.len() ==> same_state(#[trigger] r@[i], self.targets_view()[i]),
    {
        let mut r: Vec<TargetStats> = Vec::new();
        let mut i: usize = 0;
        while i < self.targets.len()
            invariant
                i <= self.targets@.len(),
                r@.len() == i,
                forall|j: int| 0 <= j < i ==> same_state(#[trigger] r@[j], self.targets@[j]),
            decreases self.targets@.len() - i,
        {
            r.push(copy_target_stats(&self.targets[i]));
            i = i + 1;
        }
        r
    }
}

} // verus!
