//! Per-target state: bounded probe histories, their statistics and the
//! failure log.
use std::collections::VecDeque;
use vstd::prelude::*;

use crate::config::Target;
use crate::stats::{calculate_statistics, is_statistics_of, Statistics};

verus! {

/// Outcome of one ICMP probe.
#[derive(Clone, Copy, Debug, PartialEq, Eq, Structural)]
pub struct PingResult {
    /// When the probe started, in milliseconds since the Unix epoch (UTC).
    pub timestamp_ms: i64,
    /// Round-trip time in whole milliseconds, present on success.
    pub latency_ms: Option<u64>,
    pub success: bool,
}

/// Outcome of one SSH handshake probe.
#[derive(Clone, Copy, Debug, PartialEq, Eq, Structural)]
pub struct SshResult {
    /// When the probe started, in milliseconds since the Unix epoch (UTC).
    pub timestamp_ms: i64,
    /// Time from the start of the connection to the end of the handshake,
    /// present on success.
    pub connection_time_ms: Option<u64>,
    pub success: bool,
}

/// Why a probe failed.
#[derive(Clone, Copy, Debug, PartialEq, Eq, Structural)]
pub enum FailureKind {
    /// The address is not an IP address.
    PingAddressInvalid,
    /// No ICMP client could be set up.
    PingClientUnavailable,
    /// No echo reply came back.
    PingUnreachable,
    /// The echo reply did not come back in time.
    PingTimeout,
    /// The SSH probe did not finish in time.
    SshTimeout,
    /// No TCP connection could be opened.
    SshConnectFailed,
    /// The SSH handshake failed.
    SshHandshakeFailed,
    /// The worker running the probe ended without a result.
    ProbeAborted,
}

pub open spec fn failure_tag(k: FailureKind) -> Seq<char> {
    match k {
        FailureKind::PingAddressInvalid => "ping-address-invalid"@,
        FailureKind::PingClientUnavailable => "ping-client-unavailable"@,
        FailureKind::PingUnreachable => "ping-unreachable"@,
        FailureKind::PingTimeout => "ping-timeout"@,
        FailureKind::SshTimeout => "ssh-timeout"@,
        FailureKind::SshConnectFailed => "ssh-connect-failed"@,
        FailureKind::SshHandshakeFailed => "ssh-handshake-failed"@,
        FailureKind::ProbeAborted => "probe-aborted"@,
    }
}

impl FailureKind {
    /// The stable tag of this kind of failure.
    pub fn tag(&self) -> (r: &'static str)
        ensures
            r@ == failure_tag(*self),
    {
        match self {
            FailureKind::PingAddressInvalid => "ping-address-invalid",
            FailureKind::PingClientUnavailable => "ping-client-unavailable",
            FailureKind::PingUnreachable => "ping-unreachable",
            FailureKind::PingTimeout => "ping-timeout",
            FailureKind::SshTimeout => "ssh-timeout",
            FailureKind::SshConnectFailed => "ssh-connect-failed",
            FailureKind::SshHandshakeFailed => "ssh-handshake-failed",
            FailureKind::ProbeAborted => "probe-aborted",
        }
    }
}

/// One recorded probe failure.
pub struct FailureEntry {
    /// When the probe started, in milliseconds since the Unix epoch (UTC).
    pub timestamp_ms: i64,
    pub failure_type: FailureKind,
    /// Human-readable detail.
    pub reason: String,
}

/// `s` with `x` appended, after dropping its oldest entry when it already
/// holds `cap` entries or more.
pub open spec fn bounded_push<T>(s: Seq<T>, x: T, cap: int) -> Seq<T> {
    if s.len() >= cap && s.len() > 0 {
        s.drop_first().push(x)
    } else {
        s.push(x)
    }
}

/// `s` after appending each of `xs` in turn, oldest first.
pub open spec fn push_all<T>(s: Seq<T>, xs: Seq<T>, cap: int) -> Seq<T>
    decreases xs.len(),
{
    if xs.len() == 0 {
        s
    } else {
        bounded_push(push_all(s, xs.drop_last(), cap), xs.last(), cap)
    }
}

/// The latencies that the results of a ping history carry, in order.
pub open spec fn ping_samples(h: Seq<PingResult>) -> Seq<u64>
    decreases h.len(),
{
    if h.len() == 0 {
        Seq::empty()
    } else {
        let rest = ping_samples(h.drop_last());
        match h.last().latency_ms {
            Some(ms) => rest.push(ms),
            None => rest,
        }
    }
}

/// The connection times that the results of an SSH history carry, in order.
pub open spec fn ssh_samples(h: Seq<SshResult>) -> Seq<u64>
    decreases h.len(),
{
    if h.len() == 0 {
        Seq::empty()
    } else {
        let rest = ssh_samples(h.drop_last());
        match h.last().connection_time_ms {
            Some(ms) => rest.push(ms),
            None => rest,
        }
    }
}

/// The cached statistics of a window: none while it holds no sample, else the
/// summary of its samples over all of its entries.
pub open spec fn stats_match(o: Option<Statistics>, samples: Seq<u64>, total: int) -> bool {
    if samples.len() == 0 {
        o is None
    } else {
        o is Some && is_statistics_of(o->0, samples, total)
    }
}

/// Appending to a bounded window, in place.
fn push_bounded<T>(v: &mut VecDeque<T>, x: T, cap: usize)
    ensures
        final(v)@ == bounded_push(old(v)@, x, cap as int),
{
    if v.len() >= cap && v.len() > 0 {
        let _ = v.pop_front();
    }
    v.push_back(x);
}

/// Everything that one target has accumulated.
pub struct TargetStats {
    pub target: Target,
    pub ping_history: VecDeque<PingResult>,
    pub ssh_history: VecDeque<SshResult>,
    pub failure_log: VecDeque<FailureEntry>,
    pub ping_stats: Option<Statistics>,
    pub ssh_stats: Option<Statistics>,
}

impl TargetStats {
    /// Both cached statistics agree with their histories.
    pub open spec fn wf(&self) -> bool {
        &&& stats_match(
            self.ping_stats,
            ping_samples(self.ping_history@),
            self.ping_history@.len() as int,
        )
        &&& stats_match(
            self.ssh_stats,
            ssh_samples(self.ssh_history@),
            self.ssh_history@.len() as int,
        )
    }

    /// A target with nothing recorded yet. Its histories grow as results
    /// come in, up to the capacity given with each result.
    pub fn new(target: Target) -> (r: TargetStats)
        ensures
            r.target == target,
            r.ping_history@.len() == 0,
            r.ssh_history@.len() == 0,
            r.failure_log@.len() == 0,
            r.ping_stats is None,
            r.ssh_stats is None,
            r.wf(),
    {
        TargetStats {
            target,
            ping_history: VecDeque::new(),
            ssh_history: VecDeque::new(),
            failure_log: VecDeque::new(),
            ping_stats: None,
            ssh_stats: None,
        }
    }

    /// Appends a ping result, evicting the oldest one when the history holds
    /// `max_history` results, and recomputes the ping statistics.
    pub fn add_ping_result(&mut self, result: PingResult, max_history: usize)
        ensures
            final(self).ping_history@ == bounded_push(old(self).ping_history@, result, max_history as int),
            stats_match(
                final(self).ping_stats,
                ping_samples(final(self).ping_history@),
                final(self).ping_history@.len() as int,
            ),
            final(self).target == old(self).target,
            final(self).ssh_history == old(self).ssh_history,
            final(self).ssh_stats == old(self).ssh_stats,
            final(self).failure_log == old(self).failure_log,
    {
        push_bounded(&mut self.ping_history, result, max_history);
        self.update_ping_stats();
    }

    /// Appends an SSH result, evicting the oldest one when the history holds
    /// `max_history` results, and recomputes the SSH statistics.
    pub fn add_ssh_result(&mut self, result: SshResult, max_history: usize)
        ensures
            final(self).ssh_history@ == bounded_push(old(self).ssh_history@, result, max_history as int),
            stats_match(
                final(self).ssh_stats,
                ssh_samples(final(self).ssh_history@),
                final(self).ssh_history@.len() as int,
            ),
            final(self).target == old(self).target,
            final(self).ping_history == old(self).ping_history,
            final(self).ping_stats == old(self).ping_stats,
            final(self).failure_log == old(self).failure_log,
    {
        push_bounded(&mut self.ssh_history, result, max_history);
        self.update_ssh_stats();
    }

    /// Appends to the failure log, evicting its oldest entry when it holds
    /// `max_history` entries.
    pub fn record_failure(&mut self, entry: FailureEntry, max_history: usize)
        ensures
            final(self).failure_log@ == bounded_push(old(self).failure_log@, entry, max_history as int),
            final(self).target == old(self).target,
            final(self).ping_history == old(self).ping_history,
            final(self).ssh_history == old(self).ssh_history,
            final(self).ping_stats == old(self).ping_stats,
            final(self).ssh_stats == old(self).ssh_stats,
    {
        push_bounded(&mut self.failure_log, entry, max_history);
    }

    fn update_ping_stats(&mut self)
        ensures
            stats_match(
                final(self).ping_stats,
                ping_samples(final(self).ping_history@),
                final(self).ping_history@.len() as int,
            ),
            final(self).target == old(self).target,
            final(self).ping_history == old(self).ping_history,
            final(self).ssh_history == old(self).ssh_history,
            final(self).ssh_stats == old(self).ssh_stats,
            final(self).failure_log == old(self).failure_log,
    {
        let mut samples: Vec<u64> = Vec::new();
        let mut i: usize = 0;
        while i < self.ping_history.len()
            invariant
                i <= self.ping_history@.len(),
                samples@ == ping_samples(self.ping_history@.take(i as int)),
            decreases self.ping_history@.len() - i,
        {
            assert(self.ping_history@.take(i as int + 1).drop_last() == self.ping_history@.take(
                i as int,
            ));
            if let Some(ms) = self.ping_history[i].latency_ms {
                samples.push(ms);
            }
            i = i + 1;
        }
        assert(self.ping_history@.take(self.ping_history@.len() as int) == self.ping_history@);
        if samples.len() == 0 {
            self.ping_stats = None;
        } else {
            self.ping_stats = Some(calculate_statistics(samples.as_slice(), self.ping_history.len()));
        }
    }

    fn update_ssh_stats(&mut self)
        ensures
            stats_match(
                final(self).ssh_stats,
                ssh_samples(final(self).ssh_history@),
                final(self).ssh_history@.len() as int,
            ),
            final(self).target == old(self).target,
            final(self).ping_history == old(self).ping_history,
            final(self).ssh_history == old(self).ssh_history,
            final(self).ping_stats == old(self).ping_stats,
            final(self).failure_log == old(self).failure_log,
    {
        let mut samples: Vec<u64> = Vec::new();
        let mut i: usize = 0;
        while i < self.ssh_history.len()
            invariant
                i <= self.ssh_history@.len(),
                samples@ == ssh_samples(self.ssh_history@.take(i as int)),
            decreases self.ssh_history@.len() - i,
        {
            assert(self.ssh_history@.take(i as int + 1).drop_last() == self.ssh_history@.take(
                i as int,
            ));
            if let Some(ms) = self.ssh_history[i].connection_time_ms {
                samples.push(ms);
            }
            i = i + 1;
        }
        assert(self.ssh_history@.take(self.ssh_history@.len() as int) == self.ssh_history@);
        if samples.len() == 0 {
            self.ssh_stats = None;
        } else {
            self.ssh_stats = Some(calculate_statistics(samples.as_slice(), self.ssh_history.len()));
        }
    }
}

/// Inserting `xs` one by one, oldest first, into a window `s` of capacity
/// `cap` leaves exactly the last `cap` entries of `s` followed by `xs`, in
/// their order of insertion.
pub proof fn lemma_fifo_eviction<T>(s: Seq<T>, xs: Seq<T>, cap: int)
    requires
        cap >= 1,
        s.len() <= cap,
    ensures
        push_all(s, xs, cap) == (s + xs).subrange(
            if s.len() + xs.len() > cap { s.len() + xs.len() - cap } else { 0 },
            (s.len() + xs.len()) as int,
        ),
    decreases xs.len(),
{
    let all = s + xs;
    let n: int = (s.len() + xs.len()) as int;
    if xs.len() == 0 {
        assert(all.subrange(0, n) == s);
    } else {
        let prev = xs.drop_last();
        lemma_fifo_eviction(s, prev, cap);
        let m = n - 1;
        let start = if m > cap { m - cap } else { 0 };
        assert((s + prev) == all.subrange(0, m));
        let before = push_all(s, prev, cap);
        assert(before == all.subrange(start, m));
        if m >= cap {
            assert(before.drop_first().push(xs.last()) == all.subrange(n - cap, n));
        } else {
            assert(before.push(xs.last()) == all.subrange(0, n));
        }
    }
}

/// With statistics present, the success rate of a window is exactly its
/// samples over its entries, in percent: its numerator is a hundred times
/// the number of results that carry a measurement, its denominator the
/// length of the history.
pub proof fn lemma_success_rate_exact(ts: TargetStats)
    requires
        ts.wf(),
    ensures
        ts.ping_stats matches Some(st) ==> st.success_rate.num == 100 * ping_samples(
            ts.ping_history@,
        ).len() && st.success_rate.den == ts.ping_history@.len() && st.total_count
            == ts.ping_history@.len(),
        ts.ssh_stats matches Some(st) ==> st.success_rate.num == 100 * ssh_samples(
            ts.ssh_history@,
        ).len() && st.success_rate.den == ts.ssh_history@.len() && st.total_count
            == ts.ssh_history@.len(),
{
    lemma_ping_samples_len(ts.ping_history@);
    lemma_ssh_samples_len(ts.ssh_history@);
    assert(ts.ping_history.len() == ts.ping_history@.len());
    assert(ts.ssh_history.len() == ts.ssh_history@.len());
}

pub proof fn lemma_ping_samples_len(h: Seq<PingResult>)
    ensures
        ping_samples(h).len() <= h.len(),
    decreases h.len(),
{
    if h.len() > 0 {
        lemma_ping_samples_len(h.drop_last());
    }
}

pub proof fn lemma_ssh_samples_len(h: Seq<SshResult>)
    ensures
        ssh_samples(h).len() <= h.len(),
    decreases h.len(),
{
    if h.len() > 0 {
        lemma_ssh_samples_len(h.drop_last());
    }
}

} // verus!
