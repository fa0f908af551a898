//! Result aggregation: the single consumer of the outcome stream.  It
//! applies the filter policy per mode, deduplicates by a normalized identity
//! key, accumulates the accepted results in arrival order, counts completed
//! probes for throughput, and decides when an error escalates to a full-run
//! cancellation.

use crate::bytes::bytes_eq;
use crate::candidates::Mode;
use crate::filter::{accepts, accepts_exec, FilterPolicy, FilterPolicyView};
use vstd::prelude::*;

verus! {

/// The raw result of executing one candidate, produced exactly once per
/// candidate and sent once through the result channel.
pub struct ProbeOutcome {
    pub mode: Mode,
    /// Candidate identity: the URL for path and fuzz probes, the absolute
    /// domain for DNS probes, the probed virtual host for vhost probes.
    pub identity: Vec<u8>,
    /// HTTP method used; empty for DNS probes.
    pub method: Vec<u8>,
    /// Numeric HTTP status code; unused for DNS probes.
    pub status: u16,
    /// DNS only: at least one address record resolved.
    pub resolved: bool,
    /// Textual form of the addresses a DNS probe resolved.
    pub resolved_addresses: Vec<Vec<u8>>,
    /// Body excerpt, captured when body filtering is configured.
    pub body_excerpt: Option<Vec<u8>>,
    /// Vhost only: the response body contained a configured ignore-string.
    pub ignored: bool,
    /// Time the probe took, in milliseconds.
    pub elapsed_ms: u64,
    /// A connection-level failure, captured into the outcome rather than
    /// raised across the worker boundary.
    pub error: Option<Vec<u8>>,
}

/// Mathematical shape of a probe outcome.
pub ghost struct OutcomeView {
    pub mode: Mode,
    pub identity: Seq<u8>,
    pub method: Seq<u8>,
    pub status: u16,
    pub resolved: bool,
    pub resolved_addresses: Seq<Seq<u8>>,
    pub body_excerpt: Option<Seq<u8>>,
    pub ignored: bool,
    pub elapsed_ms: u64,
    pub error: Option<Seq<u8>>,
}

impl View for ProbeOutcome {
    type V = OutcomeView;

    open spec fn view(&self) -> OutcomeView {
        OutcomeView {
            mode: self.mode,
            identity: self.identity@,
            method: self.method@,
            status: self.status,
            resolved: self.resolved,
            resolved_addresses: self.resolved_addresses.deep_view(),
            body_excerpt: self.body_excerpt.deep_view(),
            ignored: self.ignored,
            elapsed_ms: self.elapsed_ms,
            error: self.error.deep_view(),
        }
    }
}

/// The body excerpt, or empty when none was captured.
pub open spec fn body_or_empty(o: OutcomeView) -> Seq<u8> {
    match o.body_excerpt {
        Some(b) => b,
        None => Seq::empty(),
    }
}

/// Per-mode acceptance: path and fuzz outcomes go through the filter
/// policy; a DNS outcome is accepted when it resolved; a vhost outcome when
/// its body carried no ignore-string.
pub open spec fn outcome_accepted(p: FilterPolicyView, o: OutcomeView) -> bool {
    match o.mode {
        Mode::Path => accepts(p, o.status, body_or_empty(o)),
        Mode::Fuzz => accepts(p, o.status, body_or_empty(o)),
        Mode::Dns => o.resolved,
        Mode::Vhost => !o.ignored,
    }
}

/// The normalized dedup identity key: method, status and target for path
/// and fuzz probes; the domain for DNS probes; the virtual host for vhost
/// probes.
pub open spec fn key_of(o: OutcomeView) -> (Seq<u8>, u16, Seq<u8>) {
    match o.mode {
        Mode::Path => (o.method, o.status, o.identity),
        Mode::Fuzz => (o.method, o.status, o.identity),
        Mode::Dns => (Seq::empty(), 0u16, o.identity),
        Mode::Vhost => (Seq::empty(), 0u16, o.identity),
    }
}

/// Some result with this key is already recorded.
pub open spec fn has_key(s: Seq<ProbeOutcome>, k: (Seq<u8>, u16, Seq<u8>)) -> bool {
    exists|i: int| 0 <= i < s.len() && key_of(s[i]@) == k
}

/// Whether a line is printed for this outcome: path results when newly
/// accepted; fuzz results whenever they pass the filter, deduplicated or
/// not (a cartesian product may hit the same effective URL from different
/// placeholder bindings, and those hits stay visible); every resolved DNS
/// probe; every vhost probe not ignored.
pub open spec fn displayed(o: OutcomeView, passed: bool, added: bool) -> bool {
    match o.mode {
        Mode::Path => added,
        Mode::Fuzz => passed,
        Mode::Dns => o.resolved,
        Mode::Vhost => !o.ignored,
    }
}

/// Compare the normalized identity keys of two outcomes.
pub fn same_key(a: &ProbeOutcome, b: &ProbeOutcome) -> (r: bool)
    ensures
        r == (key_of(a@) == key_of(b@)),
{
    let empty_a: Vec<u8> = Vec::new();
    let empty_b: Vec<u8> = Vec::new();
    let a_http = match a.mode {
        Mode::Path | Mode::Fuzz => true,
        _ => false,
    };
    let b_http = match b.mode {
        Mode::Path | Mode::Fuzz => true,
        _ => false,
    };
    let ma = if a_http {
        a.method.as_slice()
    } else {
        empty_a.as_slice()
    };
    let mb = if b_http {
        b.method.as_slice()
    } else {
        empty_b.as_slice()
    };
    let sa: u16 = if a_http {
        a.status
    } else {
        0
    };
    let sb: u16 = if b_http {
        b.status
    } else {
        0
    };
    proof {
        assert(key_of(a@) == (ma@, sa, a@.identity));
        assert(key_of(b@) == (mb@, sb, b@.identity));
    }
    let meq = bytes_eq(ma, mb);
    let ieq = bytes_eq(a.identity.as_slice(), b.identity.as_slice());
    meq && sa == sb && ieq
}

/// Whether a result with the same key as `o` is already recorded.
fn find_key(accepted: &Vec<ProbeOutcome>, o: &ProbeOutcome) -> (r: bool)
    ensures
        r == has_key(accepted@, key_of(o@)),
{
    let mut i: usize = 0;
    while i < accepted.len()
        invariant
            i <= accepted@.len(),
            forall|j: int| 0 <= j < i ==> key_of((#[trigger] accepted@[j])@) != key_of(o@),
        decreases accepted@.len() - i,
    {
        if same_key(&accepted[i], o) {
            proof {
                assert(key_of(accepted@[i as int]@) == key_of(o@));
            }
            return true;
        }
        i += 1;
    }
    false
}

/// Run statistics, mutated only by the aggregator's single consuming
/// thread.
#[derive(Clone, Copy, PartialEq, Eq, Structural, Debug)]
pub struct RunStats {
    pub dispatched_count: u64,
    pub completed_count: u64,
}

/// Probes per second, or nothing while the elapsed clock still reads zero
/// seconds (the warming-up state).
pub fn throughput(completed: u64, elapsed_seconds: u64) -> (r: Option<u64>)
    ensures
        elapsed_seconds == 0 ==> r is None,
        elapsed_seconds > 0 ==> r == Some(completed / elapsed_seconds),
{
    if elapsed_seconds == 0 {
        None
    } else {
        Some(completed / elapsed_seconds)
    }
}

/// Why a run is stopped before its candidates run out.
#[derive(Clone, Copy, PartialEq, Eq, Structural, Debug)]
pub enum CancelReason {
    /// The very first outcome of the run was a connection failure: the
    /// target looks unreachable.
    TargetUnreachable,
    /// A connection failure arrived and exit-on-error is configured.
    ExitOnErrorConfigured,
}

/// What the driver loop should do with the outcome it just handed in.
#[derive(Clone, Copy, PartialEq, Eq, Structural, Debug)]
pub struct Directive {
    /// The outcome was appended to the accepted results.
    pub accepted: bool,
    /// A human-readable line should be printed for this outcome.
    pub display: bool,
    /// Cancellation should be raised: no new candidates may start.
    pub cancel: bool,
    /// Why cancellation was raised, when it was.
    pub reason: Option<CancelReason>,
}

/// The aggregator's state: policy, accepted results in arrival order, and
/// run statistics.
pub struct ScanSession {
    pub policy: FilterPolicy,
    /// Escalate any connection error to a full-run cancellation.
    pub exit_on_error: bool,
    pub accepted: Vec<ProbeOutcome>,
    pub stats: RunStats,
}

impl ScanSession {
    /// Dedup invariant: no two accepted results share a key, and every
    /// accepted result passed the per-mode acceptance rule.
    pub open spec fn wf(self) -> bool {
        &&& forall|i: int, j: int|
            0 <= i < j < self.accepted@.len() ==> key_of((#[trigger] self.accepted@[i])@)
                != key_of((#[trigger] self.accepted@[j])@)
        &&& forall|i: int|
            0 <= i < self.accepted@.len() ==> outcome_accepted(
                self.policy@,
                (#[trigger] self.accepted@[i])@,
            )
    }

    /// A fresh session: nothing accepted, counters at zero.
    pub fn new(policy: FilterPolicy, exit_on_error: bool) -> (s: ScanSession)
        ensures
            s.wf(),
            s.policy == policy,
            s.exit_on_error == exit_on_error,
            s.accepted@.len() == 0,
            s.stats == (RunStats { dispatched_count: 0, completed_count: 0 }),
    {
        ScanSession {
            policy,
            exit_on_error,
            accepted: Vec::new(),
            stats: RunStats { dispatched_count: 0, completed_count: 0 },
        }
    }

    /// Record how many candidates have been handed to workers so far.
    pub fn note_dispatched(&mut self, n: u64)
        requires
            old(self).wf(),
        ensures
            final(self).wf(),
            final(self).policy == old(self).policy,
            final(self).exit_on_error == old(self).exit_on_error,
            final(self).accepted@ == old(self).accepted@,
            final(self).stats.completed_count == old(self).stats.completed_count,
            final(self).stats.dispatched_count == n,
    {
        self.stats.dispatched_count = n;
    }

    /// Consume one outcome.  An error outcome is reported and escalates to
    /// cancellation when it is the very first outcome of the run or when
    /// exit-on-error is configured.  Any other outcome goes through the
    /// per-mode acceptance rule and the dedup check; an accepted, new result
    /// is appended in arrival order.
    pub fn process_outcome(&mut self, o: ProbeOutcome) -> (d: Directive)
        requires
            old(self).wf(),
            old(self).stats.completed_count < u64::MAX,
        ensures
            final(self).wf(),
            final(self).policy == old(self).policy,
            final(self).exit_on_error == old(self).exit_on_error,
            final(self).stats.dispatched_count == old(self).stats.dispatched_count,
            final(self).stats.completed_count == old(self).stats.completed_count + 1,
            o@.error is Some ==> ({
                &&& final(self).accepted@ == old(self).accepted@
                &&& !d.accepted
                &&& !d.display
                &&& d.cancel == (old(self).stats.completed_count == 0 || old(self).exit_on_error)
                &&& d.reason == (if old(self).stats.completed_count == 0 {
                    Some(CancelReason::TargetUnreachable)
                } else if old(self).exit_on_error {
                    Some(CancelReason::ExitOnErrorConfigured)
                } else {
                    None::<CancelReason>
                })
            }),
            o@.error is None ==> ({
                &&& !d.cancel
                &&& d.reason is None
                &&& d.accepted == (outcome_accepted(old(self).policy@, o@) && !has_key(
                    old(self).accepted@,
                    key_of(o@),
                ))
                &&& d.display == displayed(o@, outcome_accepted(old(self).policy@, o@), d.accepted)
                &&& (d.accepted ==> final(self).accepted@ == old(self).accepted@.push(o))
                &&& (!d.accepted ==> final(self).accepted@ == old(self).accepted@)
            }),
    {
        let first = self.stats.completed_count == 0;
        self.stats.completed_count = self.stats.completed_count + 1;
        if o.error.is_some() {
            let reason = if first {
                Some(CancelReason::TargetUnreachable)
            } else if self.exit_on_error {
                Some(CancelReason::ExitOnErrorConfigured)
            } else {
                None
            };
            return Directive {
                accepted: false,
                display: false,
                cancel: first || self.exit_on_error,
                reason,
            };
        }
        let empty_body: Vec<u8> = Vec::new();
        proof {
            crate::candidates::lemma_opt_bytes_deep_view(o.body_excerpt);
        }
        let pass = match o.mode {
            Mode::Path | Mode::Fuzz => {
                let body = match &o.body_excerpt {
                    Some(b) => b.as_slice(),
                    None => empty_body.as_slice(),
                };
                accepts_exec(&self.policy, o.status, body)
            },
            Mode::Dns => o.resolved,
            Mode::Vhost => !o.ignored,
        };
        proof {
            assert(pass == outcome_accepted(self.policy@, o@));
        }
        let dup = find_key(&self.accepted, &o);
        let added = pass && !dup;
        let disp = match o.mode {
            Mode::Path => added,
            Mode::Fuzz => pass,
            Mode::Dns => o.resolved,
            Mode::Vhost => !o.ignored,
        };
        if added {
            let ghost acc0 = self.accepted@;
            let ghost ov = o@;
            self.accepted.push(o);
            proof {
                assert forall|i: int, j: int|
                    0 <= i < j < self.accepted@.len() implies key_of(
                    (#[trigger] self.accepted@[i])@,
                ) != key_of((#[trigger] self.accepted@[j])@) by {
                    if j < acc0.len() {
                        assert(self.accepted@[i] == acc0[i]);
                        assert(self.accepted@[j] == acc0[j]);
                    } else {
                        assert(self.accepted@[i] == acc0[i]);
                        assert(self.accepted@[j]@ == ov);
                        if key_of(acc0[i]@) == key_of(ov) {
                            assert(has_key(acc0, key_of(ov)));
                            assert(false);
                        }
                    }
                }
                assert forall|i: int| 0 <= i < self.accepted@.len() implies outcome_accepted(
                    self.policy@,
                    (#[trigger] self.accepted@[i])@,
                ) by {
                    if i < acc0.len() {
                        assert(self.accepted@[i] == acc0[i]);
                    } else {
                        assert(self.accepted@[i]@ == ov);
                    }
                }
            }
        }
        Directive { accepted: added, display: disp, cancel: false, reason: None }
    }
}

} // verus!
