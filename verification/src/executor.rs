//! Probe outcome construction: the executor's reduction of a raw network
//! result to a structured outcome.  The network exchange itself happens
//! outside; these functions own every decision about what an outcome
//! carries: which identity it reports, when the body excerpt is kept, the
//! probe-time ignore-string evaluation of vhost mode, and the capture of
//! failures into the outcome value rather than raised control flow.

use crate::candidates::{clone_bytes, lemma_opt_bytes_deep_view, Candidate, CandidateView, Mode};
use crate::filter::{contains_any, contains_any_exec};
use crate::session::{OutcomeView, ProbeOutcome};
use vstd::prelude::*;

verus! {

/// The identity an outcome reports: the probed virtual host for vhost
/// candidates, the candidate identity otherwise.
pub open spec fn outcome_identity(c: CandidateView) -> Seq<u8> {
    if c.mode == Mode::Vhost {
        match c.host_override {
            Some(h) => h,
            None => c.identity,
        }
    } else {
        c.identity
    }
}

/// The outcome of a completed HTTP exchange.
pub open spec fn http_outcome_spec(
    c: CandidateView,
    status: u16,
    body: Seq<u8>,
    want_body: bool,
    ignores: Seq<Seq<u8>>,
    elapsed_ms: u64,
) -> OutcomeView {
    OutcomeView {
        mode: c.mode,
        identity: outcome_identity(c),
        method: c.method,
        status,
        resolved: false,
        resolved_addresses: Seq::empty(),
        body_excerpt: if want_body {
            Some(body)
        } else {
            None
        },
        ignored: c.mode == Mode::Vhost && contains_any(body, ignores),
        elapsed_ms,
        error: None,
    }
}

/// Reduce a completed HTTP exchange to its outcome.  The body excerpt is
/// kept only when body filtering asked for it; a vhost probe evaluates its
/// ignore-strings against the body here, at probe time, because the filter
/// needs the body and not just the status.
pub fn http_outcome(
    c: &Candidate,
    status: u16,
    body: Vec<u8>,
    want_body: bool,
    ignores: &Vec<Vec<u8>>,
    elapsed_ms: u64,
) -> (o: ProbeOutcome)
    ensures
        o@ == http_outcome_spec(c@, status, body@, want_body, ignores.deep_view(), elapsed_ms),
{
    let is_vhost = match c.mode {
        Mode::Vhost => true,
        _ => false,
    };
    proof {
        lemma_opt_bytes_deep_view(c.host_override);
    }
    let identity = if is_vhost {
        match &c.host_override {
            Some(h) => clone_bytes(h),
            None => clone_bytes(&c.identity),
        }
    } else {
        clone_bytes(&c.identity)
    };
    let ignored = is_vhost && contains_any_exec(body.as_slice(), ignores);
    let ghost bv = body@;
    let body_excerpt = if want_body {
        Some(body)
    } else {
        None
    };
    let o = ProbeOutcome {
        mode: c.mode,
        identity,
        method: clone_bytes(&c.method),
        status,
        resolved: false,
        resolved_addresses: Vec::new(),
        body_excerpt,
        ignored,
        elapsed_ms,
        error: None,
    };
    proof {
        lemma_opt_bytes_deep_view(o.body_excerpt);
        lemma_opt_bytes_deep_view(o.error);
        assert(o.resolved_addresses.deep_view() =~= Seq::<Seq<u8>>::empty());
    }
    o
}

/// The outcome of a DNS resolution: resolved when at least one address
/// record came back.
pub open spec fn dns_outcome_spec(
    c: CandidateView,
    addresses: Seq<Seq<u8>>,
    elapsed_ms: u64,
) -> OutcomeView {
    OutcomeView {
        mode: c.mode,
        identity: c.identity,
        method: c.method,
        status: 0,
        resolved: addresses.len() > 0,
        resolved_addresses: addresses,
        body_excerpt: None,
        ignored: false,
        elapsed_ms,
        error: None,
    }
}

/// Reduce a DNS resolution to its outcome.
pub fn dns_outcome(c: &Candidate, addresses: Vec<Vec<u8>>, elapsed_ms: u64) -> (o: ProbeOutcome)
    ensures
        o@ == dns_outcome_spec(c@, addresses.deep_view(), elapsed_ms),
{
    let resolved = addresses.len() > 0;
    let o = ProbeOutcome {
        mode: c.mode,
        identity: clone_bytes(&c.identity),
        method: clone_bytes(&c.method),
        status: 0,
        resolved,
        resolved_addresses: addresses,
        body_excerpt: None,
        ignored: false,
        elapsed_ms,
        error: None,
    };
    proof {
        lemma_opt_bytes_deep_view(o.body_excerpt);
        lemma_opt_bytes_deep_view(o.error);
    }
    o
}

/// A failed probe: the failure is captured into the outcome and returned
/// normally, never raised past the worker boundary.
pub open spec fn error_outcome_spec(c: CandidateView, error: Seq<u8>, elapsed_ms: u64)
    -> OutcomeView {
    OutcomeView {
        mode: c.mode,
        identity: outcome_identity(c),
        method: c.method,
        status: 0,
        resolved: false,
        resolved_addresses: Seq::empty(),
        body_excerpt: None,
        ignored: false,
        elapsed_ms,
        error: Some(error),
    }
}

/// Capture a probe failure into an outcome.
pub fn error_outcome(c: &Candidate, error: Vec<u8>, elapsed_ms: u64) -> (o: ProbeOutcome)
    ensures
        o@ == error_outcome_spec(c@, error@, elapsed_ms),
{
    let is_vhost = match c.mode {
        Mode::Vhost => true,
        _ => false,
    };
    proof {
        lemma_opt_bytes_deep_view(c.host_override);
    }
    let identity = if is_vhost {
        match &c.host_override {
            Some(h) => clone_bytes(h),
            None => clone_bytes(&c.identity),
        }
    } else {
        clone_bytes(&c.identity)
    };
    let ghost ev = error@;
    let o = ProbeOutcome {
        mode: c.mode,
        identity,
        method: clone_bytes(&c.method),
        status: 0,
        resolved: false,
        resolved_addresses: Vec::new(),
        body_excerpt: None,
        ignored: false,
        elapsed_ms,
        error: Some(error),
    };
    proof {
        lemma_opt_bytes_deep_view(o.body_excerpt);
        lemma_opt_bytes_deep_view(o.error);
        assert(o.resolved_addresses.deep_view() =~= Seq::<Seq<u8>>::empty());
    }
    o
}

} // verus!
