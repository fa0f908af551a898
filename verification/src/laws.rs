//! Engine-wide laws, stated and proved over the same mathematical models
//! that the executable functions are specified against.

use crate::candidates::{dns_expansion, path_expansion, vhost_expansion, CandidateView};
use crate::dispatch::{
    apply_event, dispatcher_wf, pull_step, run_trace, spec_drained, Dispatcher, RunEvent,
};
use crate::filter::{accepts, FilterPolicyView};
use crate::fuzz::{fuzz_expansion, FuzzListView};
use crate::session::{key_of, ScanSession};
use vstd::prelude::*;

verus! {

/// Absent cancellation, a drained run has received exactly one outcome per
/// generated candidate: the completed count equals the candidate total.
pub proof fn lemma_outcome_count_matches(d: Dispatcher)
    requires
        dispatcher_wf(d),
        spec_drained(d),
        !d.cancelled,
    ensures
        d.completed == d.total,
{
}

/// Path-mode generation is deterministic: equal wordlists and templates
/// yield equal ordered candidate sequences, whatever the worker counts of
/// the two runs.
pub proof fn lemma_path_generation_deterministic(
    base1: Seq<u8>,
    words1: Seq<Seq<u8>>,
    exts1: Seq<Seq<u8>>,
    slash1: bool,
    workers1: usize,
    base2: Seq<u8>,
    words2: Seq<Seq<u8>>,
    exts2: Seq<Seq<u8>>,
    slash2: bool,
    workers2: usize,
)
    requires
        base1 == base2,
        words1 == words2,
        exts1 == exts2,
        slash1 == slash2,
    ensures
        path_expansion(base1, words1, exts1, slash1) == path_expansion(
            base2,
            words2,
            exts2,
            slash2,
        ),
{
}

/// DNS- and vhost-mode generation are deterministic in the same sense.
pub proof fn lemma_name_generation_deterministic(
    words1: Seq<Seq<u8>>,
    domain1: Seq<u8>,
    workers1: usize,
    words2: Seq<Seq<u8>>,
    domain2: Seq<u8>,
    workers2: usize,
)
    requires
        words1 == words2,
        domain1 == domain2,
    ensures
        dns_expansion(words1, domain1) == dns_expansion(words2, domain2),
        vhost_expansion(words1, domain1) == vhost_expansion(words2, domain2),
{
}

/// Fuzz-mode generation is deterministic in the same sense.
pub proof fn lemma_fuzz_generation_deterministic(
    t1: CandidateView,
    lists1: Seq<FuzzListView>,
    workers1: usize,
    t2: CandidateView,
    lists2: Seq<FuzzListView>,
    workers2: usize,
)
    requires
        t1 == t2,
        lists1 == lists2,
    ensures
        fuzz_expansion(t1, lists1) == fuzz_expansion(t2, lists2),
{
}

/// Filter acceptance is a pure predicate over `(status, body excerpt)`:
/// evaluating it again on the same outcome, at any point and in any order,
/// gives the same verdict.
pub proof fn lemma_filter_pure(
    p: FilterPolicyView,
    status1: u16,
    body1: Seq<u8>,
    status2: u16,
    body2: Seq<u8>,
)
    requires
        status1 == status2,
        body1 == body2,
    ensures
        accepts(p, status1, body1) == accepts(p, status2, body2),
{
}

/// No two accepted results of a well-formed session share the same
/// normalized identity key.  `ScanSession::process_outcome` preserves
/// well-formedness, so this holds of every reachable session.
pub proof fn lemma_dedup_invariant(s: ScanSession, i: int, j: int)
    requires
        s.wf(),
        0 <= i < s.accepted@.len(),
        0 <= j < s.accepted@.len(),
        i != j,
    ensures
        key_of(s.accepted@[i]@) != key_of(s.accepted@[j]@),
{
    if i < j {
        assert(key_of(s.accepted@[i]@) != key_of(s.accepted@[j]@));
    } else {
        assert(key_of(s.accepted@[j]@) != key_of(s.accepted@[i]@));
    }
}

/// Once the cancellation flag is set, a pull dispatches nothing: the
/// dispatch count stays where it was, no candidate index comes out, and
/// the flag stays set.  Recording in-flight outcomes is unaffected, so
/// in-flight work still completes.
pub proof fn lemma_cancellation_monotone(d: Dispatcher)
    requires
        d.cancelled,
    ensures
        pull_step(d).0 == d,
        pull_step(d).1 is None,
        pull_step(d).0.cancelled,
{
}

/// Cancellation is monotone over a whole run: once the flag is set, no
/// later event of any kind dispatches a new candidate — across the rest of
/// the history the dispatch count is frozen and the flag stays set, while
/// outcomes for in-flight probes are still recorded.
pub proof fn lemma_trace_cancellation_frozen(d: Dispatcher, es: Seq<RunEvent>)
    requires
        d.cancelled,
    ensures
        run_trace(d, es).next == d.next,
        run_trace(d, es).cancelled,
        run_trace(d, es).total == d.total,
    decreases es.len(),
{
    if es.len() > 0 {
        lemma_trace_cancellation_frozen(apply_event(d, es[0]), es.skip(1));
    }
}

/// Every history keeps the dispatcher well-formed: outcomes never
/// outnumber dispatches, and dispatches never pass the candidate total.
pub proof fn lemma_trace_wf(d: Dispatcher, es: Seq<RunEvent>)
    requires
        dispatcher_wf(d),
    ensures
        dispatcher_wf(run_trace(d, es)),
    decreases es.len(),
{
    if es.len() > 0 {
        lemma_trace_wf(apply_event(d, es[0]), es.skip(1));
    }
}

} // verus!
