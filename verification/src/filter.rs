//! Outcome filtering: the include/exclude rule set over status codes and
//! body substrings.  Include and exclude on the same axis are mutually
//! exclusive configurations, rejected at startup.  Acceptance is a pure
//! predicate over the status and the body excerpt.

use crate::bytes::{contains_bytes, contains_seq};
use crate::candidates::lemma_bytes_deep_view;
use vstd::prelude::*;

verus! {

/// The include/exclude rule set determining which outcomes are reported.
pub struct FilterPolicy {
    pub include_codes: Vec<u16>,
    pub exclude_codes: Vec<u16>,
    pub include_body: Vec<Vec<u8>>,
    pub exclude_body: Vec<Vec<u8>>,
}

/// Mathematical shape of a filter policy.
pub ghost struct FilterPolicyView {
    pub include_codes: Seq<u16>,
    pub exclude_codes: Seq<u16>,
    pub include_body: Seq<Seq<u8>>,
    pub exclude_body: Seq<Seq<u8>>,
}

impl View for FilterPolicy {
    type V = FilterPolicyView;

    open spec fn view(&self) -> FilterPolicyView {
        FilterPolicyView {
            include_codes: self.include_codes@,
            exclude_codes: self.exclude_codes@,
            include_body: self.include_body.deep_view(),
            exclude_body: self.exclude_body.deep_view(),
        }
    }
}

/// Include and exclude for the same axis must not both be configured.
pub open spec fn conflict_free(p: FilterPolicyView) -> bool {
    &&& !(p.include_codes.len() > 0 && p.exclude_codes.len() > 0)
    &&& !(p.include_body.len() > 0 && p.exclude_body.len() > 0)
}

/// Startup validation of a filter policy: both sides of one axis configured
/// at once is a fatal configuration conflict.
pub fn validate_policy(p: &FilterPolicy) -> (r: bool)
    ensures
        r == conflict_free(p@),
{
    let codes_ok = !(p.include_codes.len() > 0 && p.exclude_codes.len() > 0);
    let body_ok = !(p.include_body.len() > 0 && p.exclude_body.len() > 0);
    codes_ok && body_ok
}

/// `status` occurs in the code list.
pub open spec fn code_listed(codes: Seq<u16>, status: u16) -> bool {
    exists|k: int| 0 <= k < codes.len() && codes[k] == status
}

fn code_listed_exec(codes: &Vec<u16>, status: u16) -> (r: bool)
    ensures
        r == code_listed(codes@, status),
{
    let mut k: usize = 0;
    while k < codes.len()
        invariant
            k <= codes@.len(),
            forall|j: int| 0 <= j < k ==> codes@[j] != status,
        decreases codes@.len() - k,
    {
        if codes[k] == status {
            return true;
        }
        k += 1;
    }
    false
}

/// The body contains at least one of the needles.
pub open spec fn contains_any(body: Seq<u8>, needles: Seq<Seq<u8>>) -> bool {
    exists|k: int| 0 <= k < needles.len() && contains_seq(body, needles[k])
}

/// Whether `body` contains any of the needles (runtime check).
pub fn contains_any_exec(body: &[u8], needles: &Vec<Vec<u8>>) -> (r: bool)
    ensures
        r == contains_any(body@, needles.deep_view()),
{
    let ghost ndv = needles.deep_view();
    let mut k: usize = 0;
    while k < needles.len()
        invariant
            ndv == needles.deep_view(),
            k <= needles@.len(),
            ndv.len() == needles@.len(),
            forall|j: int| 0 <= j < k ==> !contains_seq(body@, ndv[j]),
        decreases needles@.len() - k,
    {
        proof {
            lemma_bytes_deep_view(needles@[k as int]);
        }
        if contains_bytes(body, needles[k].as_slice()) {
            proof {
                assert(contains_seq(body@, ndv[k as int]));
            }
            return true;
        }
        k += 1;
    }
    false
}

/// The status axis: with an include list, the status must be listed; without
/// one, it must not be excluded.
pub open spec fn status_accepted(p: FilterPolicyView, status: u16) -> bool {
    if p.include_codes.len() > 0 {
        code_listed(p.include_codes, status)
    } else {
        !code_listed(p.exclude_codes, status)
    }
}

/// The body axis, evaluated analogously against the body excerpt.
pub open spec fn body_accepted(p: FilterPolicyView, body: Seq<u8>) -> bool {
    if p.include_body.len() > 0 {
        contains_any(body, p.include_body)
    } else {
        !contains_any(body, p.exclude_body)
    }
}

/// The acceptance rule: a pure predicate over `(status, body excerpt)`.
pub open spec fn accepts(p: FilterPolicyView, status: u16, body: Seq<u8>) -> bool {
    status_accepted(p, status) && body_accepted(p, body)
}

/// Evaluate the filter policy on one outcome's status and body excerpt.
pub fn accepts_exec(p: &FilterPolicy, status: u16, body: &[u8]) -> (r: bool)
    ensures
        r == accepts(p@, status, body@),
{
    let status_ok = if p.include_codes.len() > 0 {
        code_listed_exec(&p.include_codes, status)
    } else {
        !code_listed_exec(&p.exclude_codes, status)
    };
    let body_ok = if p.include_body.len() > 0 {
        contains_any_exec(body, &p.include_body)
    } else {
        !contains_any_exec(body, &p.exclude_body)
    };
    status_ok && body_ok
}

} // verus!
