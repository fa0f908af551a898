//! CSRF token capture.  Before dispatch starts in fuzz mode, one pre-flight
//! response body is matched against a configured pattern — a literal prefix
//! and suffix delimiting the token — and the first capture becomes the
//! run-wide read-only token.  Failure to match is a fatal startup error:
//! there is no fallback to an empty token.

use crate::bytes::{find_from, matches_at};
use vstd::prelude::*;
use vstd::slice::{slice_subrange, slice_to_vec};

verus! {

/// Position of the first occurrence of `n` in `h` at or after `from`, or
/// nothing when none remains.
pub open spec fn first_match_from(h: Seq<u8>, n: Seq<u8>, from: int) -> Option<int>
    decreases h.len() + 1 - from,
{
    if from > h.len() {
        None
    } else if matches_at(h, n, from) {
        Some(from)
    } else {
        first_match_from(h, n, from + 1)
    }
}

/// `first_match_from` finds exactly the first occurrence.
pub proof fn lemma_first_match_some(h: Seq<u8>, n: Seq<u8>, from: int, i: int)
    requires
        0 <= from <= i,
        matches_at(h, n, i),
        forall|j: int| from <= j < i ==> !matches_at(h, n, j),
    ensures
        first_match_from(h, n, from) == Some(i),
    decreases i - from,
{
    if from == i {
    } else {
        lemma_first_match_some(h, n, from + 1, i);
    }
}

/// `first_match_from` finds nothing when no occurrence remains.
pub proof fn lemma_first_match_none(h: Seq<u8>, n: Seq<u8>, from: int)
    requires
        0 <= from,
        forall|j: int| from <= j ==> !matches_at(h, n, j),
    ensures
        first_match_from(h, n, from) is None,
    decreases h.len() + 1 - from,
{
    if from > h.len() {
    } else {
        lemma_first_match_none(h, n, from + 1);
    }
}

/// The captured token: the bytes between the first occurrence of the prefix
/// and the next occurrence of the suffix after it, or nothing when either
/// is missing.
pub open spec fn csrf_token_of(body: Seq<u8>, prefix: Seq<u8>, suffix: Seq<u8>) -> Option<Seq<u8>> {
    match first_match_from(body, prefix, 0) {
        None => None,
        Some(i) => match first_match_from(body, suffix, i + prefix.len()) {
            None => None,
            Some(j) => Some(body.subrange(i + prefix.len(), j)),
        },
    }
}

/// Extract the CSRF token from the pre-flight response body.
pub fn extract_token(body: &[u8], prefix: &[u8], suffix: &[u8]) -> (r: Option<Vec<u8>>)
    ensures
        match r {
            Some(t) => csrf_token_of(body@, prefix@, suffix@) == Some(t@),
            None => csrf_token_of(body@, prefix@, suffix@) is None,
        },
{
    let _bl = body.len();
    let i = match find_from(body, prefix, 0) {
        Some(i) => i,
        None => {
            proof {
                lemma_first_match_none(body@, prefix@, 0);
            }
            return None;
        },
    };
    proof {
        lemma_first_match_some(body@, prefix@, 0, i as int);
    }
    let start = i + prefix.len();
    let j = match find_from(body, suffix, start) {
        Some(j) => j,
        None => {
            proof {
                lemma_first_match_none(body@, suffix@, start as int);
            }
            return None;
        },
    };
    proof {
        lemma_first_match_some(body@, suffix@, start as int, j as int);
    }
    Some(slice_to_vec(slice_subrange(body, start, j)))
}

} // verus!
