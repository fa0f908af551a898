//! Fuzz-mode expansion: every wordlist is bound to one placeholder marker
//! (conventionally `FUZZ`, `FUZZ2`, ...), the candidate space is the full
//! cartesian product across wordlists, and each candidate substitutes every
//! marker occurrence in the URL, body and headers.  All of a candidate's
//! markers are substituted in one simultaneous pass: at each position the
//! longest matching marker wins, so `FUZZ` never swallows an occurrence of
//! `FUZZ2`, and substituted text is never rescanned.  A single-marker
//! substitution primitive injects the CSRF token.

use crate::bytes::{extend_bytes, matches_at, matches_at_exec, replace_all, replace_seq};
use crate::candidates::{
    clone_bytes, clone_headers, lemma_bytes_deep_view, lemma_opt_bytes_deep_view, Candidate,
    CandidateView,
};
use vstd::prelude::*;

verus! {

/// One wordlist bound to its placeholder marker.
pub struct FuzzList {
    pub marker: Vec<u8>,
    pub words: Vec<Vec<u8>>,
}

/// Mathematical shape of a bound wordlist.
pub ghost struct FuzzListView {
    pub marker: Seq<u8>,
    pub words: Seq<Seq<u8>>,
}

impl View for FuzzList {
    type V = FuzzListView;

    open spec fn view(&self) -> FuzzListView {
        FuzzListView { marker: self.marker@, words: self.words.deep_view() }
    }
}

/// The views of a vector of bound wordlists.
pub open spec fn list_views(s: Seq<FuzzList>) -> Seq<FuzzListView> {
    s.map_values(|l: FuzzList| l@)
}

/// Substituting `v` for every occurrence of the single marker `m` in the
/// URL (identity), body and headers of a candidate.  Method, mode and host
/// override are untouched.
pub open spec fn subst_view(c: CandidateView, m: Seq<u8>, v: Seq<u8>) -> CandidateView {
    CandidateView {
        mode: c.mode,
        identity: replace_seq(c.identity, m, v),
        method: c.method,
        body: replace_seq(c.body, m, v),
        headers: c.headers.map_values(
            |h: (Seq<u8>, Seq<u8>)| (replace_seq(h.0, m, v), replace_seq(h.1, m, v)),
        ),
        host_override: c.host_override,
    }
}

/// Substitute `v` for every occurrence of the single marker `m` through a
/// candidate (used for the CSRF token's dedicated marker).
pub fn substitute_candidate(c: &Candidate, m: &[u8], v: &[u8]) -> (r: Candidate)
    ensures
        r@ == subst_view(c@, m@, v@),
{
    let ghost target = subst_view(c@, m@, v@);
    let identity = replace_all(c.identity.as_slice(), m, v);
    let body = replace_all(c.body.as_slice(), m, v);
    let mut headers: Vec<(Vec<u8>, Vec<u8>)> = Vec::new();
    let mut i: usize = 0;
    while i < c.headers.len()
        invariant
            target == subst_view(c@, m@, v@),
            i <= c.headers@.len(),
            headers.deep_view() == target.headers.take(i as int),
        decreases c.headers@.len() - i,
    {
        let p = &c.headers[i];
        let hn = replace_all(p.0.as_slice(), m, v);
        let hv = replace_all(p.1.as_slice(), m, v);
        proof {
            lemma_bytes_deep_view(hn);
            lemma_bytes_deep_view(hv);
            lemma_bytes_deep_view(c.headers@[i as int].0);
            lemma_bytes_deep_view(c.headers@[i as int].1);
        }
        headers.push((hn, hv));
        proof {
            let odv = headers.deep_view();
            let tk = target.headers.take(i + 1);
            assert(target.headers.len() == c.headers.deep_view().len());
            assert(c.headers.deep_view().len() == c.headers@.len());
            assert(target.headers.take(i as int).len() == i);
            assert(odv.len() == tk.len());
            assert forall|k: int| 0 <= k < odv.len() implies odv[k] == tk[k] by {
                assert(odv[k] == headers@[k].deep_view());
                assert(tk[k] == target.headers[k]);
                assert(target.headers[k] == (
                    replace_seq(c.headers.deep_view()[k].0, m@, v@),
                    replace_seq(c.headers.deep_view()[k].1, m@, v@),
                ));
                assert(c.headers.deep_view()[k] == c.headers@[k].deep_view());
                if k < i {
                    assert(headers@[k].deep_view() == target.headers.take(i as int)[k]);
                }
            }
            assert(odv =~= tk);
        }
        i += 1;
    }
    let host_override = match &c.host_override {
        Some(h) => Some(clone_bytes(h)),
        None => None,
    };
    let r = Candidate {
        mode: c.mode,
        identity,
        method: clone_bytes(&c.method),
        body,
        headers,
        host_override,
    };
    proof {
        assert(r@.headers == target.headers.take(c.headers@.len() as int));
        assert(target.headers.take(target.headers.len() as int) =~= target.headers);
        lemma_opt_bytes_deep_view(c.host_override);
        lemma_opt_bytes_deep_view(r.host_override);
    }
    r
}

/// Binding `k` applies in `s` at position `i`: its marker is non-empty and
/// occurs there.
pub open spec fn binding_matches_at(
    s: Seq<u8>,
    bs: Seq<(Seq<u8>, Seq<u8>)>,
    k: int,
    i: int,
) -> bool {
    0 <= k < bs.len() && bs[k].0.len() > 0 && matches_at(s, bs[k].0, i)
}

/// The binding substituted at position `i`, considering bindings from `k`
/// on: among those whose markers match there, the one with the longest
/// marker, the earliest on a tie.
pub open spec fn best_binding_from(
    s: Seq<u8>,
    bs: Seq<(Seq<u8>, Seq<u8>)>,
    i: int,
    k: int,
) -> Option<int>
    decreases bs.len() - k,
{
    if k < 0 || k >= bs.len() {
        None
    } else {
        let rest = best_binding_from(s, bs, i, k + 1);
        if binding_matches_at(s, bs, k, i) {
            match rest {
                None => Some(k),
                Some(j) => if bs[j].0.len() > bs[k].0.len() {
                    Some(j)
                } else {
                    Some(k)
                },
            }
        } else {
            rest
        }
    }
}

/// What `best_binding_from` selects: a matching binding whose marker no
/// later matching binding exceeds, or nothing when none matches.
pub proof fn lemma_best_binding(s: Seq<u8>, bs: Seq<(Seq<u8>, Seq<u8>)>, i: int, k: int)
    requires
        0 <= k <= bs.len(),
    ensures
        match best_binding_from(s, bs, i, k) {
            Some(j) => k <= j < bs.len() && binding_matches_at(s, bs, j, i) && (forall|k2: int|
                k <= k2 < bs.len() && binding_matches_at(s, bs, k2, i) ==> bs[k2].0.len()
                    <= bs[j].0.len()),
            None => forall|k2: int| k <= k2 < bs.len() ==> !binding_matches_at(s, bs, k2, i),
        },
    decreases bs.len() - k,
{
    if k < bs.len() {
        lemma_best_binding(s, bs, i, k + 1);
    }
}

#[via_fn]
proof fn multi_replace_dec(s: Seq<u8>, bs: Seq<(Seq<u8>, Seq<u8>)>, pos: int) {
    if 0 <= pos < s.len() {
        lemma_best_binding(s, bs, pos, 0);
    }
}

/// The tail of `s` from `pos` with every bound marker substituted in one
/// left-to-right pass: at each position the longest matching marker wins,
/// and the substituted word is never rescanned.
pub open spec fn multi_replace_from(s: Seq<u8>, bs: Seq<(Seq<u8>, Seq<u8>)>, pos: int) -> Seq<u8>
    decreases s.len() - pos via multi_replace_dec
{
    if pos < 0 || pos >= s.len() {
        Seq::empty()
    } else {
        match best_binding_from(s, bs, pos, 0) {
            None => seq![s[pos]] + multi_replace_from(s, bs, pos + 1),
            Some(k) => bs[k].1 + multi_replace_from(s, bs, pos + bs[k].0.len()),
        }
    }
}

/// `s` with every bound marker substituted simultaneously.
pub open spec fn multi_replace(s: Seq<u8>, bs: Seq<(Seq<u8>, Seq<u8>)>) -> Seq<u8> {
    multi_replace_from(s, bs, 0)
}

/// The binding substituted at `pos` (runtime selection).
fn best_binding_exec(s: &[u8], bs: &Vec<(Vec<u8>, Vec<u8>)>, pos: usize) -> (r: Option<usize>)
    requires
        pos <= s@.len(),
    ensures
        match r {
            Some(k) => k < bs@.len() && best_binding_from(s@, bs.deep_view(), pos as int, 0)
                == Some(k as int),
            None => best_binding_from(s@, bs.deep_view(), pos as int, 0) is None,
        },
{
    let ghost bsv = bs.deep_view();
    let sl = s.len();
    let mut k = bs.len();
    let mut best: Option<usize> = None;
    while k > 0
        invariant
            bsv == bs.deep_view(),
            bsv.len() == bs@.len(),
            sl == s@.len(),
            pos <= sl,
            k <= bs@.len(),
            match best {
                Some(j) => j < bs@.len() && best_binding_from(s@, bsv, pos as int, k as int)
                    == Some(j as int),
                None => best_binding_from(s@, bsv, pos as int, k as int) is None,
            },
        decreases k,
    {
        k = k - 1;
        let m = &bs[k].0;
        proof {
            lemma_bytes_deep_view(bs@[k as int].0);
            assert(bsv[k as int].0 == m@);
        }
        let hit = m.len() > 0 && m.len() <= sl - pos && matches_at_exec(s, m.as_slice(), pos);
        proof {
            if m@.len() > sl - pos {
                assert(!matches_at(s@, bsv[k as int].0, pos as int));
            }
            assert(hit == binding_matches_at(s@, bsv, k as int, pos as int));
        }
        if hit {
            best = match best {
                Some(j) => if bs[j].0.len() > bs[k].0.len() {
                    Some(j)
                } else {
                    Some(k)
                },
                None => Some(k),
            };
            proof {
                if let Some(j) = best {
                    lemma_bytes_deep_view(bs@[j as int].0);
                }
            }
        }
    }
    best
}

/// Substitute every bound marker in `s` in one simultaneous pass.
pub fn multi_replace_all(s: &[u8], bs: &Vec<(Vec<u8>, Vec<u8>)>) -> (r: Vec<u8>)
    ensures
        r@ == multi_replace(s@, bs.deep_view()),
{
    let ghost bsv = bs.deep_view();
    let mut out: Vec<u8> = Vec::new();
    let mut pos: usize = 0;
    let sl = s.len();
    proof {
        assert(Seq::<u8>::empty() + multi_replace_from(s@, bsv, 0) =~= multi_replace_from(
            s@,
            bsv,
            0,
        ));
    }
    while pos < sl
        invariant
            bsv == bs.deep_view(),
            sl == s@.len(),
            pos <= sl,
            out@ + multi_replace_from(s@, bsv, pos as int) == multi_replace_from(s@, bsv, 0),
        decreases sl - pos,
    {
        let ghost out0 = out@;
        let ghost rem = multi_replace_from(s@, bsv, pos as int);
        match best_binding_exec(s, bs, pos) {
            None => {
                out.push(s[pos]);
                proof {
                    assert(rem == seq![s@[pos as int]] + multi_replace_from(
                        s@,
                        bsv,
                        pos + 1,
                    ));
                    assert(out0.push(s@[pos as int]) + multi_replace_from(s@, bsv, pos + 1)
                        =~= out0 + rem);
                }
                pos = pos + 1;
            },
            Some(k) => {
                proof {
                    lemma_best_binding(s@, bsv, pos as int, 0);
                    lemma_bytes_deep_view(bs@[k as int].0);
                    lemma_bytes_deep_view(bs@[k as int].1);
                }
                let w = &bs[k].1;
                extend_bytes(&mut out, w.as_slice(), 0, w.len());
                let mlen = bs[k].0.len();
                proof {
                    assert(w@.subrange(0, w@.len() as int) =~= w@);
                    assert(rem == bsv[k as int].1 + multi_replace_from(
                        s@,
                        bsv,
                        pos + bsv[k as int].0.len(),
                    ));
                    assert((out0 + w@) + multi_replace_from(s@, bsv, pos + mlen) =~= out0
                        + rem);
                    assert(pos + mlen <= sl);
                }
                pos = pos + mlen;
            },
        }
    }
    proof {
        assert(multi_replace_from(s@, bsv, pos as int) == Seq::<u8>::empty());
        assert(out@ + Seq::<u8>::empty() =~= out@);
    }
    out
}

/// Substituting every bound marker through a candidate in one simultaneous
/// pass: URL (identity), body and headers; method, mode and host override
/// are untouched.
pub open spec fn subst_all_view(c: CandidateView, bs: Seq<(Seq<u8>, Seq<u8>)>) -> CandidateView {
    CandidateView {
        mode: c.mode,
        identity: multi_replace(c.identity, bs),
        method: c.method,
        body: multi_replace(c.body, bs),
        headers: c.headers.map_values(
            |h: (Seq<u8>, Seq<u8>)| (multi_replace(h.0, bs), multi_replace(h.1, bs)),
        ),
        host_override: c.host_override,
    }
}

/// Apply one candidate's complete marker bindings.
pub fn substitute_bindings(c: &Candidate, bs: &Vec<(Vec<u8>, Vec<u8>)>) -> (r: Candidate)
    ensures
        r@ == subst_all_view(c@, bs.deep_view()),
{
    let ghost bsv = bs.deep_view();
    let ghost target = subst_all_view(c@, bsv);
    let identity = multi_replace_all(c.identity.as_slice(), bs);
    let body = multi_replace_all(c.body.as_slice(), bs);
    let mut headers: Vec<(Vec<u8>, Vec<u8>)> = Vec::new();
    let mut i: usize = 0;
    while i < c.headers.len()
        invariant
            bsv == bs.deep_view(),
            target == subst_all_view(c@, bsv),
            i <= c.headers@.len(),
            headers.deep_view() == target.headers.take(i as int),
        decreases c.headers@.len() - i,
    {
        let p = &c.headers[i];
        let hn = multi_replace_all(p.0.as_slice(), bs);
        let hv = multi_replace_all(p.1.as_slice(), bs);
        proof {
            lemma_bytes_deep_view(hn);
            lemma_bytes_deep_view(hv);
            lemma_bytes_deep_view(c.headers@[i as int].0);
            lemma_bytes_deep_view(c.headers@[i as int].1);
        }
        headers.push((hn, hv));
        proof {
            let odv = headers.deep_view();
            let tk = target.headers.take(i + 1);
            assert(target.headers.len() == c.headers.deep_view().len());
            assert(c.headers.deep_view().len() == c.headers@.len());
            assert(target.headers.take(i as int).len() == i);
            assert(odv.len() == tk.len());
            assert forall|k: int| 0 <= k < odv.len() implies odv[k] == tk[k] by {
                assert(odv[k] == headers@[k].deep_view());
                assert(tk[k] == target.headers[k]);
                assert(target.headers[k] == (
                    multi_replace(c.headers.deep_view()[k].0, bsv),
                    multi_replace(c.headers.deep_view()[k].1, bsv),
                ));
                assert(c.headers.deep_view()[k] == c.headers@[k].deep_view());
                if k < i {
                    assert(headers@[k].deep_view() == target.headers.take(i as int)[k]);
                }
            }
            assert(odv =~= tk);
        }
        i += 1;
    }
    let host_override = match &c.host_override {
        Some(h) => Some(clone_bytes(h)),
        None => None,
    };
    let r = Candidate {
        mode: c.mode,
        identity,
        method: clone_bytes(&c.method),
        body,
        headers,
        host_override,
    };
    proof {
        assert(r@.headers == target.headers.take(c.headers@.len() as int));
        assert(target.headers.take(target.headers.len() as int) =~= target.headers);
        lemma_opt_bytes_deep_view(c.host_override);
        lemma_opt_bytes_deep_view(r.host_override);
    }
    r
}

/// The number of words in list `li`, or zero out of range.
pub open spec fn list_len_at(lists: Seq<FuzzListView>, li: int) -> int {
    if 0 <= li < lists.len() {
        lists[li].words.len() as int
    } else {
        0
    }
}

/// The candidates produced once the lists before `li` are bound as `bs`:
/// every binding of list `li` (from word `wi` on) combined with every
/// binding of the later lists, in wordlist-major order, each complete
/// binding tuple applied to `t` in one simultaneous pass.
pub open spec fn fuzz_rec(
    t: CandidateView,
    lists: Seq<FuzzListView>,
    li: int,
    wi: int,
    bs: Seq<(Seq<u8>, Seq<u8>)>,
) -> Seq<CandidateView>
    decreases lists.len() - li, list_len_at(lists, li) - wi,
{
    if li < 0 || li >= lists.len() {
        seq![subst_all_view(t, bs)]
    } else if wi < 0 || wi >= lists[li].words.len() {
        Seq::empty()
    } else {
        fuzz_rec(t, lists, li + 1, 0, bs.push((lists[li].marker, lists[li].words[wi])))
            + fuzz_rec(t, lists, li, wi + 1, bs)
    }
}

/// The full fuzz-mode candidate space for template `t`.
pub open spec fn fuzz_expansion(t: CandidateView, lists: Seq<FuzzListView>) -> Seq<CandidateView> {
    fuzz_rec(t, lists, 0, 0, Seq::empty())
}

/// Splitting a block off the front of the remaining expansion.
proof fn lemma_skip_block(s: Seq<CandidateView>, n: int, a: Seq<CandidateView>, b: Seq<CandidateView>)
    requires
        0 <= n <= s.len(),
        s.skip(n) == a + b,
    ensures
        n + a.len() <= s.len(),
        s.skip(n + a.len() as int) == b,
        forall|j: int| 0 <= j < a.len() ==> s[n + j] == a[j],
{
    assert(s.skip(n).len() == (a + b).len());
    assert(s.skip(n).len() == s.len() - n);
    assert(s.skip(n + a.len() as int).len() == b.len());
    assert forall|k: int| 0 <= k < b.len() implies s.skip(n + a.len() as int)[k] == b[k] by {
        assert(s.skip(n + a.len() as int)[k] == s[n + a.len() + k]);
        assert(s.skip(n)[a.len() + k] == s[n + a.len() + k]);
        assert((a + b)[a.len() + k] == b[k]);
    }
    assert(s.skip(n + a.len() as int) =~= b);
    assert forall|j: int| 0 <= j < a.len() implies s[n + j] == a[j] by {
        assert(s.skip(n)[j] == s[n + j]);
        assert((a + b)[j] == a[j]);
    }
}

/// Copy a candidate.
pub fn clone_candidate(c: &Candidate) -> (r: Candidate)
    ensures
        r@ == c@,
{
    let host_override = match &c.host_override {
        Some(h) => Some(clone_bytes(h)),
        None => None,
    };
    let r = Candidate {
        mode: c.mode,
        identity: clone_bytes(&c.identity),
        method: clone_bytes(&c.method),
        body: clone_bytes(&c.body),
        headers: clone_headers(&c.headers),
        host_override,
    };
    proof {
        lemma_opt_bytes_deep_view(c.host_override);
        lemma_opt_bytes_deep_view(r.host_override);
    }
    r
}

fn fuzz_rec_exec(
    t: &Candidate,
    lists: &Vec<FuzzList>,
    li: usize,
    bs: &Vec<(Vec<u8>, Vec<u8>)>,
) -> (r: Vec<Candidate>)
    requires
        li <= lists@.len(),
    ensures
        ({
            let full = fuzz_rec(t@, list_views(lists@), li as int, 0, bs.deep_view());
            &&& r@.len() == full.len()
            &&& forall|i: int| 0 <= i < r@.len() ==> (#[trigger] r@[i])@ == full[i]
        }),
    decreases lists@.len() - li,
{
    let ghost lv = list_views(lists@);
    let ghost bsv = bs.deep_view();
    let ghost full = fuzz_rec(t@, lv, li as int, 0, bsv);
    if li == lists.len() {
        let mut out: Vec<Candidate> = Vec::new();
        out.push(substitute_bindings(t, bs));
        proof {
            assert(lv.len() == lists@.len());
            assert(full == seq![subst_all_view(t@, bsv)]);
        }
        return out;
    }
    let mut out: Vec<Candidate> = Vec::new();
    let mut wi: usize = 0;
    let words_len = lists[li].words.len();
    let nlists = lists.len();
    proof {
        assert(lv[li as int] == lists@[li as int]@);
        assert(full.skip(0) =~= full);
        assert(lists@.len() == nlists);
    }
    while wi < words_len
        invariant
            lists@.len() <= usize::MAX,
            lv == list_views(lists@),
            bsv == bs.deep_view(),
            full == fuzz_rec(t@, lv, li as int, 0, bsv),
            li < lists@.len(),
            lv.len() == lists@.len(),
            lv[li as int] == lists@[li as int]@,
            words_len == lv[li as int].words.len(),
            wi <= words_len,
            out@.len() <= full.len(),
            full.skip(out@.len() as int) == fuzz_rec(t@, lv, li as int, wi as int, bsv),
            forall|i: int| 0 <= i < out@.len() ==> (#[trigger] out@[i])@ == full[i],
        decreases words_len - wi,
    {
        let lst = &lists[li];
        let w = &lst.words[wi];
        proof {
            lemma_bytes_deep_view(lst.words@[wi as int]);
            assert(lv[li as int].words[wi as int] == w@);
            assert(lv[li as int].marker == lst.marker@);
        }
        let mut bs2 = clone_headers(bs);
        let marker = clone_bytes(&lst.marker);
        let word = clone_bytes(w);
        proof {
            lemma_bytes_deep_view(marker);
            lemma_bytes_deep_view(word);
        }
        let ghost pre = bs2.deep_view();
        bs2.push((marker, word));
        let ghost bsv2 = bsv.push((lv[li as int].marker, lv[li as int].words[wi as int]));
        proof {
            assert(pre == bsv);
            assert(bs2.deep_view().len() == bsv2.len());
            assert forall|j: int| 0 <= j < bsv2.len() implies bs2.deep_view()[j] == bsv2[j] by {
                assert(bs2.deep_view()[j] == bs2@[j].deep_view());
                if j < bsv.len() {
                    assert(bs2@[j].deep_view() == pre[j]);
                }
            }
            assert(bs2.deep_view() =~= bsv2);
        }
        let mut part = fuzz_rec_exec(t, lists, li + 1, &bs2);
        let ghost pviews = fuzz_rec(t@, lv, li as int + 1, 0, bsv2);
        let ghost n0 = out@.len() as int;
        proof {
            assert(fuzz_rec(t@, lv, li as int, wi as int, bsv) == pviews + fuzz_rec(
                t@,
                lv,
                li as int,
                wi as int + 1,
                bsv,
            ));
            lemma_skip_block(full, n0, pviews, fuzz_rec(t@, lv, li as int, wi as int + 1, bsv));
        }
        let ghost pvals = part@;
        let ghost out0 = out@;
        out.append(&mut part);
        proof {
            assert(out@ == out0 + pvals);
            assert forall|i: int| 0 <= i < out@.len() implies (#[trigger] out@[i])@ == full[i] by {
                if i < n0 {
                    assert(out@[i] == out0[i]);
                } else {
                    assert(out@[i] == pvals[i - n0]);
                    assert(pvals[i - n0]@ == pviews[i - n0]);
                    assert(full[n0 + (i - n0)] == pviews[i - n0]);
                }
            }
        }
        wi += 1;
    }
    proof {
        assert(fuzz_rec(t@, lv, li as int, words_len as int, bsv)
            == Seq::<CandidateView>::empty());
        assert(full.skip(out@.len() as int).len() == 0);
        assert(out@.len() == full.len());
    }
    out
}

/// Generate the fuzz-mode candidates: the cartesian product of all bound
/// wordlists applied to the template candidate, in wordlist-major order.
/// Each candidate's markers are substituted simultaneously, longest match
/// first, so the conventional `FUZZ`/`FUZZ2` markers coexist.
pub fn fuzz_candidates(t: &Candidate, lists: &Vec<FuzzList>) -> (r: Vec<Candidate>)
    ensures
        ({
            let full = fuzz_expansion(t@, list_views(lists@));
            &&& r@.len() == full.len()
            &&& forall|i: int| 0 <= i < r@.len() ==> (#[trigger] r@[i])@ == full[i]
        }),
{
    let empty_bs: Vec<(Vec<u8>, Vec<u8>)> = Vec::new();
    proof {
        assert(empty_bs.deep_view() =~= Seq::<(Seq<u8>, Seq<u8>)>::empty());
    }
    fuzz_rec_exec(t, lists, 0, &empty_bs)
}

} // verus!
