//! Candidate generation.  Each mode expands the wordlist into an ordered,
//! deterministic sequence of probe candidates: bare paths plus extension and
//! slash variants, absolute domain names, virtual-host header values, or
//! fuzzing payloads.  Order is driven purely by wordlist order.

use crate::bytes::{concat2, concat3};
use vstd::prelude::*;
use vstd::slice::slice_to_vec;

verus! {

/// The four enumeration modes of the engine.
#[derive(Clone, Copy, PartialEq, Eq, Structural, Debug)]
pub enum Mode {
    Path,
    Dns,
    Vhost,
    Fuzz,
}

/// Mathematical shape of one candidate probe.
pub ghost struct CandidateView {
    pub mode: Mode,
    pub identity: Seq<u8>,
    pub method: Seq<u8>,
    pub body: Seq<u8>,
    pub headers: Seq<(Seq<u8>, Seq<u8>)>,
    pub host_override: Option<Seq<u8>>,
}

/// One fully-specified probe to perform: immutable once generated, consumed
/// by exactly one worker.
pub struct Candidate {
    pub mode: Mode,
    pub identity: Vec<u8>,
    pub method: Vec<u8>,
    pub body: Vec<u8>,
    pub headers: Vec<(Vec<u8>, Vec<u8>)>,
    pub host_override: Option<Vec<u8>>,
}

impl View for Candidate {
    type V = CandidateView;

    open spec fn view(&self) -> CandidateView {
        CandidateView {
            mode: self.mode,
            identity: self.identity@,
            method: self.method@,
            body: self.body@,
            headers: self.headers.deep_view(),
            host_override: self.host_override.deep_view(),
        }
    }
}

/// The request shape shared by all candidates of one run: method, body
/// template and extra headers.
pub struct RequestTemplate {
    pub method: Vec<u8>,
    pub body: Vec<u8>,
    pub headers: Vec<(Vec<u8>, Vec<u8>)>,
}

/// Mathematical shape of a request template.
pub ghost struct RequestTemplateView {
    pub method: Seq<u8>,
    pub body: Seq<u8>,
    pub headers: Seq<(Seq<u8>, Seq<u8>)>,
}

impl View for RequestTemplate {
    type V = RequestTemplateView;

    open spec fn view(&self) -> RequestTemplateView {
        RequestTemplateView {
            method: self.method@,
            body: self.body@,
            headers: self.headers.deep_view(),
        }
    }
}

pub open spec fn dot() -> Seq<u8> {
    seq![46u8]
}

pub open spec fn slash_byte() -> Seq<u8> {
    seq![47u8]
}

/// A candidate without host override, built from an identity and the shared
/// request template.
pub open spec fn plain_candidate(mode: Mode, identity: Seq<u8>, t: RequestTemplateView)
    -> CandidateView {
    CandidateView {
        mode,
        identity,
        method: t.method,
        body: t.body,
        headers: t.headers,
        host_override: None,
    }
}

/// The deep view of a byte vector is its view.
pub proof fn lemma_bytes_deep_view(v: Vec<u8>)
    ensures
        v.deep_view() == v@,
{
    assert(v.deep_view() =~= v@);
}

/// The deep view of an optional byte vector is its mapped view.
pub proof fn lemma_opt_bytes_deep_view(o: Option<Vec<u8>>)
    ensures
        o.deep_view() == (match o {
            Some(v) => Some(v@),
            None => None::<Seq<u8>>,
        }),
{
    match o {
        Some(v) => {
            assert(v.deep_view() =~= v@);
        },
        None => {},
    }
}

/// Copy a byte vector.
pub fn clone_bytes(v: &Vec<u8>) -> (r: Vec<u8>)
    ensures
        r@ == v@,
{
    slice_to_vec(v.as_slice())
}

/// Copy a header list.
pub fn clone_headers(h: &Vec<(Vec<u8>, Vec<u8>)>) -> (r: Vec<(Vec<u8>, Vec<u8>)>)
    ensures
        r.deep_view() == h.deep_view(),
{
    let mut out: Vec<(Vec<u8>, Vec<u8>)> = Vec::new();
    let mut i: usize = 0;
    while i < h.len()
        invariant
            i <= h@.len(),
            out.deep_view() == h.deep_view().take(i as int),
        decreases h@.len() - i,
    {
        let p = &h[i];
        let name = clone_bytes(&p.0);
        let value = clone_bytes(&p.1);
        proof {
            lemma_bytes_deep_view(name);
            lemma_bytes_deep_view(value);
            lemma_bytes_deep_view(h@[i as int].0);
            lemma_bytes_deep_view(h@[i as int].1);
        }
        out.push((name, value));
        proof {
            let odv = out.deep_view();
            let tk = h.deep_view().take(i + 1);
            assert(h.deep_view().len() == h@.len());
            assert(h.deep_view().take(i as int).len() == i);
            assert(out@.len() == i + 1);
            assert(odv.len() == tk.len());
            assert forall|k: int| 0 <= k < odv.len() implies odv[k] == tk[k] by {
                assert(odv[k] == out@[k].deep_view());
                assert(tk[k] == h.deep_view()[k]);
                assert(h.deep_view()[k] == h@[k].deep_view());
                if k < i {
                    assert(out@[k].deep_view() == h.deep_view().take(i as int)[k]);
                }
            }
            assert(odv =~= tk);
        }
        i += 1;
    }
    proof {
        assert(h.deep_view().take(i as int) =~= h.deep_view());
    }
    out
}

/// Build a candidate for `identity` from the shared template.
pub fn make_candidate(mode: Mode, identity: Vec<u8>, t: &RequestTemplate) -> (c: Candidate)
    ensures
        c@ == plain_candidate(mode, identity@, t@),
{
    let c = Candidate {
        mode,
        identity,
        method: clone_bytes(&t.method),
        body: clone_bytes(&t.body),
        headers: clone_headers(&t.headers),
        host_override: None,
    };
    proof {
        assert(c.host_override.deep_view() == None::<Seq<u8>>);
    }
    c
}

/// Identities contributed by the extension list for one word, in list order.
pub open spec fn ext_expansion(base: Seq<u8>, w: Seq<u8>, exts: Seq<Seq<u8>>) -> Seq<Seq<u8>>
    decreases exts.len(),
{
    if exts.len() == 0 {
        Seq::empty()
    } else {
        seq![base + w + dot() + exts[0]] + ext_expansion(base, w, exts.skip(1))
    }
}

/// Identities contributed by one word: the bare path, one per extension,
/// and, when slash-appending is on, the trailing-slash variant.
pub open spec fn word_expansion(base: Seq<u8>, w: Seq<u8>, exts: Seq<Seq<u8>>, slash: bool)
    -> Seq<Seq<u8>> {
    seq![base + w] + ext_expansion(base, w, exts) + (if slash {
        seq![base + w + slash_byte()]
    } else {
        Seq::<Seq<u8>>::empty()
    })
}

/// Identities of the whole path-mode run, in wordlist order.
pub open spec fn path_expansion(base: Seq<u8>, words: Seq<Seq<u8>>, exts: Seq<Seq<u8>>, slash: bool)
    -> Seq<Seq<u8>>
    decreases words.len(),
{
    if words.len() == 0 {
        Seq::empty()
    } else {
        word_expansion(base, words[0], exts, slash) + path_expansion(base, words.skip(1), exts, slash)
    }
}

/// Splitting one identity off the front of the remaining expansion.
proof fn lemma_skip_cons(full: Seq<Seq<u8>>, n: int, id: Seq<u8>, rest: Seq<Seq<u8>>)
    requires
        0 <= n <= full.len(),
        full.skip(n) == seq![id] + rest,
    ensures
        n < full.len(),
        full[n] == id,
        full.skip(n + 1) == rest,
{
    assert(full.skip(n).len() == (seq![id] + rest).len());
    assert(full.skip(n).len() == full.len() - n);
    assert(n < full.len());
    assert(full.skip(n)[0] == id);
    assert(full.skip(n)[0] == full[n]);
    assert(full.skip(n + 1) =~= full.skip(n).skip(1));
    assert((seq![id] + rest).skip(1) =~= rest);
}

/// Generate the path-mode candidates: for each word the bare path, then one
/// per extension (`word "." ext`), then the slash variant when configured.
pub fn path_candidates(
    base: &[u8],
    words: &Vec<Vec<u8>>,
    exts: &Vec<Vec<u8>>,
    append_slash: bool,
    t: &RequestTemplate,
) -> (r: Vec<Candidate>)
    ensures
        ({
            let ids = path_expansion(base@, words.deep_view(), exts.deep_view(), append_slash);
            &&& r@.len() == ids.len()
            &&& forall|i: int|
                0 <= i < r@.len() ==> (#[trigger] r@[i])@ == plain_candidate(
                    Mode::Path,
                    ids[i],
                    t@,
                )
        }),
{
    let ghost wdv = words.deep_view();
    let ghost edv = exts.deep_view();
    let ghost full = path_expansion(base@, wdv, edv, append_slash);
    let mut r: Vec<Candidate> = Vec::new();
    let mut wi: usize = 0;
    proof {
        assert(wdv.skip(0) =~= wdv);
        assert(full.skip(0) =~= full);
    }
    while wi < words.len()
        invariant
            wdv == words.deep_view(),
            edv == exts.deep_view(),
            full == path_expansion(base@, wdv, edv, append_slash),
            wi <= words@.len(),
            wdv.len() == words@.len(),
            edv.len() == exts@.len(),
            r@.len() <= full.len(),
            full.skip(r@.len() as int) == path_expansion(
                base@,
                wdv.skip(wi as int),
                edv,
                append_slash,
            ),
            forall|i: int|
                0 <= i < r@.len() ==> (#[trigger] r@[i])@ == plain_candidate(
                    Mode::Path,
                    full[i],
                    t@,
                ),
        decreases words@.len() - wi,
    {
        let w = &words[wi];
        let ghost wv = wdv[wi as int];
        let ghost rem = path_expansion(base@, wdv.skip(wi as int + 1), edv, append_slash);
        let ghost slashp: Seq<Seq<u8>> = if append_slash {
            seq![base@ + wv + slash_byte()]
        } else {
            Seq::empty()
        };
        proof {
            lemma_bytes_deep_view(words@[wi as int]);
            assert(wv == w@);
            assert(wdv.skip(wi as int)[0] == wv);
            assert(wdv.skip(wi as int).skip(1) =~= wdv.skip(wi as int + 1));
            assert(path_expansion(base@, wdv.skip(wi as int), edv, append_slash)
                == word_expansion(base@, wv, edv, append_slash) + rem);
            assert(word_expansion(base@, wv, edv, append_slash) + rem =~= seq![base@ + wv] + (
            ext_expansion(base@, wv, edv) + (slashp + rem)));
            lemma_skip_cons(
                full,
                r@.len() as int,
                base@ + wv,
                ext_expansion(base@, wv, edv) + (slashp + rem),
            );
        }
        let id = concat2(base, w.as_slice());
        let c = make_candidate(Mode::Path, id, t);
        r.push(c);
        let mut ei: usize = 0;
        proof {
            assert(edv.skip(0) =~= edv);
        }
        while ei < exts.len()
            invariant
                wdv == words.deep_view(),
                edv == exts.deep_view(),
                full == path_expansion(base@, wdv, edv, append_slash),
                wi < words@.len(),
                wdv.len() == words@.len(),
                edv.len() == exts@.len(),
                ei <= exts@.len(),
                wv == wdv[wi as int],
                wv == words@[wi as int]@,
                wv == w@,
                rem == path_expansion(base@, wdv.skip(wi as int + 1), edv, append_slash),
                slashp == (if append_slash {
                    seq![base@ + wv + slash_byte()]
                } else {
                    Seq::<Seq<u8>>::empty()
                }),
                r@.len() <= full.len(),
                full.skip(r@.len() as int) == ext_expansion(base@, wv, edv.skip(ei as int)) + (
                slashp + rem),
                forall|i: int|
                    0 <= i < r@.len() ==> (#[trigger] r@[i])@ == plain_candidate(
                        Mode::Path,
                        full[i],
                        t@,
                    ),
            decreases exts@.len() - ei,
        {
            let e = &exts[ei];
            let ghost ev = edv[ei as int];
            proof {
                lemma_bytes_deep_view(exts@[ei as int]);
                assert(ev == e@);
                assert(edv.skip(ei as int)[0] == ev);
                assert(edv.skip(ei as int).skip(1) =~= edv.skip(ei as int + 1));
                assert(ext_expansion(base@, wv, edv.skip(ei as int)) == seq![
                    base@ + wv + dot() + ev,
                ] + ext_expansion(base@, wv, edv.skip(ei as int + 1)));
                assert((seq![base@ + wv + dot() + ev] + ext_expansion(
                    base@,
                    wv,
                    edv.skip(ei as int + 1),
                )) + (slashp + rem) =~= seq![base@ + wv + dot() + ev] + (ext_expansion(
                    base@,
                    wv,
                    edv.skip(ei as int + 1),
                ) + (slashp + rem)));
                lemma_skip_cons(
                    full,
                    r@.len() as int,
                    base@ + wv + dot() + ev,
                    ext_expansion(base@, wv, edv.skip(ei as int + 1)) + (slashp + rem),
                );
            }
            let mut dotv: Vec<u8> = Vec::new();
            dotv.push(46);
            let stem = concat3(base, w.as_slice(), dotv.as_slice());
            proof {
                assert(dotv@ =~= dot());
            }
            let id = concat2(stem.as_slice(), e.as_slice());
            let c = make_candidate(Mode::Path, id, t);
            r.push(c);
            ei += 1;
        }
        proof {
            assert(edv.skip(edv.len() as int) =~= Seq::<Seq<u8>>::empty());
            assert(ext_expansion(base@, wv, Seq::empty()) + (slashp + rem) =~= slashp + rem);
        }
        if append_slash {
            proof {
                lemma_skip_cons(full, r@.len() as int, base@ + wv + slash_byte(), rem);
            }
            let mut slv: Vec<u8> = Vec::new();
            slv.push(47);
            let id = concat3(base, w.as_slice(), slv.as_slice());
            proof {
                assert(slv@ =~= slash_byte());
            }
            let c = make_candidate(Mode::Path, id, t);
            r.push(c);
        } else {
            proof {
                assert(Seq::<Seq<u8>>::empty() + rem =~= rem);
            }
        }
        wi += 1;
    }
    proof {
        assert(wdv.skip(wdv.len() as int) =~= Seq::<Seq<u8>>::empty());
        assert(full.skip(r@.len() as int).len() == 0);
        assert(r@.len() == full.len());
    }
    r
}

/// Identities of a DNS-mode run: each word becomes the canonical absolute
/// name `word "." domain "."`.
pub open spec fn dns_expansion(words: Seq<Seq<u8>>, domain: Seq<u8>) -> Seq<Seq<u8>> {
    words.map_values(|w: Seq<u8>| w + dot() + domain + dot())
}

/// Host header values of a vhost-mode run: `word "." domain`.
pub open spec fn vhost_expansion(words: Seq<Seq<u8>>, domain: Seq<u8>) -> Seq<Seq<u8>> {
    words.map_values(|w: Seq<u8>| w + dot() + domain)
}

/// Generate the DNS-mode candidates, one absolute domain name per word.
pub fn dns_candidates(words: &Vec<Vec<u8>>, domain: &[u8]) -> (r: Vec<Candidate>)
    ensures
        ({
            let ids = dns_expansion(words.deep_view(), domain@);
            &&& r@.len() == ids.len()
            &&& forall|i: int|
                0 <= i < r@.len() ==> (#[trigger] r@[i])@ == (CandidateView {
                    mode: Mode::Dns,
                    identity: ids[i],
                    method: Seq::empty(),
                    body: Seq::empty(),
                    headers: Seq::empty(),
                    host_override: None,
                })
        }),
{
    let ghost wdv = words.deep_view();
    let mut r: Vec<Candidate> = Vec::new();
    let mut wi: usize = 0;
    while wi < words.len()
        invariant
            wdv == words.deep_view(),
            wi <= words@.len(),
            wdv.len() == words@.len(),
            r@.len() == wi,
            forall|i: int|
                0 <= i < r@.len() ==> (#[trigger] r@[i])@ == (CandidateView {
                    mode: Mode::Dns,
                    identity: dns_expansion(wdv, domain@)[i],
                    method: Seq::empty(),
                    body: Seq::empty(),
                    headers: Seq::empty(),
                    host_override: None,
                }),
        decreases words@.len() - wi,
    {
        let w = &words[wi];
        proof {
            lemma_bytes_deep_view(words@[wi as int]);
        }
        let mut dotv: Vec<u8> = Vec::new();
        dotv.push(46);
        let stem = concat3(w.as_slice(), dotv.as_slice(), domain);
        let id = concat2(stem.as_slice(), dotv.as_slice());
        proof {
            assert(dotv@ =~= dot());
        }
        let c = Candidate {
            mode: Mode::Dns,
            identity: id,
            method: Vec::new(),
            body: Vec::new(),
            headers: Vec::new(),
            host_override: None,
        };
        proof {
            assert(c.headers.deep_view() =~= Seq::<(Seq<u8>, Seq<u8>)>::empty());
        }
        r.push(c);
        wi += 1;
    }
    r
}

/// Generate the vhost-mode candidates: the probe goes to the original URL,
/// with a host-override of `word "." domain`.
pub fn vhost_candidates(
    words: &Vec<Vec<u8>>,
    domain: &[u8],
    original_url: &[u8],
    t: &RequestTemplate,
) -> (r: Vec<Candidate>)
    ensures
        ({
            let hosts = vhost_expansion(words.deep_view(), domain@);
            &&& r@.len() == hosts.len()
            &&& forall|i: int|
                0 <= i < r@.len() ==> (#[trigger] r@[i])@ == (CandidateView {
                    mode: Mode::Vhost,
                    identity: original_url@,
                    method: t@.method,
                    body: t@.body,
                    headers: t@.headers,
                    host_override: Some(hosts[i]),
                })
        }),
{
    let ghost wdv = words.deep_view();
    let mut r: Vec<Candidate> = Vec::new();
    let mut wi: usize = 0;
    while wi < words.len()
        invariant
            wdv == words.deep_view(),
            wi <= words@.len(),
            wdv.len() == words@.len(),
            r@.len() == wi,
            forall|i: int|
                0 <= i < r@.len() ==> (#[trigger] r@[i])@ == (CandidateView {
                    mode: Mode::Vhost,
                    identity: original_url@,
                    method: t@.method,
                    body: t@.body,
                    headers: t@.headers,
                    host_override: Some(vhost_expansion(wdv, domain@)[i]),
                }),
        decreases words@.len() - wi,
    {
        let w = &words[wi];
        proof {
            lemma_bytes_deep_view(words@[wi as int]);
        }
        let mut dotv: Vec<u8> = Vec::new();
        dotv.push(46);
        let host = concat3(w.as_slice(), dotv.as_slice(), domain);
        proof {
            assert(dotv@ =~= dot());
            lemma_bytes_deep_view(host);
        }
        let c = Candidate {
            mode: Mode::Vhost,
            identity: slice_to_vec(original_url),
            method: clone_bytes(&t.method),
            body: clone_bytes(&t.body),
            headers: clone_headers(&t.headers),
            host_override: Some(host),
        };
        r.push(c);
        wi += 1;
    }
    r
}

} // verus!
