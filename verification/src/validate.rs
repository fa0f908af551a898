//! Startup validation and configuration helpers: status-code tokens are
//! checked through the HTTP library's own parser (individually invalid
//! tokens are dropped with a warning, not fatal), the target URL must parse
//! with an http or https scheme, header arguments are split at their first
//! colon, and a narrow or unknown terminal turns banner and progress bar
//! off.

use crate::bytes::bytes_eq;
use crate::candidates::lemma_bytes_deep_view;
use crate::bytes::find_from;
use crate::csrf::{first_match_from, lemma_first_match_none, lemma_first_match_some};
use vstd::prelude::*;
use vstd::slice::{slice_subrange, slice_to_vec};

verus! {

/// A syntactically valid HTTP status-code token: three ASCII digits, the
/// first one non-zero.
pub open spec fn is_valid_status_token(s: Seq<u8>) -> bool {
    s.len() == 3 && 49 <= s[0] <= 57 && 48 <= s[1] <= 57 && 48 <= s[2] <= 57
}

/// The numeric value of a valid status-code token.
pub open spec fn status_token_value(s: Seq<u8>) -> u16 {
    (((s[0] - 48) * 100 + (s[1] - 48) * 10 + (s[2] - 48)) as u16)
}

/// Relies on `StatusCode::from_bytes` of the HTTP library (hyper's
/// re-export of the `http` crate): it succeeds exactly on three ASCII
/// digits whose first is non-zero, and the code is their decimal value.
#[verifier::external_body]
fn parse_status_bytes(s: &[u8]) -> (r: Option<u16>)
    ensures
        is_valid_status_token(s@) ==> r == Some(status_token_value(s@)),
        !is_valid_status_token(s@) ==> r is None,
{
    match hyper::StatusCode::from_bytes(s) {
        Ok(c) => Some(c.as_u16()),
        Err(_) => None,
    }
}

/// The numeric codes of the valid tokens, in order.
pub open spec fn valid_codes_of(toks: Seq<Seq<u8>>) -> Seq<u16>
    decreases toks.len(),
{
    if toks.len() == 0 {
        Seq::empty()
    } else {
        let rest = valid_codes_of(toks.skip(1));
        if is_valid_status_token(toks[0]) {
            seq![status_token_value(toks[0])] + rest
        } else {
            rest
        }
    }
}

/// The non-empty tokens that are not valid status codes, in order: these
/// are reported with a warning and dropped.
pub open spec fn dropped_tokens_of(toks: Seq<Seq<u8>>) -> Seq<Seq<u8>>
    decreases toks.len(),
{
    if toks.len() == 0 {
        Seq::empty()
    } else {
        let rest = dropped_tokens_of(toks.skip(1));
        if toks[0].len() > 0 && !is_valid_status_token(toks[0]) {
            seq![toks[0]] + rest
        } else {
            rest
        }
    }
}

/// Parse a list of status-code tokens.  Empty tokens are skipped silently;
/// an individually invalid token lands in the dropped list for a warning
/// but does not abort the run.
pub fn filter_status_tokens(toks: &Vec<Vec<u8>>) -> (r: (Vec<u16>, Vec<Vec<u8>>))
    ensures
        r.0@ == valid_codes_of(toks.deep_view()),
        r.1.deep_view() == dropped_tokens_of(toks.deep_view()),
{
    let ghost dv = toks.deep_view();
    let mut codes: Vec<u16> = Vec::new();
    let mut dropped: Vec<Vec<u8>> = Vec::new();
    let mut i: usize = 0;
    proof {
        assert(dv.skip(0) =~= dv);
    }
    while i < toks.len()
        invariant
            dv == toks.deep_view(),
            i <= toks@.len(),
            dv.len() == toks@.len(),
            codes@ + valid_codes_of(dv.skip(i as int)) == valid_codes_of(dv),
            dropped.deep_view() + dropped_tokens_of(dv.skip(i as int)) == dropped_tokens_of(dv),
        decreases toks@.len() - i,
    {
        let ghost t = dv.skip(i as int);
        proof {
            lemma_bytes_deep_view(toks@[i as int]);
            assert(t[0] == dv[i as int]);
            assert(t.skip(1) =~= dv.skip(i + 1));
        }
        let tok = &toks[i];
        match parse_status_bytes(tok.as_slice()) {
            Some(code) => {
                let ghost c0 = codes@;
                codes.push(code);
                proof {
                    assert(c0.push(code) + valid_codes_of(dv.skip(i + 1)) =~= c0 + (seq![code]
                        + valid_codes_of(dv.skip(i + 1))));
                }
            },
            None => {
                if tok.len() > 0 {
                    let ghost d0 = dropped.deep_view();
                    let copy = slice_to_vec(tok.as_slice());
                    dropped.push(copy);
                    proof {
                        assert(dropped.deep_view() =~~= d0.push(dv[i as int]));
                        assert(d0.push(dv[i as int]) + dropped_tokens_of(dv.skip(i + 1)) =~= d0
                            + (seq![dv[i as int]] + dropped_tokens_of(dv.skip(i + 1))));
                    }
                }
            },
        }
        i += 1;
    }
    proof {
        assert(dv.skip(i as int) =~= Seq::<Seq<u8>>::empty());
        assert(codes@ + valid_codes_of(Seq::empty()) =~= codes@);
        assert(dropped.deep_view() + dropped_tokens_of(Seq::empty()) =~= dropped.deep_view());
    }
    (codes, dropped)
}

/// What the HTTP library's URI parser finds for a given input: nothing when
/// the input does not parse as a URI; otherwise the scheme, when one is
/// present, as bytes.
pub uninterp spec fn uri_scheme_of(url: Seq<u8>) -> Option<Option<Seq<u8>>>;

enum SchemeParse {
    Invalid,
    NoScheme,
    Scheme(Vec<u8>),
}

/// Relies on `Uri::try_from` and `Uri::scheme_str` of the HTTP library
/// (hyper's re-export of the `http` crate): parsing is a pure function of
/// the input bytes, and the parsed scheme is handed back as bytes.
#[verifier::external_body]
fn parse_uri_scheme(url: &[u8]) -> (r: SchemeParse)
    ensures
        match r {
            SchemeParse::Invalid => uri_scheme_of(url@) is None,
            SchemeParse::NoScheme => uri_scheme_of(url@) == Some(None::<Seq<u8>>),
            SchemeParse::Scheme(s) => uri_scheme_of(url@) == Some(Some(s@)),
        },
{
    match hyper::Uri::try_from(url) {
        Err(_) => SchemeParse::Invalid,
        Ok(u) => match u.scheme_str() {
            None => SchemeParse::NoScheme,
            Some(s) => SchemeParse::Scheme(s.as_bytes().to_vec()),
        },
    }
}

pub open spec fn http_scheme() -> Seq<u8> {
    seq![104u8, 116u8, 116u8, 112u8]
}

pub open spec fn https_scheme() -> Seq<u8> {
    seq![104u8, 116u8, 116u8, 112u8, 115u8]
}

/// The verdict on a target URL.
#[derive(Clone, Copy, PartialEq, Eq, Structural, Debug)]
pub enum UrlCheck {
    Valid,
    Invalid,
    MissingScheme,
    UnsupportedScheme,
}

/// How run startup classifies a target URL.
pub open spec fn url_check_spec(url: Seq<u8>) -> UrlCheck {
    match uri_scheme_of(url) {
        None => UrlCheck::Invalid,
        Some(None) => UrlCheck::MissingScheme,
        Some(Some(s)) => if s == http_scheme() || s == https_scheme() {
            UrlCheck::Valid
        } else {
            UrlCheck::UnsupportedScheme
        },
    }
}

/// Validate a target URL before any dispatch: it must parse as a URI and
/// carry an http or https scheme.
pub fn check_target_url(url: &[u8]) -> (r: UrlCheck)
    ensures
        r == url_check_spec(url@),
{
    match parse_uri_scheme(url) {
        SchemeParse::Invalid => UrlCheck::Invalid,
        SchemeParse::NoScheme => UrlCheck::MissingScheme,
        SchemeParse::Scheme(s) => {
            let mut word: Vec<u8> = Vec::new();
            word.push(104);
            word.push(116);
            word.push(116);
            word.push(112);
            proof {
                assert(word@ =~= http_scheme());
            }
            let is_http = bytes_eq(s.as_slice(), word.as_slice());
            word.push(115);
            proof {
                assert(word@ =~= https_scheme());
            }
            let is_https = bytes_eq(s.as_slice(), word.as_slice());
            if is_http || is_https {
                UrlCheck::Valid
            } else {
                UrlCheck::UnsupportedScheme
            }
        },
    }
}

/// A header value with its leading spaces removed.
pub open spec fn trim_leading_spaces(s: Seq<u8>) -> Seq<u8>
    decreases s.len(),
{
    if s.len() > 0 && s[0] == 32 {
        trim_leading_spaces(s.skip(1))
    } else {
        s
    }
}

/// Splitting a header argument at its first colon: the name before it, the
/// value after it with leading spaces removed.  Without a colon the whole
/// text is the name and the value is empty.
pub open spec fn header_split_spec(h: Seq<u8>) -> (Seq<u8>, Seq<u8>) {
    match first_match_from(h, seq![58u8], 0) {
        None => (h, Seq::empty()),
        Some(i) => (h.take(i), trim_leading_spaces(h.skip(i + 1))),
    }
}

/// Dropping a known run of leading spaces at once.
proof fn lemma_trim_at(s: Seq<u8>, k: int, t: int)
    requires
        0 <= k <= t <= s.len(),
        forall|j: int| k <= j < t ==> s[j] == 32,
        t < s.len() ==> s[t] != 32,
    ensures
        trim_leading_spaces(s.skip(k)) == s.skip(t),
    decreases t - k,
{
    if k == t {
    } else {
        assert(s.skip(k)[0] == s[k]);
        lemma_trim_at(s, k + 1, t);
        assert(s.skip(k).skip(1) =~= s.skip(k + 1));
    }
}

/// Split a header argument into name and value.
pub fn split_header(h: &[u8]) -> (r: (Vec<u8>, Vec<u8>))
    ensures
        (r.0@, r.1@) == header_split_spec(h@),
{
    let mut colon: Vec<u8> = Vec::new();
    colon.push(58);
    let hl = h.len();
    let i = match find_from(h, colon.as_slice(), 0) {
        Some(i) => i,
        None => {
            proof {
                assert(colon@ =~= seq![58u8]);
                lemma_first_match_none(h@, seq![58u8], 0);
            }
            return (slice_to_vec(h), Vec::new());
        },
    };
    proof {
        assert(colon@ =~= seq![58u8]);
        lemma_first_match_some(h@, seq![58u8], 0, i as int);
    }
    let name = slice_to_vec(slice_subrange(h, 0, i));
    let mut start: usize = i + 1;
    while start < hl && h[start] == 32
        invariant
            i + 1 <= start <= hl,
            hl == h@.len(),
            forall|j: int| i + 1 <= j < start ==> h@[j] == 32,
        decreases hl - start,
    {
        start += 1;
    }
    proof {
        lemma_trim_at(h@, i + 1, start as int);
        assert(h@.take(i as int) =~= h@.subrange(0, i as int));
        assert(h@.skip(start as int) =~= h@.subrange(start as int, hl as int));
    }
    let value = slice_to_vec(slice_subrange(h, start, hl));
    (name, value)
}

/// Banner and progress-bar adjustment from the terminal size: a terminal
/// under 122 columns drops the banner, under 104 also the progress bar;
/// an unknown size drops both.
pub fn adjust_display(size: Option<(u16, u16)>, no_banner: bool, no_progress_bar: bool) -> (r: (
    bool,
    bool,
))
    ensures
        match size {
            Some(wh) => r.0 == (no_banner || wh.0 < 122) && r.1 == (no_progress_bar || wh.0
                < 104),
            None => r.0 && r.1,
        },
{
    match size {
        Some((w, _h)) => (no_banner || w < 122, no_progress_bar || w < 104),
        None => (true, true),
    }
}

} // verus!
