//! Wordlist handling: a wordlist file holds one token per line; carriage
//! returns are tolerated and blank lines are dropped before expansion.
//! Reading the file itself is the caller's business; this module turns the
//! raw file contents into the ordered word sequence that drives generation.

use crate::bytes::{find_from, matches_at};
use vstd::prelude::*;
use vstd::slice::{slice_subrange, slice_to_vec};

verus! {

/// Index of the first line feed in `s`, or `s.len()` when there is none.
pub open spec fn line_break(s: Seq<u8>) -> int
    decreases s.len(),
{
    if s.len() == 0 {
        0
    } else if s[0] == 10 {
        0
    } else {
        1 + line_break(s.skip(1))
    }
}

pub proof fn lemma_line_break(s: Seq<u8>)
    ensures
        0 <= line_break(s) <= s.len(),
        forall|k: int| 0 <= k < line_break(s) ==> s[k] != 10,
        line_break(s) < s.len() ==> s[line_break(s)] == 10,
    decreases s.len(),
{
    if s.len() == 0 {
    } else if s[0] == 10 {
    } else {
        lemma_line_break(s.skip(1));
        assert forall|k: int| 0 <= k < line_break(s) implies s[k] != 10 by {
            if k >= 1 {
                assert(s.skip(1)[k - 1] == s[k]);
            }
        }
        if line_break(s) < s.len() {
            assert(s.skip(1)[line_break(s) - 1] == s[line_break(s)]);
        }
    }
}

/// The first line feed at or after `pos` determines `line_break` of the tail.
proof fn lemma_line_break_at(s: Seq<u8>, pos: int, i: int)
    requires
        0 <= pos <= i <= s.len(),
        forall|k: int| pos <= k < i ==> s[k] != 10,
        i < s.len() ==> s[i] == 10,
    ensures
        line_break(s.skip(pos)) == i - pos,
    decreases i - pos,
{
    let t = s.skip(pos);
    if pos == i {
        if i < s.len() {
            assert(t[0] == s[pos]);
        }
    } else {
        assert(t[0] == s[pos]);
        assert(t.len() > 0);
        lemma_line_break_at(s, pos + 1, i);
        assert(t.skip(1) =~= s.skip(pos + 1));
    }
}

/// A line with a trailing carriage return removed.
pub open spec fn strip_cr(l: Seq<u8>) -> Seq<u8> {
    if l.len() > 0 && l[l.len() - 1] == 13 {
        l.take(l.len() - 1)
    } else {
        l
    }
}

#[via_fn]
proof fn words_of_dec(data: Seq<u8>) {
    lemma_line_break(data);
}

/// The words of a wordlist file: its lines in file order, carriage returns
/// stripped, blank lines dropped.
pub open spec fn words_of(data: Seq<u8>) -> Seq<Seq<u8>>
    decreases data.len() via words_of_dec
{
    if data.len() == 0 {
        Seq::empty()
    } else {
        let i = line_break(data);
        let w = strip_cr(data.subrange(0, i));
        let rest = if i < data.len() {
            words_of(data.skip(i + 1))
        } else {
            Seq::<Seq<u8>>::empty()
        };
        if w.len() > 0 {
            seq![w] + rest
        } else {
            rest
        }
    }
}

/// Parse raw wordlist file contents into the word sequence.
pub fn parse_wordlist(data: &[u8]) -> (r: Vec<Vec<u8>>)
    ensures
        r.deep_view() == words_of(data@),
{
    let mut out: Vec<Vec<u8>> = Vec::new();
    let mut nlv: Vec<u8> = Vec::new();
    nlv.push(10);
    let len = data.len();
    let mut pos: usize = 0;
    proof {
        assert(data@.skip(0) =~= data@);
    }
    while pos < len
        invariant
            len == data@.len(),
            pos <= len,
            nlv@ == seq![10u8],
            out.deep_view() + words_of(data@.skip(pos as int)) == words_of(data@),
        decreases len - pos,
    {
        let j = match find_from(data, nlv.as_slice(), pos) {
            Some(j) => j,
            None => len,
        };
        proof {
            assert forall|k: int| pos <= k < j implies data@[k] != 10 by {
                assert(!matches_at(data@, nlv@, k));
                assert(data@.subrange(k, k + 1) =~= seq![data@[k]]);
            }
            if j < len {
                assert(matches_at(data@, nlv@, j as int));
                assert(data@.subrange(j as int, j + 1 as int) =~= seq![data@[j as int]]);
                assert(seq![data@[j as int]][0] == nlv@[0]);
                assert(data@[j as int] == 10);
            }
            lemma_line_break_at(data@, pos as int, j as int);
        }
        let end = if j > pos && data[j - 1] == 13 {
            j - 1
        } else {
            j
        };
        let w = slice_to_vec(slice_subrange(data, pos, end));
        let ghost t = data@.skip(pos as int);
        proof {
            assert(t.subrange(0, j - pos as int) =~= data@.subrange(pos as int, j as int));
            if j > pos && data@[j - 1] == 13 {
                assert(data@.subrange(pos as int, j as int).take(j - 1 - pos as int)
                    =~= data@.subrange(pos as int, j - 1));
            }
            assert(strip_cr(t.subrange(0, line_break(t))) == data@.subrange(
                pos as int,
                end as int,
            ));
        }
        let ghost prev = out.deep_view();
        let ghost wv = w@;
        if w.len() > 0 {
            out.push(w);
            proof {
                assert(out.deep_view() =~~= prev.push(wv));
            }
        }
        let newpos = if j < len {
            j + 1
        } else {
            len
        };
        proof {
            if j < len {
                assert(t.skip(j - pos + 1) =~= data@.skip(newpos as int));
            } else {
                assert(line_break(t) == t.len());
                assert(data@.skip(newpos as int) =~= Seq::<u8>::empty());
            }
            let rest = words_of(data@.skip(newpos as int));
            if wv.len() > 0 {
                assert(words_of(t) == seq![wv] + rest);
                assert(prev.push(wv) + rest =~= prev + (seq![wv] + rest));
            } else {
                assert(words_of(t) == rest);
            }
        }
        pos = newpos;
    }
    proof {
        assert(data@.skip(pos as int) =~= Seq::<u8>::empty());
        assert(out.deep_view() + words_of(Seq::<u8>::empty()) =~= out.deep_view());
    }
    out
}

/// The subsequence of non-empty entries, in order.
pub open spec fn keep_nonempty(s: Seq<Seq<u8>>) -> Seq<Seq<u8>>
    decreases s.len(),
{
    if s.len() == 0 {
        Seq::empty()
    } else {
        let rest = keep_nonempty(s.skip(1));
        if s[0].len() > 0 {
            seq![s[0]] + rest
        } else {
            rest
        }
    }
}

/// Drop empty entries from a list of extensions (or any token list).
pub fn sanitize_tokens(toks: &Vec<Vec<u8>>) -> (r: Vec<Vec<u8>>)
    ensures
        r.deep_view() == keep_nonempty(toks.deep_view()),
{
    let mut out: Vec<Vec<u8>> = Vec::new();
    let ghost dv = toks.deep_view();
    let mut i: usize = 0;
    proof {
        assert(dv.skip(0) =~= dv);
    }
    while i < toks.len()
        invariant
            dv == toks.deep_view(),
            i <= toks@.len(),
            dv.len() == toks@.len(),
            out.deep_view() + keep_nonempty(dv.skip(i as int)) == keep_nonempty(dv),
        decreases toks@.len() - i,
    {
        let ghost t = dv.skip(i as int);
        proof {
            assert(t[0] == dv[i as int]);
            assert(t.skip(1) =~= dv.skip(i + 1));
        }
        if toks[i].len() > 0 {
            let ghost prev = out.deep_view();
            let w = slice_to_vec(toks[i].as_slice());
            out.push(w);
            proof {
                assert(out.deep_view() =~~= prev.push(dv[i as int]));
                assert(prev.push(dv[i as int]) + keep_nonempty(dv.skip(i + 1)) =~= prev + (seq![
                    dv[i as int],
                ] + keep_nonempty(dv.skip(i + 1))));
            }
        }
        i += 1;
    }
    proof {
        assert(dv.skip(i as int) =~= Seq::<Seq<u8>>::empty());
        assert(out.deep_view() + keep_nonempty(Seq::<Seq<u8>>::empty()) =~= out.deep_view());
    }
    out
}

} // verus!
