//! Byte-string utilities shared by every mode of the engine: substring
//! search, containment, and non-overlapping left-to-right replacement.
//! Wordlist entries, URLs, bodies and headers are all handled as `Vec<u8>`.

use vstd::prelude::*;
use vstd::slice::slice_to_vec;

verus! {

/// `n` occurs in `h` starting exactly at position `i`.
pub open spec fn matches_at(h: Seq<u8>, n: Seq<u8>, i: int) -> bool {
    0 <= i && i + n.len() <= h.len() && h.subrange(i, i + n.len() as int) == n
}

/// `n` occurs somewhere in `h`.
pub open spec fn contains_seq(h: Seq<u8>, n: Seq<u8>) -> bool {
    exists|i: int| matches_at(h, n, i)
}

/// Replace every occurrence of `m` in `s` by `v`, scanning left to right
/// without overlap.  An empty marker leaves `s` unchanged.
pub open spec fn replace_seq(s: Seq<u8>, m: Seq<u8>, v: Seq<u8>) -> Seq<u8>
    decreases s.len(),
{
    if m.len() == 0 || s.len() < m.len() {
        s
    } else if s.subrange(0, m.len() as int) == m {
        v + replace_seq(s.skip(m.len() as int), m, v)
    } else {
        seq![s[0]] + replace_seq(s.skip(1), m, v)
    }
}

/// Compare two byte strings for equality of contents.
pub fn bytes_eq(a: &[u8], b: &[u8]) -> (r: bool)
    ensures
        r == (a@ == b@),
{
    if a.len() != b.len() {
        return false;
    }
    let mut j: usize = 0;
    while j < a.len()
        invariant
            a@.len() == b@.len(),
            j <= a@.len(),
            forall|k: int| 0 <= k < j ==> a@[k] == b@[k],
        decreases a@.len() - j,
    {
        if a[j] != b[j] {
            return false;
        }
        j += 1;
    }
    proof {
        assert(a@ =~= b@);
    }
    true
}

/// Append `src[a..b]` to `out`.
pub fn extend_bytes(out: &mut Vec<u8>, src: &[u8], a: usize, b: usize)
    requires
        a <= b <= src@.len(),
    ensures
        final(out)@ == old(out)@ + src@.subrange(a as int, b as int),
{
    let mut k: usize = a;
    while k < b
        invariant
            a <= k <= b <= src@.len(),
            out@ == old(out)@ + src@.subrange(a as int, k as int),
        decreases b - k,
    {
        out.push(src[k]);
        proof {
            assert(src@.subrange(a as int, k + 1 as int) =~= src@.subrange(
                a as int,
                k as int,
            ).push(src@[k as int]));
        }
        k += 1;
    }
}

/// Concatenation of two byte strings.
pub fn concat2(a: &[u8], b: &[u8]) -> (r: Vec<u8>)
    ensures
        r@ == a@ + b@,
{
    let mut out: Vec<u8> = Vec::new();
    extend_bytes(&mut out, a, 0, a.len());
    extend_bytes(&mut out, b, 0, b.len());
    proof {
        assert(a@.subrange(0, a@.len() as int) =~= a@);
        assert(b@.subrange(0, b@.len() as int) =~= b@);
        assert(Seq::<u8>::empty() + a@ + b@ =~= a@ + b@);
    }
    out
}

/// Concatenation of three byte strings.
pub fn concat3(a: &[u8], b: &[u8], c: &[u8]) -> (r: Vec<u8>)
    ensures
        r@ == a@ + b@ + c@,
{
    let mut out: Vec<u8> = Vec::new();
    extend_bytes(&mut out, a, 0, a.len());
    extend_bytes(&mut out, b, 0, b.len());
    extend_bytes(&mut out, c, 0, c.len());
    proof {
        assert(a@.subrange(0, a@.len() as int) =~= a@);
        assert(b@.subrange(0, b@.len() as int) =~= b@);
        assert(c@.subrange(0, c@.len() as int) =~= c@);
        assert(Seq::<u8>::empty() + a@ + b@ + c@ =~= a@ + b@ + c@);
    }
    out
}

/// `n` occurs in `h` at position `i` (runtime check).
pub fn matches_at_exec(h: &[u8], n: &[u8], i: usize) -> (r: bool)
    requires
        i + n@.len() <= h@.len(),
    ensures
        r == matches_at(h@, n@, i as int),
{
    let _hl = h.len();
    let mut j: usize = 0;
    while j < n.len()
        invariant
            i + n@.len() <= h@.len(),
            h@.len() <= usize::MAX,
            j <= n@.len(),
            forall|k: int| 0 <= k < j ==> h@[i + k] == n@[k],
        decreases n@.len() - j,
    {
        if h[i + j] != n[j] {
            proof {
                assert(h@.subrange(i as int, i + n@.len() as int)[j as int] == h@[i + j]);
            }
            return false;
        }
        j += 1;
    }
    proof {
        assert(h@.subrange(i as int, i + n@.len() as int) =~= n@);
    }
    true
}

/// Position of the first occurrence of `n` in `h` at or after `from`.
pub fn find_from(h: &[u8], n: &[u8], from: usize) -> (r: Option<usize>)
    ensures
        match r {
            Some(i) => from <= i && matches_at(h@, n@, i as int) && (forall|j: int|
                from <= j < i ==> !matches_at(h@, n@, j)),
            None => forall|j: int| from <= j ==> !matches_at(h@, n@, j),
        },
{
    if n.len() > h.len() {
        return None;
    }
    let last = h.len() - n.len();
    if from > last {
        return None;
    }
    let mut i: usize = from;
    loop
        invariant
            n@.len() <= h@.len(),
            last == h@.len() - n@.len(),
            from <= i <= last,
            forall|j: int| from <= j < i ==> !matches_at(h@, n@, j),
        decreases last - i,
    {
        if matches_at_exec(h, n, i) {
            return Some(i);
        }
        if i == last {
            return None;
        }
        i += 1;
    }
}

/// `n` occurs somewhere in `h` (runtime check).
pub fn contains_bytes(h: &[u8], n: &[u8]) -> (r: bool)
    ensures
        r == contains_seq(h@, n@),
{
    match find_from(h, n, 0) {
        Some(_) => true,
        None => false,
    }
}

/// Below `pos`, `replace_seq` has nothing left to do when no occurrence of
/// the marker remains.
proof fn lemma_replace_no_match(s: Seq<u8>, m: Seq<u8>, v: Seq<u8>, pos: int)
    requires
        0 <= pos <= s.len(),
        m.len() > 0,
        forall|j: int| pos <= j ==> !matches_at(s, m, j),
    ensures
        replace_seq(s.skip(pos), m, v) == s.skip(pos),
    decreases s.len() - pos,
{
    let t = s.skip(pos);
    if t.len() < m.len() {
    } else {
        assert(t.subrange(0, m.len() as int) =~= s.subrange(pos, pos + m.len() as int));
        if t.subrange(0, m.len() as int) == m {
            assert(matches_at(s, m, pos));
            assert(false);
        }
        lemma_replace_no_match(s, m, v, pos + 1);
        assert(t.skip(1) =~= s.skip(pos + 1));
        assert(seq![t[0]] + s.skip(pos + 1) =~= t);
    }
}

/// Unfolding `replace_seq` across the gap up to the first occurrence of the
/// marker: the gap is copied verbatim, the occurrence is replaced.
proof fn lemma_replace_match_at(s: Seq<u8>, m: Seq<u8>, v: Seq<u8>, pos: int, i: int)
    requires
        0 <= pos <= i,
        m.len() > 0,
        matches_at(s, m, i),
        forall|j: int| pos <= j < i ==> !matches_at(s, m, j),
    ensures
        replace_seq(s.skip(pos), m, v) == s.subrange(pos, i) + v + replace_seq(
            s.skip(i + m.len() as int),
            m,
            v,
        ),
    decreases i - pos,
{
    let t = s.skip(pos);
    let rest = replace_seq(s.skip(i + m.len() as int), m, v);
    if pos == i {
        assert(t.subrange(0, m.len() as int) =~= s.subrange(pos, pos + m.len() as int));
        assert(t.skip(m.len() as int) =~= s.skip(i + m.len() as int));
        assert(s.subrange(pos, i) + v + rest =~= v + rest);
    } else {
        assert(t.subrange(0, m.len() as int) =~= s.subrange(pos, pos + m.len() as int));
        if t.subrange(0, m.len() as int) == m {
            assert(matches_at(s, m, pos));
            assert(false);
        }
        lemma_replace_match_at(s, m, v, pos + 1, i);
        assert(t.skip(1) =~= s.skip(pos + 1));
        assert(seq![t[0]] + (s.subrange(pos + 1, i) + v + rest) =~= s.subrange(pos, i) + v
            + rest);
    }
}

/// Replace every occurrence of `m` in `s` by `v`, scanning left to right
/// without overlap.
pub fn replace_all(s: &[u8], m: &[u8], v: &[u8]) -> (r: Vec<u8>)
    ensures
        r@ == replace_seq(s@, m@, v@),
{
    if m.len() == 0 {
        return slice_to_vec(s);
    }
    let mut out: Vec<u8> = Vec::new();
    let mut pos: usize = 0;
    let _sl = s.len();
    proof {
        assert(s@.skip(0) =~= s@);
    }
    loop
        invariant
            pos <= s@.len(),
            s@.len() <= usize::MAX,
            m@.len() > 0,
            out@ + replace_seq(s@.skip(pos as int), m@, v@) == replace_seq(s@, m@, v@),
        decreases s@.len() - pos,
    {
        match find_from(s, m, pos) {
            Some(i) => {
                proof {
                    lemma_replace_match_at(s@, m@, v@, pos as int, i as int);
                }
                let ghost out0 = out@;
                extend_bytes(&mut out, s, pos, i);
                extend_bytes(&mut out, v, 0, v.len());
                proof {
                    assert(v@.subrange(0, v@.len() as int) =~= v@);
                    assert(out@ =~= out0 + (s@.subrange(pos as int, i as int) + v@));
                    assert(out0 + (s@.subrange(pos as int, i as int) + v@) + replace_seq(
                        s@.skip(i + m@.len() as int),
                        m@,
                        v@,
                    ) =~= out0 + (s@.subrange(pos as int, i as int) + v@ + replace_seq(
                        s@.skip(i + m@.len() as int),
                        m@,
                        v@,
                    )));
                }
                pos = i + m.len();
            },
            None => {
                proof {
                    lemma_replace_no_match(s@, m@, v@, pos as int);
                    assert(s@.subrange(pos as int, s@.len() as int) =~= s@.skip(pos as int));
                }
                extend_bytes(&mut out, s, pos, s.len());
                return out;
            },
        }
    }
}

} // verus!
