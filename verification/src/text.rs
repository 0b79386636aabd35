//! Byte-string utilities: equality, copying, trimming, substring search and
//! ASCII case folding, each verified against a small mathematical model.

use vstd::prelude::*;

verus! {

/// Line feed byte.
pub const NL: u8 = 10;

/// Carriage return byte.
pub const CR: u8 = 13;

/// The whitespace bytes that trimming removes: space and the ASCII control
/// range tab..carriage-return.
pub open spec fn is_ws(b: u8) -> bool {
    b == 32 || (9 <= b && b <= 13)
}

/// Whether `b` is a whitespace byte.
pub fn ws_byte(b: u8) -> (r: bool)
    ensures
        r == is_ws(b),
{
    b == 32 || (9 <= b && b <= 13)
}

/// Byte-for-byte equality of two byte strings.
pub fn bytes_eq(a: &Vec<u8>, b: &Vec<u8>) -> (r: bool)
    ensures
        r == (a@ == b@),
{
    if a.len() != b.len() {
        return false;
    }
    let mut i: usize = 0;
    while i < a.len()
        invariant
            i <= a@.len(),
            a@.len() == b@.len(),
            forall|j: int| 0 <= j < i ==> a@[j] == b@[j],
        decreases a@.len() - i,
    {
        if a[i] != b[i] {
            return false;
        }
        i += 1;
    }
    proof {
        assert(a@ =~= b@);
    }
    true
}

/// Copies a byte string.
pub fn bytes_clone(v: &Vec<u8>) -> (r: Vec<u8>)
    ensures
        r@ == v@,
{
    let mut out: Vec<u8> = Vec::new();
    append_bytes(&mut out, v);
    out
}

/// Appends all of `src` to `out`.
pub fn append_bytes(out: &mut Vec<u8>, src: &Vec<u8>)
    ensures
        final(out)@ == old(out)@ + src@,
{
    let ghost pre = out@;
    let mut i: usize = 0;
    while i < src.len()
        invariant
            i <= src@.len(),
            out@ == pre + src@.take(i as int),
        decreases src@.len() - i,
    {
        out.push(src[i]);
        proof {
            assert(pre + src@.take(i as int) + seq![src@[i as int]] =~= pre + src@.take(
                i as int + 1,
            ));
        }
        i += 1;
    }
    proof {
        assert(pre + src@.take(src@.len() as int) =~= pre + src@);
    }
}

/// Appends `src[from..to]` to `out`.
pub fn append_range(out: &mut Vec<u8>, src: &Vec<u8>, from: usize, to: usize)
    requires
        from <= to <= src@.len(),
    ensures
        final(out)@ == old(out)@ + src@.subrange(from as int, to as int),
{
    let ghost pre = out@;
    let mut i: usize = from;
    while i < to
        invariant
            from <= i <= to <= src@.len(),
            out@ == pre + src@.subrange(from as int, i as int),
        decreases to - i,
    {
        out.push(src[i]);
        proof {
            assert(pre + src@.subrange(from as int, i as int) + seq![src@[i as int]] =~= pre
                + src@.subrange(from as int, i as int + 1));
        }
        i += 1;
    }
}

/// `s` with leading whitespace removed.
pub open spec fn trim_start(s: Seq<u8>) -> Seq<u8>
    decreases s.len(),
{
    if s.len() > 0 && is_ws(s[0]) {
        trim_start(s.skip(1))
    } else {
        s
    }
}

/// `s` with trailing whitespace removed.
pub open spec fn trim_end(s: Seq<u8>) -> Seq<u8>
    decreases s.len(),
{
    if s.len() > 0 && is_ws(s.last()) {
        trim_end(s.drop_last())
    } else {
        s
    }
}

/// `s` with whitespace removed at both ends.
pub open spec fn trim(s: Seq<u8>) -> Seq<u8> {
    trim_end(trim_start(s))
}

proof fn lemma_trim_start_skip(s: Seq<u8>, k: int)
    requires
        0 <= k <= s.len(),
        forall|j: int| 0 <= j < k ==> is_ws(s[j]),
        k == s.len() || !is_ws(s[k]),
    ensures
        trim_start(s) == s.skip(k),
    decreases k,
{
    if k == 0 {
        assert(s.skip(0) =~= s);
    } else {
        lemma_trim_start_skip(s.skip(1), k - 1);
        assert(s.skip(1).skip(k - 1) =~= s.skip(k));
    }
}

proof fn lemma_trim_end_take(s: Seq<u8>, k: int)
    requires
        0 <= k <= s.len(),
        forall|j: int| k <= j < s.len() ==> is_ws(s[j]),
        k == 0 || !is_ws(s[k - 1]),
    ensures
        trim_end(s) == s.take(k),
    decreases s.len() - k,
{
    if k == s.len() {
        assert(s.take(k) =~= s);
    } else {
        lemma_trim_end_take(s.drop_last(), k);
        assert(s.drop_last().take(k) =~= s.take(k));
    }
}

/// Finds the bounds of the whitespace-trimmed middle of `v`: `trim(v@)` is
/// exactly `v@.subrange(r.0, r.1)`, with only whitespace outside the bounds.
pub fn trim_bounds(v: &Vec<u8>) -> (r: (usize, usize))
    ensures
        r.0 <= r.1 <= v@.len(),
        trim(v@) == v@.subrange(r.0 as int, r.1 as int),
{
    let mut lo: usize = 0;
    while lo < v.len() && ws_byte(v[lo])
        invariant
            lo <= v@.len(),
            forall|j: int| 0 <= j < lo ==> is_ws(v@[j]),
        decreases v@.len() - lo,
    {
        lo += 1;
    }
    if lo == v.len() {
        proof {
            lemma_trim_start_skip(v@, lo as int);
            assert(v@.skip(lo as int) =~= Seq::<u8>::empty());
            assert(v@.subrange(lo as int, lo as int) =~= Seq::<u8>::empty());
        }
        return (lo, lo);
    }
    let mut hi: usize = v.len();
    while hi > lo + 1 && ws_byte(v[hi - 1])
        invariant
            lo < hi <= v@.len(),
            forall|j: int| hi <= j < v@.len() ==> is_ws(v@[j]),
        decreases hi,
    {
        hi -= 1;
    }
    proof {
        lemma_trim_start_skip(v@, lo as int);
        let t = v@.skip(lo as int);
        lemma_trim_end_take(t, hi - lo);
        assert(t.take(hi - lo) =~= v@.subrange(lo as int, hi as int));
    }
    (lo, hi)
}

/// `pat` occurs in `s` at position `i`.
pub open spec fn match_at(s: Seq<u8>, pat: Seq<u8>, i: int) -> bool {
    0 <= i && i + pat.len() <= s.len() && s.subrange(i, i + pat.len()) == pat
}

/// `pat` occurs somewhere in `s`.
pub open spec fn contains_seq(s: Seq<u8>, pat: Seq<u8>) -> bool {
    exists|i: int| match_at(s, pat, i)
}

/// The position of the first occurrence of `pat` in `s`.
pub closed spec fn first_match(s: Seq<u8>, pat: Seq<u8>) -> int {
    choose|i: int|
        match_at(s, pat, i) && (forall|j: int| 0 <= j < i ==> !match_at(s, pat, j))
}

/// A position with a match and no match before it is the first match.
pub proof fn lemma_first_match(s: Seq<u8>, pat: Seq<u8>, i: int)
    requires
        match_at(s, pat, i),
        forall|j: int| 0 <= j < i ==> !match_at(s, pat, j),
    ensures
        contains_seq(s, pat),
        first_match(s, pat) == i,
{
    assert(contains_seq(s, pat));
    assert(match_at(s, pat, i) && (forall|j: int| 0 <= j < i ==> !match_at(s, pat, j)));
    let k = first_match(s, pat);
    assert(match_at(s, pat, k) && (forall|j: int| 0 <= j < k ==> !match_at(s, pat, j)));
    if k < i {
        assert(!match_at(s, pat, k));
        assert(false);
    }
    if k > i {
        assert(!match_at(s, pat, i));
        assert(false);
    }
}

proof fn lemma_first_match_from_witness(s: Seq<u8>, pat: Seq<u8>, w: int)
    requires
        match_at(s, pat, w),
    ensures
        match_at(s, pat, first_match(s, pat)),
        0 <= first_match(s, pat) <= w,
        forall|j: int| 0 <= j < first_match(s, pat) ==> !match_at(s, pat, j),
    decreases w,
{
    if forall|j: int| 0 <= j < w ==> !match_at(s, pat, j) {
        lemma_first_match(s, pat, w);
    } else {
        let j = choose|j: int| 0 <= j < w && match_at(s, pat, j);
        lemma_first_match_from_witness(s, pat, j);
    }
}

/// Where `pat` occurs at all, the first occurrence is a genuine occurrence
/// and nothing matches before it.
pub proof fn lemma_first_match_exists(s: Seq<u8>, pat: Seq<u8>)
    requires
        contains_seq(s, pat),
    ensures
        match_at(s, pat, first_match(s, pat)),
        forall|j: int| 0 <= j < first_match(s, pat) ==> !match_at(s, pat, j),
{
    let w = choose|i: int| match_at(s, pat, i);
    lemma_first_match_from_witness(s, pat, w);
}

/// Whether `pat` occurs in `s` starting at position `i`.
pub fn match_here(s: &Vec<u8>, pat: &Vec<u8>, i: usize) -> (r: bool)
    requires
        i + pat@.len() <= s@.len(),
    ensures
        r == match_at(s@, pat@, i as int),
{
    let slen = s.len();
    let mut m: usize = 0;
    while m < pat.len()
        invariant
            i + pat@.len() <= s@.len(),
            slen == s@.len(),
            m <= pat@.len(),
            forall|n: int| 0 <= n < m ==> s@[i + n] == pat@[n],
        decreases pat@.len() - m,
    {
        if s[i + m] != pat[m] {
            proof {
                assert(!match_at(s@, pat@, i as int)) by {
                    if match_at(s@, pat@, i as int) {
                        assert(s@.subrange(i as int, i + pat@.len())[m as int] == pat@[m as int]);
                    }
                };
            }
            return false;
        }
        m += 1;
    }
    proof {
        assert(s@.subrange(i as int, i + pat@.len()) =~= pat@);
    }
    true
}

/// Finds the first occurrence of `pat` in `s`, scanning left to right.
pub fn find_first(s: &Vec<u8>, pat: &Vec<u8>) -> (r: Option<usize>)
    requires
        pat@.len() >= 1,
    ensures
        match r {
            Some(i) => match_at(s@, pat@, i as int) && contains_seq(s@, pat@) && first_match(
                s@,
                pat@,
            ) == i as int,
            None => !contains_seq(s@, pat@),
        },
{
    if pat.len() > s.len() {
        proof {
            assert(forall|j: int| !match_at(s@, pat@, j));
        }
        return None;
    }
    let limit = s.len() - pat.len() + 1;
    let mut i: usize = 0;
    while i < limit
        invariant
            pat@.len() >= 1,
            pat@.len() <= s@.len(),
            limit == s@.len() - pat@.len() + 1,
            i <= limit,
            forall|j: int| 0 <= j < i ==> !match_at(s@, pat@, j),
        decreases limit - i,
    {
        if match_here(s, pat, i) {
            proof {
                lemma_first_match(s@, pat@, i as int);
            }
            return Some(i);
        }
        i += 1;
    }
    proof {
        assert(forall|j: int| 0 <= j ==> !match_at(s@, pat@, j)) by {
            assert(forall|j: int| j + pat@.len() > s@.len() ==> !match_at(s@, pat@, j));
        };
        assert(forall|j: int| !match_at(s@, pat@, j));
    }
    None
}

/// `b` occurs in `s`.
pub open spec fn contains_byte(s: Seq<u8>, b: u8) -> bool {
    exists|i: int| 0 <= i < s.len() && s[i] == b
}

/// The position of the last occurrence of `b` in `s`.
pub closed spec fn last_byte(s: Seq<u8>, b: u8) -> int {
    choose|i: int|
        0 <= i < s.len() && s[i] == b && (forall|j: int| i < j < s.len() ==> s[j] != b)
}

/// A position holding `b` with no later occurrence is the last occurrence.
pub proof fn lemma_last_byte(s: Seq<u8>, b: u8, i: int)
    requires
        0 <= i < s.len(),
        s[i] == b,
        forall|j: int| i < j < s.len() ==> s[j] != b,
    ensures
        contains_byte(s, b),
        last_byte(s, b) == i,
{
    assert(contains_byte(s, b));
    assert(0 <= i < s.len() && s[i] == b && (forall|j: int| i < j < s.len() ==> s[j] != b));
    let k = last_byte(s, b);
    assert(0 <= k < s.len() && s[k] == b && (forall|j: int| k < j < s.len() ==> s[j] != b));
    if k < i {
        assert(s[i] != b);
        assert(false);
    }
    if k > i {
        assert(s[k] != b);
        assert(false);
    }
}

proof fn lemma_last_byte_from_witness(s: Seq<u8>, b: u8, w: int)
    requires
        0 <= w < s.len(),
        s[w] == b,
    ensures
        w <= last_byte(s, b) < s.len(),
        s[last_byte(s, b)] == b,
        forall|j: int| last_byte(s, b) < j < s.len() ==> s[j] != b,
    decreases s.len() - w,
{
    if forall|j: int| w < j < s.len() ==> s[j] != b {
        lemma_last_byte(s, b, w);
    } else {
        let j = choose|j: int| w < j < s.len() && s[j] == b;
        lemma_last_byte_from_witness(s, b, j);
    }
}

/// Where `b` occurs at all, the last occurrence is a genuine occurrence and
/// nothing after it holds `b`.
pub proof fn lemma_last_byte_exists(s: Seq<u8>, b: u8)
    requires
        contains_byte(s, b),
    ensures
        0 <= last_byte(s, b) < s.len(),
        s[last_byte(s, b)] == b,
        forall|j: int| last_byte(s, b) < j < s.len() ==> s[j] != b,
{
    let w = choose|i: int| 0 <= i < s.len() && s[i] == b;
    lemma_last_byte_from_witness(s, b, w);
}

/// Finds the last occurrence of `b` in `s`, scanning right to left.
pub fn find_last_byte(s: &Vec<u8>, b: u8) -> (r: Option<usize>)
    ensures
        match r {
            Some(i) => (i as int) < s@.len() && s@[i as int] == b && contains_byte(s@, b)
                && last_byte(s@, b) == i as int,
            None => !contains_byte(s@, b),
        },
{
    let mut i: usize = s.len();
    while i > 0
        invariant
            i <= s@.len(),
            forall|j: int| i <= j < s@.len() ==> s@[j] != b,
        decreases i,
    {
        i -= 1;
        if s[i] == b {
            proof {
                lemma_last_byte(s@, b, i as int);
            }
            return Some(i);
        }
    }
    None
}

/// The position of the first occurrence of `b` in `s`.
pub closed spec fn first_byte(s: Seq<u8>, b: u8) -> int {
    choose|i: int|
        0 <= i < s.len() && s[i] == b && (forall|j: int| 0 <= j < i ==> s[j] != b)
}

/// A position holding `b` with no earlier occurrence is the first occurrence.
pub proof fn lemma_first_byte(s: Seq<u8>, b: u8, i: int)
    requires
        0 <= i < s.len(),
        s[i] == b,
        forall|j: int| 0 <= j < i ==> s[j] != b,
    ensures
        contains_byte(s, b),
        first_byte(s, b) == i,
{
    assert(contains_byte(s, b));
    assert(0 <= i < s.len() && s[i] == b && (forall|j: int| 0 <= j < i ==> s[j] != b));
    let k = first_byte(s, b);
    assert(0 <= k < s.len() && s[k] == b && (forall|j: int| 0 <= j < k ==> s[j] != b));
    if k < i {
        assert(s[k] != b);
        assert(false);
    }
    if k > i {
        assert(s[i] != b);
        assert(false);
    }
}

/// Finds the first occurrence of `b` in `s`, scanning left to right.
pub fn find_first_byte(s: &Vec<u8>, b: u8) -> (r: Option<usize>)
    ensures
        match r {
            Some(i) => (i as int) < s@.len() && s@[i as int] == b && contains_byte(s@, b)
                && first_byte(s@, b) == i as int,
            None => !contains_byte(s@, b),
        },
{
    let mut i: usize = 0;
    while i < s.len()
        invariant
            i <= s@.len(),
            forall|j: int| 0 <= j < i ==> s@[j] != b,
        decreases s@.len() - i,
    {
        if s[i] == b {
            proof {
                lemma_first_byte(s@, b, i as int);
            }
            return Some(i);
        }
        i += 1;
    }
    None
}

/// Copies `v[from..to]` into a fresh byte string.
pub fn copy_range(v: &Vec<u8>, from: usize, to: usize) -> (r: Vec<u8>)
    requires
        from <= to <= v@.len(),
    ensures
        r@ == v@.subrange(from as int, to as int),
{
    let mut out: Vec<u8> = Vec::new();
    append_range(&mut out, v, from, to);
    out
}

/// ASCII lowercase of one byte.
pub open spec fn lower_byte(b: u8) -> u8 {
    if 65 <= b && b <= 90 {
        (b + 32) as u8
    } else {
        b
    }
}

/// ASCII lowercase of a byte string.
pub open spec fn lower(s: Seq<u8>) -> Seq<u8> {
    s.map_values(|b: u8| lower_byte(b))
}

/// Folds `v` to ASCII lowercase.
pub fn to_lower(v: &Vec<u8>) -> (r: Vec<u8>)
    ensures
        r@ == lower(v@),
{
    let mut out: Vec<u8> = Vec::new();
    let mut i: usize = 0;
    while i < v.len()
        invariant
            i <= v@.len(),
            out@.len() == i,
            forall|j: int| 0 <= j < i ==> out@[j] == lower_byte(v@[j]),
        decreases v@.len() - i,
    {
        let b = v[i];
        if 65 <= b && b <= 90 {
            out.push(b + 32);
        } else {
            out.push(b);
        }
        i += 1;
    }
    proof {
        assert(out@ =~= lower(v@));
    }
    out
}

} // verus!
