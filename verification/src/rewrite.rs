//! Playlist rewriting: each segment-reference line of an M3U8 playlist is
//! redirected through the proxy's external base URL; every other line is
//! kept unchanged. Lines are split at line feeds and rejoined with a single
//! line feed.

use vstd::prelude::*;
use crate::text::{
    CR, NL, append_bytes, append_range, bytes_clone, contains_byte, contains_seq, find_first,
    find_last_byte, first_match, last_byte, trim, trim_bounds,
};

verus! {

/// The byte `/`.
pub const SLASH: u8 = 47;

/// The byte `#`, the playlist comment and tag marker.
pub const HASH: u8 = 35;

/// The marker `ace/c/` that identifies an upstream segment path inside a line.
pub open spec fn marker() -> Seq<u8> {
    seq![97u8, 99u8, 101u8, 47u8, 99u8, 47u8]
}

/// The route prefix `/ace/c/` that rewritten lines are routed through.
pub open spec fn route_prefix() -> Seq<u8> {
    seq![47u8, 97u8, 99u8, 101u8, 47u8, 99u8, 47u8]
}

/// The segment file suffix `.ts`.
pub open spec fn ts_suffix() -> Seq<u8> {
    seq![46u8, 116u8, 115u8]
}

/// The marker as a byte vector.
fn marker_vec() -> (r: Vec<u8>)
    ensures
        r@ == marker(),
{
    let v: Vec<u8> = vec![97, 99, 101, 47, 99, 47];
    proof {
        assert(v@ =~= marker());
    }
    v
}

/// The route prefix as a byte vector.
pub fn route_prefix_vec() -> (r: Vec<u8>)
    ensures
        r@ == route_prefix(),
{
    let v: Vec<u8> = vec![47, 97, 99, 101, 47, 99, 47];
    proof {
        assert(v@ =~= route_prefix());
    }
    v
}

/// A line is a rewrite candidate when its whitespace-trimmed form ends with
/// `.ts` and does not start with `#`.
pub open spec fn is_candidate(line: Seq<u8>) -> bool {
    let t = trim(line);
    t.len() >= 3 && t.skip(t.len() - 3) == ts_suffix() && t[0] != HASH
}

/// The rewriting of one playlist line against the external base URL `base`:
/// a non-candidate line is kept unchanged; a candidate line containing the
/// marker becomes `base`, the route prefix, and everything after the first
/// marker; a candidate line containing a slash but no marker becomes `base`,
/// the route prefix, and everything after the last slash; a candidate line
/// with neither is kept unchanged.
pub open spec fn rewrite_line_spec(line: Seq<u8>, base: Seq<u8>) -> Seq<u8> {
    if !is_candidate(line) {
        line
    } else if contains_seq(line, marker()) {
        base + route_prefix() + line.skip(first_match(line, marker()) + marker().len())
    } else if contains_byte(line, SLASH) {
        base + route_prefix() + line.skip(last_byte(line, SLASH) + 1)
    } else {
        line
    }
}

/// Whether a line is a rewrite candidate.
pub fn line_is_candidate(line: &Vec<u8>) -> (r: bool)
    ensures
        r == is_candidate(line@),
{
    let (lo, hi) = trim_bounds(line);
    if hi - lo < 3 {
        return false;
    }
    let ghost t = line@.subrange(lo as int, hi as int);
    let bytes_ok = line[hi - 3] == 46 && line[hi - 2] == 116 && line[hi - 1] == 115;
    let cand = bytes_ok && line[lo] != HASH;
    proof {
        assert(t[0] == line@[lo as int]);
        assert(t[t.len() - 3] == line@[hi - 3]);
        assert(t[t.len() - 2] == line@[hi - 2]);
        assert(t[t.len() - 1] == line@[hi - 1]);
        if bytes_ok {
            assert(t.skip(t.len() - 3) =~= ts_suffix());
        } else {
            assert(t.skip(t.len() - 3)[0] == t[t.len() - 3]);
            assert(t.skip(t.len() - 3)[1] == t[t.len() - 2]);
            assert(t.skip(t.len() - 3)[2] == t[t.len() - 1]);
            assert(ts_suffix()[0] == 46 && ts_suffix()[1] == 116 && ts_suffix()[2] == 115);
            assert(!is_candidate(line@));
        }
    }
    cand
}

/// Builds `base`, the route prefix, and the tail of `line` from `from` on.
fn route_tail(base: &Vec<u8>, line: &Vec<u8>, from: usize) -> (r: Vec<u8>)
    requires
        from <= line@.len(),
    ensures
        r@ == base@ + route_prefix() + line@.skip(from as int),
{
    let mut out = bytes_clone(base);
    let pre = route_prefix_vec();
    append_bytes(&mut out, &pre);
    append_range(&mut out, line, from, line.len());
    proof {
        assert(line@.subrange(from as int, line@.len() as int) =~= line@.skip(from as int));
    }
    out
}

/// Rewrites one playlist line so that a segment reference resolves through
/// the external base URL. A line that is not a segment reference is returned
/// unchanged.
pub fn rewrite_m3u8_line(line: &Vec<u8>, external_base_url: &Vec<u8>) -> (r: Vec<u8>)
    ensures
        r@ == rewrite_line_spec(line@, external_base_url@),
        !is_candidate(line@) ==> r@ == line@,
{
    if !line_is_candidate(line) {
        return bytes_clone(line);
    }
    let n = line.len();
    let mk = marker_vec();
    match find_first(line, &mk) {
        Some(i) => route_tail(external_base_url, line, i + mk.len()),
        None => {
            match find_last_byte(line, SLASH) {
                Some(p) => route_tail(external_base_url, line, p + 1),
                None => {
                    proof {
                        assert(!contains_seq(line@, marker()));
                        assert(!contains_byte(line@, SLASH));
                    }
                    bytes_clone(line)
                },
            }
        },
    }
}

/// The lines of `s`: pieces split at line feeds, with a carriage return
/// dropped when it stands immediately before a line feed; text after the
/// last line feed forms a final line only when it is nonempty.
pub open spec fn lines_of(s: Seq<u8>) -> Seq<Seq<u8>>
    decreases s.len(),
{
    if s.len() == 0 {
        seq![]
    } else if s[0] == NL {
        seq![Seq::<u8>::empty()] + lines_of(s.skip(1))
    } else if s[0] == CR && s.len() >= 2 && s[1] == NL {
        seq![Seq::<u8>::empty()] + lines_of(s.skip(2))
    } else {
        let rest = lines_of(s.skip(1));
        if rest.len() == 0 {
            seq![seq![s[0]]]
        } else {
            rest.update(0, seq![s[0]] + rest[0])
        }
    }
}

/// Lines joined with a single line feed between them.
pub open spec fn join_lines(ls: Seq<Seq<u8>>) -> Seq<u8>
    decreases ls.len(),
{
    if ls.len() == 0 {
        seq![]
    } else if ls.len() == 1 {
        ls[0]
    } else {
        ls[0] + seq![NL] + join_lines(ls.skip(1))
    }
}

/// The rewriting of whole playlist text: every line rewritten against
/// `base`, the lines rejoined with a single line feed.
pub open spec fn rewrite_playlist_spec(s: Seq<u8>, base: Seq<u8>) -> Seq<u8> {
    join_lines(lines_of(s).map_values(|l: Seq<u8>| rewrite_line_spec(l, base)))
}

/// A partial line `cur` placed before the lines `rest`: it extends the first
/// of them, and on its own it forms a line only when it is nonempty.
pub open spec fn glue(cur: Seq<u8>, rest: Seq<Seq<u8>>) -> Seq<Seq<u8>> {
    if rest.len() == 0 {
        if cur.len() == 0 {
            seq![]
        } else {
            seq![cur]
        }
    } else {
        rest.update(0, cur + rest[0])
    }
}

proof fn lemma_glue_empty(rest: Seq<Seq<u8>>)
    ensures
        glue(Seq::<u8>::empty(), rest) == rest,
{
    if rest.len() == 0 {
    } else {
        assert(Seq::<u8>::empty() + rest[0] =~= rest[0]);
        assert(rest.update(0, Seq::<u8>::empty() + rest[0]) =~= rest);
    }
}

proof fn lemma_glue_push(cur: Seq<u8>, b: u8, rest: Seq<Seq<u8>>)
    ensures
        glue(cur, glue(seq![b], rest)) == glue(cur.push(b), rest),
{
    assert(cur + seq![b] =~= cur.push(b));
    if rest.len() == 0 {
        assert(glue(seq![b], rest) == seq![seq![b]]);
        assert(glue(cur, seq![seq![b]]) == seq![seq![b]].update(0, cur + seq![b]));
        assert(seq![seq![b]].update(0, cur + seq![b]) =~= seq![cur.push(b)]);
    } else {
        let mid = rest.update(0, seq![b] + rest[0]);
        assert(glue(seq![b], rest) == mid);
        assert(mid.len() == rest.len());
        assert(glue(cur, mid) == mid.update(0, cur + mid[0]));
        assert(cur + (seq![b] + rest[0]) =~= cur.push(b) + rest[0]);
        assert(mid.update(0, cur + mid[0]) =~= rest.update(0, cur.push(b) + rest[0]));
    }
}

/// Splits `v` into its lines.
pub fn split_into_lines(v: &Vec<u8>) -> (r: Vec<Vec<u8>>)
    ensures
        r@.map_values(|l: Vec<u8>| l@) == lines_of(v@),
{
    let mut done: Vec<Vec<u8>> = Vec::new();
    let mut cur: Vec<u8> = Vec::new();
    let mut i: usize = 0;
    proof {
        lemma_glue_empty(lines_of(v@));
        assert(done@.map_values(|l: Vec<u8>| l@) =~= Seq::<Seq<u8>>::empty());
        assert(v@.skip(0) =~= v@);
    }
    while i < v.len()
        invariant
            i <= v@.len(),
            lines_of(v@) == done@.map_values(|l: Vec<u8>| l@) + glue(
                cur@,
                lines_of(v@.skip(i as int)),
            ),
        decreases v@.len() - i,
    {
        let ghost old_done = done@;
        let ghost old_cur = cur@;
        let ghost oi = i as int;
        let ghost s = v@.skip(oi);
        let b = v[i];
        proof {
            assert(s.len() == v@.len() - oi);
            assert(s[0] == v@[oi]);
        }
        if b == NL {
            proof {
                assert(s.skip(1) =~= v@.skip(oi + 1));
                assert(lines_of(s) == seq![Seq::<u8>::empty()] + lines_of(v@.skip(oi + 1)));
                let rest = lines_of(v@.skip(oi + 1));
                lemma_glue_empty(rest);
                assert(glue(old_cur, seq![Seq::<u8>::empty()] + rest) =~= seq![old_cur] + rest);
            }
            done.push(cur);
            cur = Vec::new();
            i += 1;
            proof {
                assert(done@.map_values(|l: Vec<u8>| l@) =~= old_done.map_values(
                    |l: Vec<u8>| l@,
                ).push(old_cur));
                assert(old_done.map_values(|l: Vec<u8>| l@) + (seq![old_cur] + lines_of(
                    v@.skip(i as int),
                )) =~= done@.map_values(|l: Vec<u8>| l@) + glue(cur@, lines_of(v@.skip(i as int))));
            }
        } else if b == CR && i + 1 < v.len() && v[i + 1] == NL {
            proof {
                assert(s.len() >= 2 && s[1] == v@[oi + 1]);
                assert(s.skip(2) =~= v@.skip(oi + 2));
                assert(lines_of(s) == seq![Seq::<u8>::empty()] + lines_of(v@.skip(oi + 2)));
                let rest = lines_of(v@.skip(oi + 2));
                lemma_glue_empty(rest);
                assert(glue(old_cur, seq![Seq::<u8>::empty()] + rest) =~= seq![old_cur] + rest);
            }
            done.push(cur);
            cur = Vec::new();
            i += 2;
            proof {
                assert(done@.map_values(|l: Vec<u8>| l@) =~= old_done.map_values(
                    |l: Vec<u8>| l@,
                ).push(old_cur));
                assert(old_done.map_values(|l: Vec<u8>| l@) + (seq![old_cur] + lines_of(
                    v@.skip(i as int),
                )) =~= done@.map_values(|l: Vec<u8>| l@) + glue(cur@, lines_of(v@.skip(i as int))));
            }
        } else {
            proof {
                assert(s.skip(1) =~= v@.skip(oi + 1));
                assert(!(s[0] == NL));
                assert(!(s[0] == CR && s.len() >= 2 && s[1] == NL)) by {
                    if s.len() >= 2 {
                        assert(s[1] == v@[oi + 1]);
                    }
                };
                assert(lines_of(s) == glue(seq![s[0]], lines_of(v@.skip(oi + 1)))) by {
                    let rest = lines_of(v@.skip(oi + 1));
                    if rest.len() == 0 {
                        assert(lines_of(s) == seq![seq![s[0]]]);
                        assert(glue(seq![s[0]], rest) == seq![seq![s[0]]]);
                    } else {
                        assert(lines_of(s) == rest.update(0, seq![s[0]] + rest[0]));
                    }
                };
                lemma_glue_push(old_cur, b, lines_of(v@.skip(oi + 1)));
            }
            cur.push(b);
            i += 1;
        }
    }
    proof {
        assert(v@.skip(v@.len() as int) =~= Seq::<u8>::empty());
        assert(lines_of(Seq::<u8>::empty()) == Seq::<Seq<u8>>::empty());
    }
    if cur.len() > 0 {
        let ghost old_done = done@;
        let ghost old_cur = cur@;
        done.push(cur);
        proof {
            assert(glue(old_cur, Seq::<Seq<u8>>::empty()) == seq![old_cur]);
            assert(done@.map_values(|l: Vec<u8>| l@) =~= old_done.map_values(
                |l: Vec<u8>| l@,
            ).push(old_cur));
            assert(done@.map_values(|l: Vec<u8>| l@) =~= old_done.map_values(|l: Vec<u8>| l@)
                + seq![old_cur]);
        }
    } else {
        proof {
            assert(glue(cur@, Seq::<Seq<u8>>::empty()) == Seq::<Seq<u8>>::empty());
            assert(done@.map_values(|l: Vec<u8>| l@) + Seq::<Seq<u8>>::empty() =~= done@.map_values(
                |l: Vec<u8>| l@,
            ));
        }
    }
    done
}

proof fn lemma_join_push(ls: Seq<Seq<u8>>, x: Seq<u8>)
    ensures
        ls.len() == 0 ==> join_lines(ls.push(x)) == x,
        ls.len() > 0 ==> join_lines(ls.push(x)) == join_lines(ls) + seq![NL] + x,
    decreases ls.len(),
{
    if ls.len() == 0 {
        assert(ls.push(x) =~= seq![x]);
        assert(join_lines(seq![x]) == x);
    } else if ls.len() == 1 {
        assert(ls.push(x).len() == 2);
        assert(ls.push(x).skip(1) =~= seq![x]);
        assert(join_lines(ls.push(x)) == ls[0] + seq![NL] + join_lines(seq![x]));
        assert(join_lines(ls) == ls[0]);
    } else {
        assert(ls.push(x).skip(1) =~= ls.skip(1).push(x));
        lemma_join_push(ls.skip(1), x);
        assert(join_lines(ls.push(x)) == ls[0] + seq![NL] + join_lines(ls.skip(1).push(x)));
        assert(ls[0] + seq![NL] + (join_lines(ls.skip(1)) + seq![NL] + x) =~= (ls[0] + seq![NL]
            + join_lines(ls.skip(1))) + seq![NL] + x);
    }
}

/// Joins lines with a single line feed between them.
pub fn join_into_text(lines: &Vec<Vec<u8>>) -> (r: Vec<u8>)
    ensures
        r@ == join_lines(lines@.map_values(|l: Vec<u8>| l@)),
{
    let ghost lv = lines@.map_values(|l: Vec<u8>| l@);
    let mut out: Vec<u8> = Vec::new();
    let mut k: usize = 0;
    while k < lines.len()
        invariant
            k <= lines@.len(),
            lv == lines@.map_values(|l: Vec<u8>| l@),
            out@ == join_lines(lv.take(k as int)),
        decreases lines@.len() - k,
    {
        if k > 0 {
            out.push(NL);
        }
        append_bytes(&mut out, &lines[k]);
        proof {
            assert(lv.take(k as int).push(lv[k as int]) =~= lv.take(k as int + 1));
            lemma_join_push(lv.take(k as int), lv[k as int]);
            if k == 0 {
                assert(out@ =~= lv[0]);
            }
        }
        k += 1;
    }
    proof {
        assert(lv.take(lv.len() as int) =~= lv);
    }
    out
}

/// Rewrites whole playlist text: splits it into lines, rewrites each line
/// against the external base URL, and rejoins the lines with line feeds.
pub fn rewrite_playlist(text: &Vec<u8>, external_base_url: &Vec<u8>) -> (r: Vec<u8>)
    ensures
        r@ == rewrite_playlist_spec(text@, external_base_url@),
{
    let ghost base = external_base_url@;
    let ghost orig = lines_of(text@);
    let lines = split_into_lines(text);
    let mut rewritten: Vec<Vec<u8>> = Vec::new();
    let mut k: usize = 0;
    while k < lines.len()
        invariant
            k <= lines@.len(),
            lines@.map_values(|l: Vec<u8>| l@) == orig,
            base == external_base_url@,
            rewritten@.map_values(|l: Vec<u8>| l@) == orig.map_values(
                |l: Seq<u8>| rewrite_line_spec(l, base),
            ).take(k as int),
        decreases lines@.len() - k,
    {
        let rw = rewrite_m3u8_line(&lines[k], external_base_url);
        proof {
            assert(lines@.map_values(|l: Vec<u8>| l@)[k as int] == lines@[k as int]@);
            assert(rw@ == rewrite_line_spec(orig[k as int], base));
        }
        rewritten.push(rw);
        proof {
            let m = orig.map_values(|l: Seq<u8>| rewrite_line_spec(l, base));
            assert(rewritten@.map_values(|l: Vec<u8>| l@) =~= m.take(k as int).push(m[k as int]));
            assert(m.take(k as int).push(m[k as int]) =~= m.take(k as int + 1));
        }
        k += 1;
    }
    proof {
        let m = orig.map_values(|l: Seq<u8>| rewrite_line_spec(l, base));
        assert(m.take(m.len() as int) =~= m);
    }
    join_into_text(&rewritten)
}

/// `l` with one trailing carriage return removed, as the line splitter does
/// for a line ended by a carriage return and line feed pair.
pub open spec fn strip_cr(l: Seq<u8>) -> Seq<u8> {
    if l.len() > 0 && l.last() == CR {
        l.drop_last()
    } else {
        l
    }
}

/// Every line produced by the splitter is free of line feeds.
proof fn lemma_lines_nl_free(s: Seq<u8>)
    ensures
        forall|k: int|
            0 <= k < lines_of(s).len() ==> !contains_byte(#[trigger] lines_of(s)[k], NL),
    decreases s.len(),
{
    if s.len() == 0 {
    } else if s[0] == NL {
        lemma_lines_nl_free(s.skip(1));
        assert(forall|k: int|
            0 <= k < lines_of(s).len() ==> !contains_byte(#[trigger] lines_of(s)[k], NL)) by {
            assert(!contains_byte(lines_of(s)[0], NL));
            assert(forall|k: int|
                1 <= k < lines_of(s).len() ==> lines_of(s)[k] == lines_of(s.skip(1))[k - 1]);
        };
    } else if s[0] == CR && s.len() >= 2 && s[1] == NL {
        lemma_lines_nl_free(s.skip(2));
        assert(forall|k: int|
            0 <= k < lines_of(s).len() ==> !contains_byte(#[trigger] lines_of(s)[k], NL)) by {
            assert(!contains_byte(lines_of(s)[0], NL));
            assert(forall|k: int|
                1 <= k < lines_of(s).len() ==> lines_of(s)[k] == lines_of(s.skip(2))[k - 1]);
        };
    } else {
        lemma_lines_nl_free(s.skip(1));
        let rest = lines_of(s.skip(1));
        if rest.len() == 0 {
            assert(lines_of(s) == seq![seq![s[0]]]);
            assert(!contains_byte(seq![s[0]], NL)) by {
                assert(forall|j: int| 0 <= j < 1 ==> seq![s[0]][j] == s[0]);
            };
        } else {
            assert(lines_of(s) == rest.update(0, seq![s[0]] + rest[0]));
            assert(!contains_byte(seq![s[0]] + rest[0], NL)) by {
                if contains_byte(seq![s[0]] + rest[0], NL) {
                    let w = choose|i: int|
                        0 <= i < (seq![s[0]] + rest[0]).len() && (seq![s[0]] + rest[0])[i] == NL;
                    if w == 0 {
                        assert(s[0] == NL);
                    } else {
                        assert(rest[0][w - 1] == NL);
                        assert(contains_byte(rest[0], NL));
                    }
                }
            };
            assert(forall|k: int|
                0 <= k < lines_of(s).len() ==> !contains_byte(#[trigger] lines_of(s)[k], NL)) by {
                assert(forall|k: int| 1 <= k < lines_of(s).len() ==> lines_of(s)[k] == rest[k]);
            };
        }
    }
}

/// A nonempty piece of text without a line feed is a single line.
proof fn lemma_lines_single(l: Seq<u8>)
    requires
        !contains_byte(l, NL),
        l.len() > 0,
    ensures
        lines_of(l) == seq![l],
    decreases l.len(),
{
    assert(l[0] != NL);
    if l.len() == 1 {
        assert(l.skip(1) =~= Seq::<u8>::empty());
        assert(lines_of(Seq::<u8>::empty()) == Seq::<Seq<u8>>::empty());
        assert(lines_of(l) == seq![seq![l[0]]]);
        assert(seq![l[0]] =~= l);
    } else {
        assert(l[1] != NL);
        assert(!contains_byte(l.skip(1), NL)) by {
            if contains_byte(l.skip(1), NL) {
                let w = choose|i: int| 0 <= i < l.skip(1).len() && l.skip(1)[i] == NL;
                assert(l[w + 1] == NL);
            }
        };
        lemma_lines_single(l.skip(1));
        assert(lines_of(l) == seq![l].update(0, seq![l[0]] + l.skip(1)).update(
            0,
            seq![l[0]] + l.skip(1),
        ));
        assert(seq![l[0]] + l.skip(1) =~= l);
        assert(lines_of(l.skip(1)).update(0, seq![l[0]] + l.skip(1)) =~= seq![l]);
    }
}

/// Splitting text built as `l`, a line feed, then `t` yields `l` (less one
/// trailing carriage return) as its first line, followed by the lines of `t`.
proof fn lemma_lines_prefix(l: Seq<u8>, t: Seq<u8>)
    requires
        !contains_byte(l, NL),
    ensures
        lines_of(l + seq![NL] + t) == seq![strip_cr(l)] + lines_of(t),
    decreases l.len(),
{
    let s = l + seq![NL] + t;
    if l.len() == 0 {
        assert(s[0] == NL);
        assert(s.skip(1) =~= t);
        assert(lines_of(s) == seq![Seq::<u8>::empty()] + lines_of(t));
        assert(strip_cr(l) =~= Seq::<u8>::empty());
    } else if l.len() == 1 && l[0] == CR {
        assert(s[0] == CR && s.len() >= 2 && s[1] == NL);
        assert(s.skip(2) =~= t);
        assert(lines_of(s) == seq![Seq::<u8>::empty()] + lines_of(t));
        assert(strip_cr(l) =~= Seq::<u8>::empty());
    } else {
        assert(l[0] != NL);
        assert(s[0] == l[0]);
        assert(!(s[0] == CR && s.len() >= 2 && s[1] == NL)) by {
            if l.len() >= 2 {
                assert(s[1] == l[1]);
                assert(l[1] != NL);
            }
        };
        assert(!contains_byte(l.skip(1), NL)) by {
            if contains_byte(l.skip(1), NL) {
                let w = choose|i: int| 0 <= i < l.skip(1).len() && l.skip(1)[i] == NL;
                assert(l[w + 1] == NL);
            }
        };
        lemma_lines_prefix(l.skip(1), t);
        assert(s.skip(1) =~= l.skip(1) + seq![NL] + t);
        let rest = lines_of(s.skip(1));
        assert(rest == seq![strip_cr(l.skip(1))] + lines_of(t));
        assert(rest.len() > 0);
        assert(lines_of(s) == rest.update(0, seq![s[0]] + rest[0]));
        assert(rest[0] == strip_cr(l.skip(1)));
        assert(seq![l[0]] + strip_cr(l.skip(1)) == strip_cr(l)) by {
            if l.len() >= 2 && l.last() == CR {
                assert(l.skip(1).last() == l.last());
                assert(strip_cr(l.skip(1)) == l.skip(1).drop_last());
                assert(seq![l[0]] + l.skip(1).drop_last() =~= l.drop_last());
            } else if l.len() >= 2 {
                assert(l.skip(1).last() == l.last());
                assert(strip_cr(l.skip(1)) == l.skip(1));
                assert(seq![l[0]] + l.skip(1) =~= l);
            } else {
                assert(l[0] != CR);
                assert(l.skip(1) =~= Seq::<u8>::empty());
                assert(seq![l[0]] + strip_cr(l.skip(1)) =~= l);
            }
        };
        assert(rest.update(0, strip_cr(l)) =~= seq![strip_cr(l)] + lines_of(t));
    }
}

/// Splitting rejoined lines gives back as many lines as were joined, as long
/// as each line is free of line feeds and the last line is nonempty.
proof fn lemma_split_join_count(ls: Seq<Seq<u8>>)
    requires
        forall|k: int| 0 <= k < ls.len() ==> !contains_byte(#[trigger] ls[k], NL),
        ls.len() == 0 || ls.last().len() > 0,
    ensures
        lines_of(join_lines(ls)).len() == ls.len(),
    decreases ls.len(),
{
    if ls.len() == 0 {
    } else if ls.len() == 1 {
        assert(join_lines(ls) == ls[0]);
        lemma_lines_single(ls[0]);
    } else {
        assert(join_lines(ls) == ls[0] + seq![NL] + join_lines(ls.skip(1)));
        lemma_lines_prefix(ls[0], join_lines(ls.skip(1)));
        assert(forall|k: int|
            0 <= k < ls.skip(1).len() ==> !contains_byte(#[trigger] ls.skip(1)[k], NL)) by {
            assert(forall|k: int| 0 <= k < ls.skip(1).len() ==> ls.skip(1)[k] == ls[k + 1]);
        };
        assert(ls.skip(1).last() == ls.last());
        lemma_split_join_count(ls.skip(1));
    }
}

/// A rewritten line holds a line feed only where the original line or the
/// base URL did.
proof fn lemma_rewrite_line_nl_free(line: Seq<u8>, base: Seq<u8>)
    requires
        !contains_byte(line, NL),
        !contains_byte(base, NL),
    ensures
        !contains_byte(rewrite_line_spec(line, base), NL),
{
    let r = rewrite_line_spec(line, base);
    if r == line {
    } else {
        assert(!contains_byte(route_prefix(), NL)) by {
            if contains_byte(route_prefix(), NL) {
                let w = choose|i: int| 0 <= i < route_prefix().len() && route_prefix()[i] == NL;
                assert(route_prefix()[w] == NL);
            }
        };
        if contains_byte(r, NL) {
            let w = choose|i: int| 0 <= i < r.len() && r[i] == NL;
            let k = if contains_seq(line, marker()) {
                first_match(line, marker()) + marker().len()
            } else {
                last_byte(line, SLASH) + 1
            };
            if contains_seq(line, marker()) {
                crate::text::lemma_first_match_exists(line, marker());
            } else {
                crate::text::lemma_last_byte_exists(line, SLASH);
            }
            assert(r == base + route_prefix() + line.skip(k));
            if w < base.len() {
                assert(base[w] == NL);
                assert(contains_byte(base, NL));
            } else if w < base.len() + route_prefix().len() {
                assert(route_prefix()[w - base.len()] == NL);
                assert(contains_byte(route_prefix(), NL));
            } else {
                assert(line.skip(k)[w - base.len() - route_prefix().len()] == NL);
                assert(0 <= k <= line.len());
                assert(line[k + (w - base.len() - route_prefix().len())] == NL);
                assert(contains_byte(line, NL));
            }
        }
    }
}

/// A rewritten line is empty only where the original line was empty.
proof fn lemma_rewrite_line_nonempty(line: Seq<u8>, base: Seq<u8>)
    requires
        line.len() > 0,
    ensures
        rewrite_line_spec(line, base).len() > 0,
{
    let r = rewrite_line_spec(line, base);
    if r == line {
    } else {
        assert(route_prefix().len() == 7);
    }
}

/// Law: rewriting preserves the number of lines. It holds whenever the
/// external base URL holds no line feed and the text's final line is
/// nonempty; a text whose last line is empty loses exactly that empty line
/// when the rewritten lines are rejoined, as the join rule states.
pub proof fn lemma_rewrite_preserves_line_count(s: Seq<u8>, base: Seq<u8>)
    requires
        !contains_byte(base, NL),
        lines_of(s).len() == 0 || lines_of(s).last().len() > 0,
    ensures
        lines_of(rewrite_playlist_spec(s, base)).len() == lines_of(s).len(),
{
    let ls = lines_of(s);
    let m = ls.map_values(|l: Seq<u8>| rewrite_line_spec(l, base));
    lemma_lines_nl_free(s);
    assert(forall|k: int| 0 <= k < m.len() ==> !contains_byte(#[trigger] m[k], NL)) by {
        assert(forall|k: int|
            0 <= k < m.len() ==> #[trigger] m[k] == rewrite_line_spec(ls[k], base));
        assert(forall|k: int| 0 <= k < m.len() ==> !contains_byte(#[trigger] m[k], NL)) by {
            if exists|k: int| 0 <= k < m.len() && contains_byte(#[trigger] m[k], NL) {
                let w = choose|k: int| 0 <= k < m.len() && contains_byte(#[trigger] m[k], NL);
                lemma_rewrite_line_nl_free(ls[w], base);
            }
        };
    };
    if m.len() > 0 {
        assert(m.last() == rewrite_line_spec(ls.last(), base));
        lemma_rewrite_line_nonempty(ls.last(), base);
    }
    lemma_split_join_count(m);
}

} // verus!
