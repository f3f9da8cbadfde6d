//! Stripping full-line comments from a captured metadata block.
//!
//! A comment match starts at a line start, runs through any whitespace
//! (newlines included), then a `'#'` followed by at least one character other
//! than `'\n'`, and extends to the end of that comment's line. Matches do not
//! overlap, and the `'\n'` that ends a matched line is kept. This mirrors a
//! multiline search for "line starting, after whitespace, with a `#` comment".

use vstd::prelude::*;
use crate::text::is_ws_char;
use crate::text::spec_trim;
use crate::text::ws_start_from;
use crate::text::sub_vec;
use crate::lines::find_nl;
use crate::lines::lemma_find_nl_exact;
use crate::lines::find_newline_from;

verus! {

/// Index of the first non-whitespace character in `s`, or `s.len()` when the
/// whole of `s` is whitespace.
pub open spec fn find_non_ws(s: Seq<char>) -> int
    decreases s.len(),
{
    if s.len() == 0 {
        0
    } else if !is_ws_char(s[0]) {
        0
    } else {
        1 + find_non_ws(s.drop_first())
    }
}

pub proof fn lemma_find_non_ws_exact(s: Seq<char>, j: int)
    requires
        0 <= j <= s.len(),
        forall|i: int| 0 <= i < j ==> is_ws_char(s[i]),
        j < s.len() ==> !is_ws_char(s[j]),
    ensures
        find_non_ws(s) == j,
    decreases s.len(),
{
    if s.len() == 0 {
    } else if !is_ws_char(s[0]) {
        assert(j == 0);
    } else {
        assert(j > 0);
        lemma_find_non_ws_exact(s.drop_first(), j - 1);
    }
}

/// Whether a comment match starts at the head of `s` (a line start):
/// whitespace, then `'#'`, then at least one character that is not `'\n'`.
pub open spec fn comment_at(s: Seq<char>) -> bool {
    let k = find_non_ws(s);
    &&& k < s.len()
    &&& s[k] == '#'
    &&& k + 1 < s.len()
    &&& s[k + 1] != '\n'
}

/// One past the last character of the comment match at the head of `s`: the
/// position of the `'\n'` that ends the comment's line, or `s.len()`.
pub open spec fn comment_end(s: Seq<char>) -> int {
    let k = find_non_ws(s);
    k + 1 + find_nl(s.skip(k + 1))
}

/// `s` (starting at a line start) with every comment match removed.
pub open spec fn strip_comments(s: Seq<char>) -> Seq<char>
    decreases s.len(),
{
    if s.len() == 0 {
        s
    } else if comment_at(s) {
        let e = comment_end(s);
        if 0 <= e < s.len() {
            seq!['\n'] + strip_comments(s.skip(e + 1))
        } else {
            Seq::empty()
        }
    } else {
        let n = find_nl(s);
        if 0 <= n && n + 1 < s.len() {
            s.take(n + 1) + strip_comments(s.skip(n + 1))
        } else {
            s
        }
    }
}

pub proof fn lemma_find_non_ws_props(s: Seq<char>)
    ensures
        0 <= find_non_ws(s) <= s.len(),
        forall|i: int| 0 <= i < find_non_ws(s) ==> is_ws_char(s[i]),
        find_non_ws(s) < s.len() ==> !is_ws_char(s[find_non_ws(s)]),
    decreases s.len(),
{
    if s.len() == 0 {
    } else if !is_ws_char(s[0]) {
    } else {
        lemma_find_non_ws_props(s.drop_first());
        assert forall|i: int| 0 <= i < find_non_ws(s) implies is_ws_char(s[i]) by {
            if i > 0 {
                assert(is_ws_char(s.drop_first()[i - 1]));
            }
        }
        if find_non_ws(s) < s.len() {
            assert(s[find_non_ws(s)] == s.drop_first()[find_non_ws(s.drop_first())]);
        }
    }
}

/// Every `'#'` is preceded, on its own line, by some non-whitespace
/// character: then no line's first non-whitespace character is a `'#'`, and
/// comment stripping removes nothing.
pub open spec fn hash_guarded(s: Seq<char>) -> bool {
    forall|p: int|
        0 <= p < s.len() && (#[trigger] s[p]) == '#' ==> exists|j: int| guards_hash(s, j, p)
}

/// `j` stands before `p` on the same line and is not whitespace.
pub open spec fn guards_hash(s: Seq<char>, j: int, p: int) -> bool {
    &&& 0 <= j < p
    &&& !is_ws_char(s[j])
    &&& forall|m: int| j <= m < p ==> (#[trigger] s[m]) != '\n'
}

/// Comment stripping leaves text without comment lines unchanged.
pub proof fn lemma_strip_comments_id(s: Seq<char>)
    requires
        hash_guarded(s),
    ensures
        strip_comments(s) == s,
    decreases s.len(),
{
    if s.len() == 0 {
    } else {
        assert(!comment_at(s)) by {
            if comment_at(s) {
                let k = find_non_ws(s);
                lemma_find_non_ws_props(s);
                assert(s[k] == '#');
                let j = choose|j: int| #[trigger] guards_hash(s, j, k);
                assert(is_ws_char(s[j]));
                assert(!is_ws_char(s[j]));
            }
        }
        let n = find_nl(s);
        crate::lines::lemma_find_nl_props(s);
        if 0 <= n && n + 1 < s.len() {
            let r = s.skip(n + 1);
            assert(hash_guarded(r)) by {
                assert forall|p: int| 0 <= p < r.len() && (#[trigger] r[p]) == '#' implies exists|j:
                    int| guards_hash(r, j, p) by {
                    assert(s[n + 1 + p] == '#');
                    let j = choose|j: int| #[trigger] guards_hash(s, j, n + 1 + p);
                    assert(s[n] == '\n');
                    assert(j > n) by {
                        if j <= n {
                            assert(s[n] != '\n');
                        }
                    }
                    assert(guards_hash(r, j - (n + 1), p)) by {
                        assert(r[j - (n + 1)] == s[j]);
                        assert forall|m: int| j - (n + 1) <= m < p implies (#[trigger] r[m])
                            != '\n' by {
                            assert(r[m] == s[n + 1 + m]);
                        }
                    }
                }
            }
            lemma_strip_comments_id(r);
            assert(s.take(n + 1) + r =~= s);
        }
    }
}

/// Whether `q` is the first position of a line of `s`.
pub open spec fn line_start(s: Seq<char>, q: int) -> bool {
    0 <= q < s.len() && (q == 0 || s[q - 1] == '\n')
}

/// The line of `s` that starts at position `q`: everything up to the next
/// `'\n'` or the end, the `'\n'` excluded.
pub open spec fn line_at(s: Seq<char>, q: int) -> Seq<char> {
    s.skip(q).take(find_nl(s.skip(q)))
}

/// A line of nothing but whitespace.
pub open spec fn blank_line(l: Seq<char>) -> bool {
    forall|i: int| 0 <= i < l.len() ==> is_ws_char(#[trigger] l[i])
}

/// A line a comment match removes entirely: its first non-whitespace
/// character is `'#'` and at least one character follows the `'#'`.
pub open spec fn comment_line(l: Seq<char>) -> bool {
    let k = find_non_ws(l);
    k + 1 < l.len() && l[k] == '#'
}

/// Comment stripping a text whose every line before the final one is blank or
/// a comment reduces it, up to trimming, to that final line.
pub proof fn lemma_strip_blank_comment(s: Seq<char>, k: int)
    requires
        0 <= k < s.len(),
        k == 0 || s[k - 1] == '\n',
        forall|i: int| k <= i < s.len() ==> (#[trigger] s[i]) != '\n',
        !is_ws_char(s[k]),
        s[k] != '#',
        forall|q: int|
            line_start(s, q) && q < k ==> blank_line(#[trigger] line_at(s, q)) || comment_line(
                line_at(s, q),
            ),
    ensures
        spec_trim(strip_comments(s)) == spec_trim(s.skip(k)),
    decreases s.len(),
{
    lemma_find_non_ws_props(s);
    crate::lines::lemma_find_nl_props(s);
    let kk = find_non_ws(s);
    let n = find_nl(s);
    if k == 0 {
        assert(kk == 0);
        assert(!comment_at(s));
        assert(n == s.len()) by {
            if n < s.len() {
                assert(s[n] == '\n');
            }
        }
        assert(strip_comments(s) == s);
        assert(s.skip(0) =~= s);
    } else {
        assert(n <= k - 1) by {
            if n > k - 1 {
                assert(s[k - 1] != '\n');
            }
        }
        if comment_at(s) {
            assert(kk < k) by {
                if kk >= k {
                    assert(is_ws_char(s[k]));
                }
            }
            assert(kk <= k - 2) by {
                assert(s[kk] == '#');
                assert(s[k - 1] == '\n');
            }
            let e = comment_end(s);
            let tail = s.skip(kk + 1);
            crate::lines::lemma_find_nl_props(tail);
            assert(e - (kk + 1) <= k - 1 - (kk + 1)) by {
                assert(tail[k - 1 - (kk + 1)] == s[k - 1]);
                if find_nl(tail) > k - 1 - (kk + 1) {
                    assert(tail[k - 1 - (kk + 1)] != '\n');
                }
            }
            assert(e <= k - 1);
            assert(s[e] == '\n') by {
                assert(tail[e - (kk + 1)] == s[e]);
            }
            let s2 = s.skip(e + 1);
            let k2 = k - e - 1;
            assert forall|q: int|
                line_start(s2, q) && q < k2 implies blank_line(#[trigger] line_at(s2, q))
                || comment_line(line_at(s2, q)) by {
                let q0 = e + 1 + q;
                assert(line_start(s, q0)) by {
                    if q > 0 {
                        assert(s[q0 - 1] == s2[q - 1]);
                    }
                }
                assert(s2.skip(q) =~= s.skip(q0));
                assert(line_at(s2, q) == line_at(s, q0));
            }
            assert forall|i: int| k2 <= i < s2.len() implies (#[trigger] s2[i]) != '\n' by {
                assert(s2[i] == s[e + 1 + i]);
            }
            assert(s2[k2] == s[k as int]);
            if k2 > 0 {
                assert(s2[k2 - 1] == s[k - 1]);
            }
            lemma_strip_blank_comment(s2, k2);
            assert(strip_comments(s) == seq!['\n'] + strip_comments(s2));
            assert(is_ws_char('\n'));
            crate::text::lemma_trim_prepend_ws('\n', strip_comments(s2));
            assert(s2.skip(k2) =~= s.skip(k as int));
        } else {
            // the first line must be blank: a comment first line would put a
            // comment match at the head
            assert(line_start(s, 0));
            let l0 = line_at(s, 0);
            assert(s.skip(0) =~= s);
            assert(l0 == s.take(n));
            assert(l0.len() == n);
            assert(blank_line(l0)) by {
                if comment_line(l0) {
                    let kk0 = find_non_ws(l0);
                    lemma_find_non_ws_props(l0);
                    assert(l0[kk0] == '#');
                    assert forall|i: int| 0 <= i < kk0 implies is_ws_char(s[i]) by {
                        assert(s[i] == l0[i]);
                    }
                    assert(s[kk0] == l0[kk0]);
                    lemma_find_non_ws_exact(s, kk0);
                    assert(s[kk0 + 1] == l0[kk0 + 1]);
                    assert(l0[kk0 + 1] != '\n');
                    assert(comment_at(s));
                }
            }
            assert(n + 1 < s.len());
            let s2 = s.skip(n + 1);
            let k2 = k - n - 1;
            assert forall|q: int|
                line_start(s2, q) && q < k2 implies blank_line(#[trigger] line_at(s2, q))
                || comment_line(line_at(s2, q)) by {
                let q0 = n + 1 + q;
                assert(line_start(s, q0)) by {
                    if q > 0 {
                        assert(s[q0 - 1] == s2[q - 1]);
                    }
                }
                assert(s2.skip(q) =~= s.skip(q0));
                assert(line_at(s2, q) == line_at(s, q0));
            }
            assert forall|i: int| k2 <= i < s2.len() implies (#[trigger] s2[i]) != '\n' by {
                assert(s2[i] == s[n + 1 + i]);
            }
            assert(s2[k2] == s[k as int]);
            if k2 > 0 {
                assert(s2[k2 - 1] == s[k - 1]);
            }
            lemma_strip_blank_comment(s2, k2);
            assert(strip_comments(s) == s.take(n + 1) + strip_comments(s2));
            assert(is_ws_char('\n'));
            assert forall|i: int| 0 <= i < s.take(n + 1).len() implies is_ws_char(
                #[trigger] s.take(n + 1)[i],
            ) by {
                if i < n {
                    assert(s.take(n + 1)[i] == l0[i]);
                } else {
                    assert(s.take(n + 1)[i] == s[n]);
                }
            }
            crate::text::lemma_trim_ws_prefix(s.take(n + 1), strip_comments(s2));
            assert(s2.skip(k2) =~= s.skip(k as int));
        }
    }
}

/// A copy of `v` suffix starting at `from` with every comment match removed.
pub(crate) fn strip_comment_lines(v: &Vec<char>, from: usize) -> (r: Vec<char>)
    requires
        from <= v@.len(),
    ensures
        r@ == strip_comments(v@.skip(from as int)),
{
    let ghost whole: Seq<char> = v@.skip(from as int);
    let mut out: Vec<char> = Vec::new();
    let mut p: usize = from;
    while p < v.len()
        invariant
            from <= p <= v@.len(),
            whole == v@.skip(from as int),
            strip_comments(whole) == out@ + strip_comments(v@.skip(p as int)),
        decreases v@.len() - p,
    {
        let ghost s: Seq<char> = v@.skip(p as int);
        let k = ws_start_from(v, p);
        proof {
            assert forall|i: int| 0 <= i < k - p implies is_ws_char(s[i]) by {
                assert(s[i] == v@[p + i]);
            }
            if (k - p) < s.len() {
                assert(s[k - p] == v@[k as int]);
            }
            lemma_find_non_ws_exact(s, k as int - p);
        }
        let is_comment = k < v.len() && v[k] == '#' && k + 1 < v.len() && v[k + 1] != '\n';
        proof {
            if k < v@.len() {
                assert(s[k - p] == v@[k as int]);
                if k + 1 < v@.len() {
                    assert(s[k - p + 1] == v@[k + 1]);
                }
            }
            assert(is_comment == comment_at(s));
        }
        if is_comment {
            let e = find_newline_from(v, k + 1);
            proof {
                let tail = s.skip(k - p + 1);
                assert forall|i: int| 0 <= i < e - (k + 1) implies tail[i] != '\n' by {
                    assert(tail[i] == v@[k + 1 + i]);
                }
                if e < v@.len() {
                    assert(tail[e - (k + 1)] == v@[e as int]);
                }
                lemma_find_nl_exact(tail, e as int - (k + 1));
                assert(comment_end(s) == e - p);
            }
            if e < v.len() {
                out.push('\n');
                proof {
                    assert(s.skip(e as int - p + 1) =~= v@.skip(e + 1));
                    assert(strip_comments(s) == seq!['\n'] + strip_comments(v@.skip(e + 1)));
                    assert(out@ + strip_comments(v@.skip(e + 1)) =~= out@.drop_last() + (seq![
                        '\n',
                    ] + strip_comments(v@.skip(e + 1))));
                }
                p = e + 1;
            } else {
                proof {
                    assert(strip_comments(s) =~= Seq::<char>::empty());
                    assert(out@ + strip_comments(s) =~= out@);
                    assert(v@.skip(v@.len() as int) =~= Seq::<char>::empty());
                    assert(strip_comments(v@.skip(v@.len() as int)) =~= Seq::<char>::empty());
                    assert(out@ + strip_comments(v@.skip(v@.len() as int)) =~= out@);
                }
                p = v.len();
            }
        } else {
            let n = find_newline_from(v, p);
            proof {
                assert forall|i: int| 0 <= i < n - p implies s[i] != '\n' by {
                    assert(s[i] == v@[p + i]);
                }
                if n < v@.len() {
                    assert(s[n - p] == v@[n as int]);
                }
                lemma_find_nl_exact(s, n as int - p);
            }
            if n < v.len() - 1 {
                let mut piece = sub_vec(v, p, n + 1);
                let ghost out0: Seq<char> = out@;
                out.append(&mut piece);
                proof {
                    assert(s.take(n as int - p + 1) =~= v@.subrange(p as int, n + 1));
                    assert(s.skip(n as int - p + 1) =~= v@.skip(n + 1));
                    assert(out@ + strip_comments(v@.skip(n + 1)) =~= out0 + (s.take(
                        n as int - p + 1,
                    ) + strip_comments(v@.skip(n + 1))));
                }
                p = n + 1;
            } else {
                let mut piece = sub_vec(v, p, v.len());
                let ghost out0: Seq<char> = out@;
                out.append(&mut piece);
                proof {
                    assert(strip_comments(s) == s);
                    assert(v@.subrange(p as int, v@.len() as int) =~= s);
                    assert(v@.skip(v@.len() as int) =~= Seq::<char>::empty());
                    assert(strip_comments(v@.skip(v@.len() as int)) =~= Seq::<char>::empty());
                    assert(out@ + strip_comments(v@.skip(v@.len() as int)) =~= out0 + s);
                }
                p = v.len();
            }
        }
    }
    proof {
        assert(v@.skip(p as int) =~= Seq::<char>::empty());
        assert(strip_comments(v@.skip(p as int)) =~= Seq::<char>::empty());
        assert(out@ + strip_comments(v@.skip(p as int)) =~= out@);
    }
    out
}

} // verus!
