//! Splitting input into lines the way the scanner consumes them: lines end at
//! `'\n'` or `"\r\n"`, and a final line ending produces no extra empty line.

use vstd::prelude::*;

verus! {

/// Index of the first `'\n'` in `s`, or `s.len()` when there is none.
pub open spec fn find_nl(s: Seq<char>) -> int
    decreases s.len(),
{
    if s.len() == 0 {
        0
    } else if s[0] == '\n' {
        0
    } else {
        1 + find_nl(s.drop_first())
    }
}

pub proof fn lemma_find_nl_exact(s: Seq<char>, j: int)
    requires
        0 <= j <= s.len(),
        forall|i: int| 0 <= i < j ==> s[i] != '\n',
        j < s.len() ==> s[j] == '\n',
    ensures
        find_nl(s) == j,
    decreases s.len(),
{
    if s.len() == 0 {
    } else if s[0] == '\n' {
        assert(j == 0);
    } else {
        assert(j > 0);
        lemma_find_nl_exact(s.drop_first(), j - 1);
    }
}

pub proof fn lemma_find_nl_props(s: Seq<char>)
    ensures
        0 <= find_nl(s) <= s.len(),
        forall|i: int| 0 <= i < find_nl(s) ==> s[i] != '\n',
        find_nl(s) < s.len() ==> s[find_nl(s)] == '\n',
    decreases s.len(),
{
    if s.len() == 0 {
    } else if s[0] == '\n' {
    } else {
        lemma_find_nl_props(s.drop_first());
        assert forall|i: int| 0 <= i < find_nl(s) implies s[i] != '\n' by {
            if i > 0 {
                assert(s.drop_first()[i - 1] != '\n');
            }
        }
        if find_nl(s) < s.len() {
            assert(s[find_nl(s)] == s.drop_first()[find_nl(s.drop_first())]);
        }
    }
}

/// A line with its trailing `'\r'` removed, as happens to a line that ended in
/// `"\r\n"`.
pub open spec fn strip_cr(l: Seq<char>) -> Seq<char> {
    if l.len() > 0 && l[l.len() - 1] == '\r' {
        l.drop_last()
    } else {
        l
    }
}

/// The lines of `s`: segments between `'\n'` characters, each segment before a
/// `'\n'` losing a trailing `'\r'`, and nothing after a final line ending.
pub open spec fn spec_lines(s: Seq<char>) -> Seq<Seq<char>>
    decreases s.len(),
{
    if s.len() == 0 {
        Seq::empty()
    } else {
        let i = find_nl(s);
        if 0 <= i < s.len() {
            seq![strip_cr(s.take(i))] + spec_lines(s.skip(i + 1))
        } else {
            seq![s]
        }
    }
}

/// Peeling one full line off the front of the text peels one entry off its
/// line decomposition.
pub proof fn lemma_lines_step(cur: Seq<char>, rest: Seq<char>)
    requires
        forall|i: int| 0 <= i < cur.len() ==> cur[i] != '\n',
    ensures
        spec_lines(cur + seq!['\n'] + rest) == seq![strip_cr(cur)] + spec_lines(rest),
{
    let s = cur + seq!['\n'] + rest;
    assert forall|i: int| 0 <= i < cur.len() implies s[i] != '\n' by {
        assert(s[i] == cur[i]);
    }
    assert(s[cur.len() as int] == '\n');
    lemma_find_nl_exact(s, cur.len() as int);
    assert(s.take(cur.len() as int) =~= cur);
    assert(s.skip(cur.len() as int + 1) =~= rest);
}

/// No `'\r'` immediately followed by `'\n'`: the text round-trips through the
/// line decomposition without losing a carriage return.
pub open spec fn no_crlf(s: Seq<char>) -> bool {
    forall|i: int| 0 <= i < s.len() - 1 ==> !((#[trigger] s[i]) == '\r' && s[i + 1] == '\n')
}

/// What the scanner's accumulator holds after visiting some lines: each line
/// joins as `"\n" + line`.
pub open spec fn join_lines(ls: Seq<Seq<char>>) -> Seq<char>
    decreases ls.len(),
{
    if ls.len() == 0 {
        Seq::empty()
    } else {
        seq!['\n'] + ls[0] + join_lines(ls.drop_first())
    }
}

/// Splitting at a line boundary splits the line decomposition.
pub proof fn lemma_lines_concat(x: Seq<char>, y: Seq<char>)
    requires
        x.len() > 0,
        x[x.len() - 1] == '\n',
    ensures
        spec_lines(x + y) == spec_lines(x) + spec_lines(y),
    decreases x.len(),
{
    lemma_find_nl_props(x);
    let i = find_nl(x);
    assert(i < x.len());
    let s = x + y;
    assert forall|m: int| 0 <= m < i implies s[m] != '\n' by {
        assert(s[m] == x[m]);
    }
    assert(s[i] == x[i]);
    lemma_find_nl_exact(s, i);
    assert(s.take(i) =~= x.take(i));
    assert(s.skip(i + 1) =~= x.skip(i + 1) + y);
    if i + 1 == x.len() {
        assert(x.skip(i + 1) =~= Seq::<char>::empty());
        assert(x.skip(i + 1) + y =~= y);
        assert(spec_lines(x.skip(i + 1)) =~= Seq::<Seq<char>>::empty());
        assert(spec_lines(x) == seq![strip_cr(x.take(i))] + spec_lines(x.skip(i + 1)));
        assert(spec_lines(x) =~= seq![strip_cr(x.take(i))]);
        assert(spec_lines(x) + spec_lines(y) =~= seq![strip_cr(x.take(i))] + spec_lines(y));
    } else {
        let x2 = x.skip(i + 1);
        assert(x2[x2.len() - 1] == x[x.len() - 1]);
        lemma_lines_concat(x2, y);
        assert(seq![strip_cr(s.take(i))] + (spec_lines(x2) + spec_lines(y)) =~= (seq![
            strip_cr(x.take(i)),
        ] + spec_lines(x2)) + spec_lines(y));
    }
}

/// Joining the line decomposition back together: the result is the original
/// text behind one leading `'\n'`, save that one final line ending vanishes.
pub proof fn lemma_join_lines(s: Seq<char>)
    requires
        no_crlf(s),
    ensures
        join_lines(spec_lines(s)) == if s.len() == 0 {
            Seq::<char>::empty()
        } else if s[s.len() - 1] == '\n' {
            seq!['\n'] + s.drop_last()
        } else {
            seq!['\n'] + s
        },
    decreases s.len(),
{
    if s.len() == 0 {
    } else {
        lemma_find_nl_props(s);
        let i = find_nl(s);
        if i >= s.len() {
            assert(spec_lines(s) == seq![s]);
            assert(join_lines(spec_lines(s)) == seq!['\n'] + s + join_lines(
                seq![s].drop_first(),
            ));
            assert(seq![s].drop_first() =~= Seq::<Seq<char>>::empty());
            assert(seq!['\n'] + s + Seq::<char>::empty() =~= seq!['\n'] + s);
            assert(s[s.len() - 1] != '\n');
        } else {
            let f = s.take(i);
            let r = s.skip(i + 1);
            assert(strip_cr(f) == f) by {
                if f.len() > 0 && f[f.len() - 1] == '\r' {
                    assert(s[i - 1] == '\r' && s[i] == '\n');
                }
            }
            let ls = spec_lines(s);
            assert(ls == seq![f] + spec_lines(r));
            assert(ls[0] == f);
            assert(ls.drop_first() =~= spec_lines(r));
            assert(join_lines(ls) == seq!['\n'] + f + join_lines(spec_lines(r)));
            assert(no_crlf(r)) by {
                assert forall|m: int| 0 <= m < r.len() - 1 implies !((#[trigger] r[m]) == '\r' && r[m
                    + 1] == '\n') by {
                    assert(r[m] == s[i + 1 + m] && r[m + 1] == s[i + 1 + m + 1]);
                }
            }
            lemma_join_lines(r);
            if r.len() == 0 {
                assert(i + 1 == s.len());
                assert(s[s.len() - 1] == '\n');
                assert(seq!['\n'] + f + join_lines(spec_lines(r)) =~= seq!['\n'] + s.drop_last());
            } else if r[r.len() - 1] == '\n' {
                assert(s[s.len() - 1] == '\n');
                assert(seq!['\n'] + f + (seq!['\n'] + r.drop_last()) =~= seq!['\n']
                    + s.drop_last());
            } else {
                assert(s[s.len() - 1] == r[r.len() - 1]);
                assert(seq!['\n'] + f + (seq!['\n'] + r) =~= seq!['\n'] + s);
            }
        }
    }
}

/// The index of the first `'\n'` at or after `from`, or the length when there
/// is none.
pub(crate) fn find_newline_from(v: &Vec<char>, from: usize) -> (j: usize)
    requires
        from <= v@.len(),
    ensures
        from <= j <= v@.len(),
        forall|i: int| from <= i < j ==> v@[i] != '\n',
        j < v@.len() ==> v@[j as int] == '\n',
{
    let mut j: usize = from;
    while j < v.len() && v[j] != '\n'
        invariant
            from <= j <= v@.len(),
            forall|i: int| from <= i < j ==> v@[i] != '\n',
        decreases v@.len() - j,
    {
        j = j + 1;
    }
    j
}

/// The line decomposition of `v`, matching `spec_lines` entry by entry.
pub(crate) fn split_lines(v: &Vec<char>, from: usize) -> (r: Vec<Vec<char>>)
    requires
        from <= v@.len(),
    ensures
        r@.len() == spec_lines(v@.skip(from as int)).len(),
        forall|j: int| 0 <= j < r@.len() ==> r@[j]@ == spec_lines(v@.skip(from as int))[j],
{
    let ghost whole: Seq<char> = v@.skip(from as int);
    let mut out: Vec<Vec<char>> = Vec::new();
    let ghost mut done: Seq<Seq<char>> = Seq::empty();
    let mut cur: Vec<char> = Vec::new();
    let mut p: usize = from;
    proof {
        assert(cur@ + v@.skip(p as int) =~= whole);
    }
    while p < v.len()
        invariant
            from <= p <= v@.len(),
            whole == v@.skip(from as int),
            out@.len() == done.len(),
            forall|j: int| 0 <= j < done.len() ==> out@[j]@ == done[j],
            forall|i: int| 0 <= i < cur@.len() ==> cur@[i] != '\n',
            spec_lines(whole) == done + spec_lines(cur@ + v@.skip(p as int)),
        decreases v@.len() - p,
    {
        let c = v[p];
        let ghost curv: Seq<char> = cur@;
        let ghost rest: Seq<char> = v@.skip(p as int);
        let ghost rest2: Seq<char> = v@.skip(p + 1);
        if c == '\n' {
            proof {
                assert(curv + rest =~= curv + seq!['\n'] + rest2);
                lemma_lines_step(curv, rest2);
            }
            let ghost line: Seq<char> = strip_cr(curv);
            if cur.len() > 0 && cur[cur.len() - 1] == '\r' {
                cur.pop();
            }
            proof {
                assert(cur@ == line);
            }
            out.push(cur);
            proof {
                let done0 = done;
                done = done.push(line);
                assert(done0 + (seq![line] + spec_lines(rest2)) =~= done + spec_lines(rest2));
            }
            cur = Vec::new();
            proof {
                assert(cur@ + rest2 =~= rest2);
            }
        } else {
            cur.push(c);
            proof {
                assert(rest =~= seq![c] + rest2);
                assert(cur@ + rest2 =~= curv + rest);
            }
        }
        p = p + 1;
    }
    proof {
        assert(v@.skip(p as int) =~= Seq::<char>::empty());
        assert(cur@ + v@.skip(p as int) =~= cur@);
    }
    if cur.len() > 0 {
        proof {
            lemma_find_nl_exact(cur@, cur@.len() as int);
            assert(spec_lines(cur@) == seq![cur@]);
        }
        let ghost curv: Seq<char> = cur@;
        out.push(cur);
        proof {
            let done0 = done;
            done = done.push(curv);
            assert(done0 + seq![curv] =~= done);
            assert(spec_lines(whole) == done);
        }
    } else {
        proof {
            assert(spec_lines(cur@) =~= Seq::<Seq<char>>::empty());
            assert(spec_lines(whole) =~= done);
        }
    }
    out
}

} // verus!
