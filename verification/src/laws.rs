//! The library's laws: general properties of the parse, stated over the
//! model in [`crate::scan`] and proved once and for all.

use vstd::prelude::*;
use vstd::utf8::encode_utf8;
use crate::lines::join_lines;
use crate::lines::lemma_find_nl_exact;
use crate::lines::lemma_find_nl_props;
use crate::lines::lemma_join_lines;
use crate::lines::lemma_lines_concat;
use crate::lines::find_nl;
use crate::lines::no_crlf;
use crate::lines::spec_lines;
use crate::lines::strip_cr;
use crate::scan::Part;
use crate::scan::ScanState;
use crate::scan::close_matter;
use crate::scan::initial_state;
use crate::scan::opens_with_fence;
use crate::scan::scan_input_lines;
use crate::scan::scan_lines;
use crate::scan::scan_step;
use crate::scan::spec_parse;
use crate::strip::blank_line;
use crate::strip::comment_line;
use crate::strip::hash_guarded;
use crate::strip::line_at;
use crate::strip::line_start;
use crate::strip::guards_hash;
use crate::strip::lemma_strip_comments_id;
use crate::strip::strip_comments;
use crate::text::is_ws_char;
use crate::text::lemma_encode_utf8_concat;
use crate::text::lemma_encode_utf8_len;
use crate::text::lemma_trim_drop_last_ws;
use crate::text::lemma_trim_end_props;
use crate::text::lemma_trim_end_take;
use crate::text::lemma_trim_fixed;
use crate::text::lemma_trim_id;
use crate::text::lemma_trim_nl_end_take;
use crate::text::lemma_trim_nl_start_skip;
use crate::text::lemma_trim_prepend_ws;
use crate::text::spec_trim;
use crate::text::spec_trim_end;
use crate::text::spec_trim_newlines;

verus! {

/// Scanning a concatenation of line sequences scans them in order.
pub proof fn lemma_scan_lines_app(
    st: ScanState,
    l1: Seq<Seq<char>>,
    l2: Seq<Seq<char>>,
    fence: Seq<char>,
    efence: Seq<char>,
)
    ensures
        scan_lines(st, l1 + l2, fence, efence) == scan_lines(
            scan_lines(st, l1, fence, efence),
            l2,
            fence,
            efence,
        ),
    decreases l1.len(),
{
    if l1.len() == 0 {
        assert(l1 + l2 =~= l2);
    } else {
        let st1 = scan_step(st, l1[0], fence, efence);
        assert((l1 + l2)[0] == l1[0]);
        assert((l1 + l2).drop_first() =~= l1.drop_first() + l2);
        lemma_scan_lines_app(st1, l1.drop_first(), l2, fence, efence);
        assert(scan_lines(st, l1 + l2, fence, efence) == scan_lines(
            st1,
            l1.drop_first() + l2,
            fence,
            efence,
        ));
        assert(scan_lines(st, l1, fence, efence) == scan_lines(st1, l1.drop_first(), fence, efence));
    }
}

/// While inside the metadata block, lines that do not close the fence only
/// accumulate: nothing is captured and nothing is dropped.
pub proof fn lemma_scan_matter_no_close(
    st: ScanState,
    ls: Seq<Seq<char>>,
    fence: Seq<char>,
    efence: Seq<char>,
)
    requires
        st.part is Matter,
        forall|j: int| 0 <= j < ls.len() ==> spec_trim_end(#[trigger] ls[j]) != fence,
    ensures
        scan_lines(st, ls, fence, efence) == (ScanState {
            part: Part::Matter,
            acc: st.acc + join_lines(ls),
            matter: st.matter,
            excerpt: st.excerpt,
        }),
    decreases ls.len(),
{
    if ls.len() == 0 {
        assert(st.acc + join_lines(ls) =~= st.acc);
    } else {
        let st1 = scan_step(st, ls[0], fence, efence);
        assert(st1.acc == st.acc + seq!['\n'] + ls[0]);
        lemma_scan_matter_no_close(st1, ls.drop_first(), fence, efence);
        assert((st.acc + seq!['\n'] + ls[0]) + join_lines(ls.drop_first()) =~= st.acc + join_lines(
            ls,
        ));
    }
}

/// Once past the metadata block, the accumulator only grows by the visited
/// lines and the captured metadata block never changes again, whether or not
/// an excerpt closes.
pub proof fn lemma_scan_past_matter(
    st: ScanState,
    ls: Seq<Seq<char>>,
    fence: Seq<char>,
    efence: Seq<char>,
)
    requires
        !(st.part is Matter),
    ensures
        scan_lines(st, ls, fence, efence).acc == st.acc + join_lines(ls),
        scan_lines(st, ls, fence, efence).matter == st.matter,
        (!(scan_lines(st, ls, fence, efence).part is Matter)),
    decreases ls.len(),
{
    if ls.len() == 0 {
        assert(st.acc + join_lines(ls) =~= st.acc);
    } else {
        let st1 = scan_step(st, ls[0], fence, efence);
        assert(st1.acc == st.acc + seq!['\n'] + ls[0]);
        lemma_scan_past_matter(st1, ls.drop_first(), fence, efence);
        assert((st.acc + seq!['\n'] + ls[0]) + join_lines(ls.drop_first()) =~= st.acc + join_lines(
            ls,
        ));
    }
}

/// While looking for an excerpt, lines that do not close it only accumulate.
pub proof fn lemma_scan_maybe_no_close(
    st: ScanState,
    ls: Seq<Seq<char>>,
    fence: Seq<char>,
    efence: Seq<char>,
)
    requires
        st.part is MaybeExcerpt,
        forall|j: int| 0 <= j < ls.len() ==> spec_trim_end(#[trigger] ls[j]) != efence,
    ensures
        scan_lines(st, ls, fence, efence) == (ScanState {
            part: Part::MaybeExcerpt,
            acc: st.acc + join_lines(ls),
            matter: st.matter,
            excerpt: st.excerpt,
        }),
    decreases ls.len(),
{
    if ls.len() == 0 {
        assert(st.acc + join_lines(ls) =~= st.acc);
    } else {
        let st1 = scan_step(st, ls[0], fence, efence);
        assert(st1.acc == st.acc + seq!['\n'] + ls[0]);
        lemma_scan_maybe_no_close(st1, ls.drop_first(), fence, efence);
        assert((st.acc + seq!['\n'] + ls[0]) + join_lines(ls.drop_first()) =~= st.acc + join_lines(
            ls,
        ));
    }
}

/// Inputs no longer than the fence, the empty input included, yield nothing:
/// no metadata, no excerpt, and empty content.
pub proof fn lemma_short_input(input: Seq<char>, fence: Seq<char>, efence: Seq<char>)
    requires
        encode_utf8(input).len() <= encode_utf8(fence).len(),
    ensures
        spec_parse(input, fence, efence).matter.len() == 0,
        (spec_parse(input, fence, efence).excerpt is None),
        spec_parse(input, fence, efence).content.len() == 0,
        spec_trim(input).len() == 0 ==> spec_parse(input, fence, efence).content == spec_trim(
            input,
        ),
{
    if spec_trim(input).len() == 0 {
        assert(spec_parse(input, fence, efence).content =~= spec_trim(input));
    }
}

/// Only a line that is the whole fence token followed by nothing but
/// whitespace closes a fence: any other character beside the token, a
/// quoted fence inside a longer line included, defeats the match.
pub proof fn lemma_fence_line_exact(l: Seq<char>, f: Seq<char>)
    requires
        f.len() > 0,
        !is_ws_char(f[f.len() - 1]),
    ensures
        spec_trim_end(l) == f <==> (f.len() <= l.len() && l.take(f.len() as int) == f && (forall|
            i: int,
        |
            f.len() <= i < l.len() ==> is_ws_char(#[trigger] l[i]))),
{
    if f.len() <= l.len() && l.take(f.len() as int) == f && (forall|i: int|
        f.len() <= i < l.len() ==> is_ws_char(#[trigger] l[i])) {
        assert(l[f.len() - 1] == l.take(f.len() as int)[f.len() - 1]);
        lemma_trim_end_take(l, f.len() as int);
    }
    if spec_trim_end(l) == f {
        lemma_trim_end_props(l);
        assert(l.take(f.len() as int) == f);
    }
}

/// For input `<fence>\n<block>\n<fence>\n<body>` whose block has no line that
/// closes the fence, the captured metadata is the closing of the accumulated
/// block text and the content is the trimmed body: the body never bleeds into
/// the metadata, and the block never bleeds into the content.
#[verifier::rlimit(60)]
pub proof fn lemma_parse_fenced(vm: Seq<char>, body: Seq<char>, fence: Seq<char>, efence: Seq<char>)
    requires
        fence.len() > 0,
        !is_ws_char(fence[0]),
        !is_ws_char(fence[fence.len() - 1]),
        forall|i: int| 0 <= i < fence.len() ==> (#[trigger] fence[i]) != '\n',
        vm.len() > 0 ==> vm[vm.len() - 1] != '\n' && vm[vm.len() - 1] != '\r',
        no_crlf(vm),
        no_crlf(body),
        forall|j: int|
            0 <= j < spec_lines(vm + seq!['\n']).len() ==> spec_trim_end(
                #[trigger] spec_lines(vm + seq!['\n'])[j],
            ) != fence,
    ensures
        ({
            let input = fence + seq!['\n'] + vm + seq!['\n'] + fence + seq!['\n'] + body;
            &&& spec_parse(input, fence, efence).matter == close_matter(
                seq!['\n'] + vm + seq!['\n'] + fence,
                fence,
            )
            &&& spec_parse(input, fence, efence).content == spec_trim(body)
        }),
{
    let input = fence + seq!['\n'] + vm + seq!['\n'] + fence + seq!['\n'] + body;
    let tail = seq!['\n'] + vm + seq!['\n'] + fence + seq!['\n'] + body;
    assert(encode_utf8(input).len() > encode_utf8(fence).len()) by {
        assert(input =~= fence + tail);
        lemma_encode_utf8_concat(fence, tail);
        lemma_encode_utf8_len(tail);
    }
    assert forall|i: int| 0 <= i < fence.len() implies input[i] != '\n' by {
        assert(input[i] == fence[i]);
    }
    assert(input[fence.len() as int] == '\n');
    lemma_find_nl_exact(input, fence.len() as int);
    lemma_trim_end_take(fence, fence.len() as int);
    assert(fence.take(fence.len() as int) =~= fence);
    assert(input.take(fence.len() as int) =~= fence);
    assert(opens_with_fence(input, fence));

    let rest = input.skip(fence.len() as int + 1);
    let vmn = vm + seq!['\n'];
    let fn2 = fence + seq!['\n'];
    assert(rest =~= vmn + (fn2 + body));
    assert(vmn[vmn.len() - 1] == '\n');
    assert(fn2[fn2.len() - 1] == '\n');
    lemma_lines_concat(vmn, fn2 + body);
    lemma_lines_concat(fn2, body);
    // lines of the fence line alone
    assert forall|i: int| 0 <= i < fence.len() implies fn2[i] != '\n' by {
        assert(fn2[i] == fence[i]);
    }
    lemma_find_nl_exact(fn2, fence.len() as int);
    assert(fn2.take(fence.len() as int) =~= fence);
    assert(fn2.skip(fence.len() as int + 1) =~= Seq::<char>::empty());
    assert(spec_lines(fn2.skip(fence.len() as int + 1)) =~= Seq::<Seq<char>>::empty());
    assert(strip_cr(fence) == fence);
    assert(spec_lines(fn2) =~= seq![fence]);
    let ls_vm = spec_lines(vmn);
    assert(spec_lines(rest) == ls_vm + (seq![fence] + spec_lines(body)));

    let st0 = initial_state(input, fence);
    assert(st0.part is Matter);
    assert(scan_input_lines(input, fence) == spec_lines(rest)) by {
        assert(input.skip(find_nl(input) + 1) == rest);
    }
    lemma_scan_lines_app(st0, ls_vm, seq![fence] + spec_lines(body), fence, efence);
    lemma_scan_matter_no_close(st0, ls_vm, fence, efence);
    let st1 = scan_lines(st0, ls_vm, fence, efence);
    assert(no_crlf(vmn)) by {
        assert forall|i: int| 0 <= i < vmn.len() - 1 implies !((#[trigger] vmn[i]) == '\r' && vmn[i
            + 1] == '\n') by {
            if i < vm.len() - 1 {
                assert(vmn[i] == vm[i] && vmn[i + 1] == vm[i + 1]);
            } else {
                assert(i == vm.len() - 1);
                assert(vmn[i] == vm[vm.len() - 1]);
            }
        }
    }
    lemma_join_lines(vmn);
    assert(vmn.drop_last() =~= vm);
    assert(st1.acc =~= seq!['\n'] + vm);

    let st2 = scan_lines(st1, seq![fence] + spec_lines(body), fence, efence);
    lemma_scan_lines_app(st1, seq![fence], spec_lines(body), fence, efence);
    let stf = scan_lines(st1, seq![fence], fence, efence);
    assert(stf == scan_step(st1, fence, fence, efence)) by {
        assert(seq![fence].len() == 1);
        assert(seq![fence][0] == fence);
        assert(seq![fence].drop_first() =~= Seq::<Seq<char>>::empty());
        assert(stf == scan_lines(
            scan_step(st1, fence, fence, efence),
            seq![fence].drop_first(),
            fence,
            efence,
        ));
    }
    assert(spec_trim_end(fence) == fence);
    assert(stf.part is MaybeExcerpt);
    assert(stf.acc =~= Seq::<char>::empty());
    assert(st1.acc + seq!['\n'] + fence =~= seq!['\n'] + vm + seq!['\n'] + fence);
    assert(stf.matter == close_matter(seq!['\n'] + vm + seq!['\n'] + fence, fence));
    lemma_scan_past_matter(stf, spec_lines(body), fence, efence);
    let st3 = scan_lines(stf, spec_lines(body), fence, efence);
    assert(st3.matter == stf.matter);
    assert(st3.acc =~= join_lines(spec_lines(body)));

    assert(spec_parse(input, fence, efence).matter == st3.matter);
    assert(spec_parse(input, fence, efence).content == spec_trim(st3.acc));
    lemma_join_lines(body);
    assert(is_ws_char('\n'));
    if body.len() == 0 {
        assert(spec_trim(st3.acc).len() == 0);
        assert(spec_trim_end(body) == body);
        assert(spec_trim(body).len() == 0);
    } else if body[body.len() - 1] == '\n' {
        lemma_trim_prepend_ws('\n', body.drop_last());
        lemma_trim_drop_last_ws(body);
    } else {
        lemma_trim_prepend_ws('\n', body);
    }
}

/// Round trip: parsing `<fence>\n<metadata>\n<fence>\n<body>` captures the
/// metadata block exactly as written — a fence token quoted inside one of its
/// lines included — and trims the body into the content. The metadata must be
/// trimmed, must contain no line that closes the fence and no comment lines,
/// and neither part may hide a CRLF line ending (which line splitting would
/// rewrite).
pub proof fn lemma_round_trip(vm: Seq<char>, body: Seq<char>, fence: Seq<char>, efence: Seq<char>)
    requires
        fence.len() > 0,
        !is_ws_char(fence[0]),
        !is_ws_char(fence[fence.len() - 1]),
        forall|i: int| 0 <= i < fence.len() ==> (#[trigger] fence[i]) != '\n',
        fence[0] != '#',
        vm.len() > 0,
        vm == spec_trim(vm),
        no_crlf(vm),
        hash_guarded(vm),
        no_crlf(body),
        forall|j: int|
            0 <= j < spec_lines(vm + seq!['\n']).len() ==> spec_trim_end(
                #[trigger] spec_lines(vm + seq!['\n'])[j],
            ) != fence,
    ensures
        ({
            let input = fence + seq!['\n'] + vm + seq!['\n'] + fence + seq!['\n'] + body;
            &&& spec_parse(input, fence, efence).matter == vm
            &&& spec_parse(input, fence, efence).content == spec_trim(body)
        }),
{
    lemma_trim_fixed(vm);
    lemma_parse_fenced(vm, body, fence, efence);
    let acc = seq!['\n'] + vm + seq!['\n'] + fence;
    assert(hash_guarded(acc)) by {
        assert forall|p: int| 0 <= p < acc.len() && (#[trigger] acc[p]) == '#' implies exists|j: int|
            guards_hash(acc, j, p) by {
            if 1 <= p <= vm.len() {
                assert(acc[p] == vm[p - 1]);
                let j = choose|j: int| #[trigger] guards_hash(vm, j, p - 1);
                assert(guards_hash(acc, j + 1, p)) by {
                    assert(acc[j + 1] == vm[j]);
                    assert forall|m: int| j + 1 <= m < p implies (#[trigger] acc[m]) != '\n' by {
                        assert(acc[m] == vm[m - 1]);
                    }
                }
            } else {
                assert(p != 0 && p != vm.len() + 1);
                assert(acc[p] == fence[p - vm.len() - 2]);
                assert(p > vm.len() + 2);
                let j = vm.len() + 2;
                assert(guards_hash(acc, j as int, p)) by {
                    assert(acc[j as int] == fence[0]);
                    assert forall|m: int| j <= m < p implies (#[trigger] acc[m]) != '\n' by {
                        assert(acc[m] == fence[m - vm.len() - 2]);
                    }
                }
            }
        }
    }
    lemma_strip_comments_id(acc);
    let mid = vm + seq!['\n'] + fence;
    assert(acc =~= seq!['\n'] + mid);
    lemma_trim_prepend_ws('\n', mid);
    assert(mid[0] == vm[0]);
    assert(mid[mid.len() - 1] == fence[fence.len() - 1]);
    lemma_trim_id(mid);
    let m = spec_trim(strip_comments(acc));
    assert(m == mid);
    assert(m.len() >= fence.len());
    assert(m.subrange(m.len() - fence.len(), m.len() as int) =~= fence);
    assert(m.take(m.len() - fence.len()) =~= vm + seq!['\n']);
    lemma_trim_nl_end_take(vm + seq!['\n'], vm.len() as int);
    assert((vm + seq!['\n']).take(vm.len() as int) =~= vm);
    lemma_trim_nl_start_skip(vm, 0);
    assert(vm.skip(0) =~= vm);
    assert(close_matter(acc, fence) == vm);
}

/// Every entry of the line decomposition of a `'\n'`-terminated text is a
/// line of that text, up to a stripped trailing `'\r'`.
proof fn lemma_lines_are_line_at(s: Seq<char>, j: int)
    requires
        s.len() > 0,
        s[s.len() - 1] == '\n',
        0 <= j < spec_lines(s).len(),
    ensures
        exists|q: int| line_start(s, q) && spec_lines(s)[j] == strip_cr(#[trigger] line_at(s, q)),
    decreases s.len(),
{
    lemma_find_nl_props(s);
    let n = find_nl(s);
    assert(n < s.len());
    if j == 0 {
        assert(line_start(s, 0));
        assert(s.skip(0) =~= s);
        assert(spec_lines(s)[0] == strip_cr(line_at(s, 0)));
    } else {
        let r = s.skip(n + 1);
        assert(r.len() > 0) by {
            if n + 1 == s.len() {
                assert(spec_lines(r) =~= Seq::<Seq<char>>::empty());
            }
        }
        assert(r[r.len() - 1] == s[s.len() - 1]);
        lemma_lines_are_line_at(r, j - 1);
        let q2 = choose|q2: int|
            line_start(r, q2) && spec_lines(r)[j - 1] == strip_cr(#[trigger] line_at(r, q2));
        let q = n + 1 + q2;
        assert(line_start(s, q)) by {
            if q2 > 0 {
                assert(s[q - 1] == r[q2 - 1]);
            }
        }
        assert(s.skip(q) =~= r.skip(q2));
        assert(line_at(s, q) == line_at(r, q2));
        assert(spec_lines(s)[j] == spec_lines(r)[j - 1]);
    }
}

/// Extending a text beyond a `'\n'` does not change its earlier lines.
proof fn lemma_line_at_prefix(vm: Seq<char>, ext: Seq<char>, q: int)
    requires
        0 <= q < vm.len(),
        ext.len() > 0,
        ext[0] == '\n',
    ensures
        line_at(vm + ext, q) == line_at(vm, q),
{
    let s = vm + ext;
    let v2 = vm.skip(q);
    let s2 = s.skip(q);
    lemma_find_nl_props(v2);
    let d = find_nl(v2);
    if d < v2.len() {
        assert forall|i: int| 0 <= i < d implies s2[i] != '\n' by {
            assert(s2[i] == v2[i]);
        }
        assert(s2[d] == v2[d]);
        lemma_find_nl_exact(s2, d);
        assert(s2.take(d) =~= v2.take(d));
    } else {
        assert forall|i: int| 0 <= i < v2.len() implies s2[i] != '\n' by {
            assert(s2[i] == v2[i]);
        }
        assert(s2[v2.len() as int] == ext[0]);
        lemma_find_nl_exact(s2, v2.len() as int);
        assert(s2.take(v2.len() as int) =~= v2);
        assert(v2.take(d) =~= v2);
    }
}

/// A metadata block of blank and comment lines only yields no metadata, and
/// the body still parses into the content unchanged.
#[verifier::rlimit(60)]
pub proof fn lemma_empty_matter(vm: Seq<char>, body: Seq<char>, fence: Seq<char>, efence: Seq<char>)
    requires
        fence.len() > 0,
        !is_ws_char(fence[0]),
        !is_ws_char(fence[fence.len() - 1]),
        forall|i: int| 0 <= i < fence.len() ==> (#[trigger] fence[i]) != '\n',
        fence[0] != '#',
        vm.len() > 0 ==> vm[vm.len() - 1] != '\n' && vm[vm.len() - 1] != '\r',
        no_crlf(vm),
        no_crlf(body),
        forall|q: int|
            line_start(vm, q) ==> blank_line(#[trigger] line_at(vm, q)) || comment_line(
                line_at(vm, q),
            ),
    ensures
        ({
            let input = fence + seq!['\n'] + vm + seq!['\n'] + fence + seq!['\n'] + body;
            &&& spec_parse(input, fence, efence).matter.len() == 0
            &&& spec_parse(input, fence, efence).content == spec_trim(body)
        }),
{
    let vmn = vm + seq!['\n'];
    assert(vmn[vmn.len() - 1] == '\n');
    // no line of the block closes the fence: blank and comment lines cannot
    assert forall|j: int| 0 <= j < spec_lines(vmn).len() implies spec_trim_end(
        #[trigger] spec_lines(vmn)[j],
    ) != fence by {
        lemma_lines_are_line_at(vmn, j);
        let q = choose|q: int|
            line_start(vmn, q) && spec_lines(vmn)[j] == strip_cr(#[trigger] line_at(vmn, q));
        let l = line_at(vmn, q);
        assert(blank_line(l) || comment_line(l)) by {
            if q < vm.len() {
                lemma_line_at_prefix(vm, seq!['\n'], q);
                assert(line_start(vm, q)) by {
                    if q > 0 {
                        assert(vm[q - 1] == vmn[q - 1]);
                    }
                }
            } else {
                // only possible when the block is empty: its lone line is blank
                assert(q == vm.len());
                if q > 0 {
                    assert(vmn[q - 1] == vm[vm.len() - 1]);
                    assert(vmn[q - 1] != '\n');
                }
                assert(q == 0);
                assert(vmn.skip(0) =~= vmn);
                lemma_find_nl_exact(vmn, 0);
                assert(l =~= Seq::<char>::empty());
            }
        }
        assert(spec_trim_end(strip_cr(l)) == spec_trim_end(l)) by {
            if l.len() > 0 && l[l.len() - 1] == '\r' {
                assert(is_ws_char('\r'));
            }
        }
        if blank_line(l) {
            lemma_trim_end_take(l, 0);
            assert(l.take(0) =~= Seq::<char>::empty());
            assert(spec_trim_end(l).len() == 0);
        } else {
            lemma_trim_end_props(l);
            crate::strip::lemma_find_non_ws_props(l);
            let kk = crate::strip::find_non_ws(l);
            if spec_trim_end(l) == fence {
                assert(fence[0] == l[0]) by {
                    assert(l.take(spec_trim_end(l).len() as int)[0] == l[0]);
                }
                if kk == 0 {
                    assert(l[0] == '#');
                } else {
                    assert(is_ws_char(l[0]));
                }
            }
        }
    }
    lemma_parse_fenced(vm, body, fence, efence);
    // closing the block leaves nothing
    let acc = seq!['\n'] + vm + seq!['\n'] + fence;
    let ka = vm.len() + 2;
    assert(acc[ka - 1] == '\n');
    assert(acc[ka as int] == fence[0]);
    assert forall|i: int| ka <= i < acc.len() implies (#[trigger] acc[i]) != '\n' by {
        assert(acc[i] == fence[i - ka]);
    }
    assert forall|q: int|
        line_start(acc, q) && q < ka implies blank_line(#[trigger] line_at(acc, q)) || comment_line(
        line_at(acc, q),
    ) by {
        if q == 0 {
            assert(acc[0] == '\n');
            assert(acc.skip(0) =~= acc);
            lemma_find_nl_exact(acc, 0);
            assert(line_at(acc, 0) =~= Seq::<char>::empty());
            assert(blank_line(line_at(acc, 0)));
        } else {
            let ext = seq!['\n'] + fence;
            assert(acc.skip(q) =~= (vm + ext).skip(q - 1));
            assert(line_at(acc, q) == line_at(vm + ext, q - 1));
            if q - 1 < vm.len() {
                lemma_line_at_prefix(vm, ext, q - 1);
                assert(line_start(vm, q - 1)) by {
                    if q - 1 > 0 {
                        assert(vm[q - 2] == acc[q - 1]);
                    }
                }
            } else {
                assert(q - 1 == vm.len());
                if vm.len() > 0 {
                    assert(acc[q - 1] == vm[vm.len() - 1]);
                    assert(false);
                }
                assert((vm + ext).skip(q - 1) =~= ext);
                assert(ext[0] == '\n');
                lemma_find_nl_exact(ext, 0);
                assert(line_at(vm + ext, q - 1) =~= Seq::<char>::empty());
            }
        }
    }
    crate::strip::lemma_strip_blank_comment(acc, ka as int);
    assert(acc.skip(ka as int) =~= fence);
    lemma_trim_id(fence);
    let m = spec_trim(strip_comments(acc));
    assert(m == fence);
    assert(m.subrange(m.len() - fence.len(), m.len() as int) =~= fence);
    assert(m.take(m.len() - fence.len()) =~= Seq::<char>::empty());
    assert(spec_trim_newlines(Seq::<char>::empty()).len() == 0);
    assert(close_matter(acc, fence).len() == 0);
}

/// Re-parsing a parse's content as a fresh document yields the same content,
/// no metadata and no excerpt, provided the content is longer than the fence,
/// holds no line that closes either fence, and hides no CRLF line ending.
pub proof fn lemma_content_reparse(c: Seq<char>, fence: Seq<char>, efence: Seq<char>)
    requires
        c == spec_trim(c),
        encode_utf8(c).len() > encode_utf8(fence).len(),
        no_crlf(c),
        forall|j: int|
            0 <= j < spec_lines(c).len() ==> spec_trim_end(#[trigger] spec_lines(c)[j]) != fence,
        forall|j: int|
            0 <= j < spec_lines(c).len() ==> spec_trim_end(#[trigger] spec_lines(c)[j]) != efence,
    ensures
        spec_parse(c, fence, efence).content == c,
        spec_parse(c, fence, efence).matter.len() == 0,
        (spec_parse(c, fence, efence).excerpt is None),
{
    assert(c.len() > 0) by {
        if c.len() == 0 {
            assert(encode_utf8(c) =~= Seq::<u8>::empty());
        }
    }
    lemma_trim_fixed(c);
    lemma_find_nl_props(c);
    let i = find_nl(c);
    assert(!opens_with_fence(c, fence)) by {
        if i < c.len() && spec_trim_end(c.take(i)) == fence {
            let l0 = c.take(i);
            assert(spec_lines(c)[0] == strip_cr(l0));
            assert(spec_trim_end(strip_cr(l0)) == spec_trim_end(l0)) by {
                if l0.len() > 0 && l0[l0.len() - 1] == '\r' {
                    assert(is_ws_char('\r'));
                    assert(spec_trim_end(l0) == spec_trim_end(l0.drop_last()));
                }
            }
            assert(spec_trim_end(spec_lines(c)[0]) != fence);
        }
    }
    let st0 = initial_state(c, fence);
    assert(st0.part is MaybeExcerpt);
    assert(scan_input_lines(c, fence) == spec_lines(c));
    lemma_scan_maybe_no_close(st0, spec_lines(c), fence, efence);
    let st = scan_lines(st0, spec_lines(c), fence, efence);
    assert(st.acc =~= join_lines(spec_lines(c)));
    lemma_join_lines(c);
    assert(c[c.len() - 1] != '\n');
    assert(is_ws_char('\n'));
    lemma_trim_prepend_ws('\n', c);
    assert(spec_parse(c, fence, efence).content == spec_trim(st.acc));
}

proof fn lemma_scan_excerpt_indep(
    st1: ScanState,
    st2: ScanState,
    ls: Seq<Seq<char>>,
    fence: Seq<char>,
    e1: Seq<char>,
    e2: Seq<char>,
)
    requires
        st1.acc == st2.acc,
        st1.matter == st2.matter,
        st1.part is Matter <==> st2.part is Matter,
    ensures
        scan_lines(st1, ls, fence, e1).acc == scan_lines(st2, ls, fence, e2).acc,
        scan_lines(st1, ls, fence, e1).matter == scan_lines(st2, ls, fence, e2).matter,
        (scan_lines(st1, ls, fence, e1).part is Matter <==> scan_lines(st2, ls, fence, e2).part
            is Matter),
    decreases ls.len(),
{
    if ls.len() > 0 {
        let n1 = scan_step(st1, ls[0], fence, e1);
        let n2 = scan_step(st2, ls[0], fence, e2);
        assert(n1.acc == n2.acc && n1.matter == n2.matter && (n1.part is Matter <==> n2.part
            is Matter));
        lemma_scan_excerpt_indep(n1, n2, ls.drop_first(), fence, e1, e2);
    }
}

/// The excerpt delimiter has no effect on the captured metadata block or on
/// the content: closing an excerpt removes nothing from either, whatever
/// excerpt delimiter is configured.
pub proof fn lemma_excerpt_config_independent(
    input: Seq<char>,
    fence: Seq<char>,
    e1: Seq<char>,
    e2: Seq<char>,
)
    ensures
        spec_parse(input, fence, e1).matter == spec_parse(input, fence, e2).matter,
        spec_parse(input, fence, e1).content == spec_parse(input, fence, e2).content,
{
    if !(input.len() == 0 || encode_utf8(input).len() <= encode_utf8(fence).len()) {
        lemma_scan_excerpt_indep(
            initial_state(input, fence),
            initial_state(input, fence),
            scan_input_lines(input, fence),
            fence,
            e1,
            e2,
        );
    }
}

} // verus!

