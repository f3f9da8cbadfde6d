//! The mathematical model of the parse: a line scanner with three states,
//! an accumulator of everything seen since the last consumed fence, and the
//! closing rules for the metadata block and the excerpt.

use vstd::prelude::*;
use crate::text::spec_trim;
use crate::text::spec_trim_end;
use crate::text::spec_trim_newlines;
use crate::lines::find_nl;
use crate::lines::spec_lines;
use crate::strip::strip_comments;

verus! {

/// Scanner state: inside the metadata block, past it (an excerpt fence may
/// still close an excerpt), or in plain content.
pub enum Part {
    Matter,
    MaybeExcerpt,
    Content,
}

/// Everything the scanner carries from line to line.
pub struct ScanState {
    pub part: Part,
    pub acc: Seq<char>,
    pub matter: Seq<char>,
    pub excerpt: Option<Seq<char>>,
}

/// Closing the metadata block: strip comment lines from the accumulated text,
/// trim it, take the closing fence token off the end, and trim surrounding
/// newlines. When the fence token is not where a match guaranteed it to be,
/// the block is abandoned (empty) rather than anything failing.
pub open spec fn close_matter(acc: Seq<char>, fence: Seq<char>) -> Seq<char> {
    let m = spec_trim(strip_comments(acc));
    if m.len() >= fence.len() && m.subrange(m.len() - fence.len(), m.len() as int) == fence {
        spec_trim_newlines(m.take(m.len() - fence.len()))
    } else {
        Seq::empty()
    }
}

/// Closing the excerpt: trim the accumulated text, take the excerpt fence
/// token off the end, and trim surrounding newlines; absent when the token is
/// not there to take off.
pub open spec fn close_excerpt(acc: Seq<char>, efence: Seq<char>) -> Option<Seq<char>> {
    let t = spec_trim(acc);
    if t.len() >= efence.len() && t.subrange(t.len() - efence.len(), t.len() as int) == efence {
        Some(spec_trim_newlines(t.take(t.len() - efence.len())))
    } else {
        None
    }
}

/// One line of scanning. The line always joins the accumulator as
/// `"\n" + line`; a fence line (whole line, trailing whitespace ignored,
/// equal to the fence) closes the metadata block or the excerpt. Closing the
/// metadata block resets the accumulator; closing the excerpt does not.
pub open spec fn scan_step(st: ScanState, line: Seq<char>, fence: Seq<char>, efence: Seq<char>) -> ScanState {
    let acc2 = st.acc + seq!['\n'] + line;
    match st.part {
        Part::Matter => {
            if spec_trim_end(line) == fence {
                ScanState {
                    part: Part::MaybeExcerpt,
                    acc: Seq::empty(),
                    matter: close_matter(acc2, fence),
                    excerpt: st.excerpt,
                }
            } else {
                ScanState { part: Part::Matter, acc: acc2, matter: st.matter, excerpt: st.excerpt }
            }
        },
        Part::MaybeExcerpt => {
            if spec_trim_end(line) == efence {
                ScanState {
                    part: Part::Content,
                    acc: acc2,
                    matter: st.matter,
                    excerpt: close_excerpt(acc2, efence),
                }
            } else {
                ScanState {
                    part: Part::MaybeExcerpt,
                    acc: acc2,
                    matter: st.matter,
                    excerpt: st.excerpt,
                }
            }
        },
        Part::Content => ScanState {
            part: Part::Content,
            acc: acc2,
            matter: st.matter,
            excerpt: st.excerpt,
        },
    }
}

/// Scanning a sequence of lines, left to right.
pub open spec fn scan_lines(
    st: ScanState,
    ls: Seq<Seq<char>>,
    fence: Seq<char>,
    efence: Seq<char>,
) -> ScanState
    decreases ls.len(),
{
    if ls.len() == 0 {
        st
    } else {
        scan_lines(scan_step(st, ls[0], fence, efence), ls.drop_first(), fence, efence)
    }
}

/// Scanning one more line scans the rest first and then steps once.
pub proof fn lemma_scan_lines_snoc(
    st: ScanState,
    ls: Seq<Seq<char>>,
    x: Seq<char>,
    fence: Seq<char>,
    efence: Seq<char>,
)
    ensures
        scan_lines(st, ls.push(x), fence, efence) == scan_step(
            scan_lines(st, ls, fence, efence),
            x,
            fence,
            efence,
        ),
    decreases ls.len(),
{
    if ls.len() == 0 {
        assert(ls.push(x)[0] == x);
        assert(ls.push(x).drop_first() =~= Seq::<Seq<char>>::empty());
        assert(scan_lines(st, ls.push(x), fence, efence) == scan_lines(
            scan_step(st, x, fence, efence),
            ls.push(x).drop_first(),
            fence,
            efence,
        ));
        assert(scan_lines(st, ls, fence, efence) == st);
    } else {
        let st1 = scan_step(st, ls[0], fence, efence);
        assert(ls.push(x)[0] == ls[0]);
        assert(ls.push(x).drop_first() =~= ls.drop_first().push(x));
        lemma_scan_lines_snoc(st1, ls.drop_first(), x, fence, efence);
        assert(scan_lines(st, ls.push(x), fence, efence) == scan_lines(
            st1,
            ls.drop_first().push(x),
            fence,
            efence,
        ));
        assert(scan_lines(st, ls, fence, efence) == scan_lines(st1, ls.drop_first(), fence, efence));
    }
}

/// The three spans a parse produces, as plain character sequences. The raw
/// metadata block is empty when none was captured.
pub struct SpecParsed {
    pub matter: Seq<char>,
    pub excerpt: Option<Seq<char>>,
    pub content: Seq<char>,
}

/// Whether the first line of the input (everything before the first `'\n'`),
/// with trailing whitespace ignored, is exactly the fence. Only then does the
/// scanner start inside a metadata block.
pub open spec fn opens_with_fence(input: Seq<char>, fence: Seq<char>) -> bool {
    let i = find_nl(input);
    i < input.len() && spec_trim_end(input.take(i)) == fence
}

/// The lines the scanner visits: everything after the opening fence line, or
/// every line of the input when there is no opening fence line.
pub open spec fn scan_input_lines(input: Seq<char>, fence: Seq<char>) -> Seq<Seq<char>> {
    if opens_with_fence(input, fence) {
        spec_lines(input.skip(find_nl(input) + 1))
    } else {
        spec_lines(input)
    }
}

/// The scanner's starting state for the given input.
pub open spec fn initial_state(input: Seq<char>, fence: Seq<char>) -> ScanState {
    ScanState {
        part: if opens_with_fence(input, fence) {
            Part::Matter
        } else {
            Part::MaybeExcerpt
        },
        acc: Seq::empty(),
        matter: Seq::empty(),
        excerpt: None,
    }
}

/// The whole parse over character sequences: what `Matter::parse` returns,
/// stated mathematically. Empty input, or input whose UTF-8 form is no longer
/// in bytes than the fence's, yields everything empty; otherwise the line
/// scanner runs and the content is the final accumulator, trimmed.
pub open spec fn spec_parse(input: Seq<char>, fence: Seq<char>, efence: Seq<char>) -> SpecParsed {
    if input.len() == 0 || vstd::utf8::encode_utf8(input).len() <= vstd::utf8::encode_utf8(
        fence,
    ).len() {
        SpecParsed { matter: Seq::empty(), excerpt: None, content: Seq::empty() }
    } else {
        let st = scan_lines(
            initial_state(input, fence),
            scan_input_lines(input, fence),
            fence,
            efence,
        );
        SpecParsed { matter: st.matter, excerpt: st.excerpt, content: spec_trim(st.acc) }
    }
}

} // verus!
