//! The parser: delimiter configuration plus the line scanner, verified
//! against the model in [`crate::scan`].

use vstd::prelude::*;
use core::marker::PhantomData;
use crate::engine::Engine;
use crate::engine::FromValue;
use crate::entity::ParsedEntity;
use crate::entity::ParsedEntityStruct;
use crate::entity::opt_view;
use crate::lines::find_newline_from;
use crate::lines::lemma_find_nl_exact;
use crate::lines::split_lines;
use crate::scan::Part;
use crate::scan::ScanState;
use crate::scan::close_excerpt;
use crate::scan::close_matter;
use crate::scan::initial_state;
use crate::scan::lemma_scan_lines_snoc;
use crate::scan::scan_input_lines;
use crate::scan::scan_lines;
use crate::scan::scan_step;
use crate::scan::spec_parse;
use crate::strip::strip_comment_lines;
use crate::text::byte_len;
use crate::text::chars_string;
use crate::text::str_chars;
use crate::text::sub_vec;
use crate::text::trim_chars;
use crate::text::trim_end_chars;
use crate::text::trim_newline_chars;
use crate::text::vec_eq;

verus! {

/// Coupled with an [`Engine`] of choice, `Matter` stores the delimiter(s) and
/// handles parsing.
pub struct Matter<T: Engine> {
    /// The fence token. A line that, with trailing whitespace ignored, equals
    /// this token opens and closes the metadata block.
    pub delimiter: String,
    /// The excerpt fence token; the primary delimiter stands in when absent.
    pub excerpt_delimiter: Option<String>,
    /// Marker tying the parser to its engine; carries no data.
    pub engine: PhantomData<T>,
}

/// The excerpt fence in effect for a parse: the configured one, or the
/// primary delimiter when none is configured.
pub open spec fn efence_of<T: Engine>(m: &Matter<T>) -> Seq<char> {
    match m.excerpt_delimiter {
        Some(e) => e@,
        None => m.delimiter@,
    }
}

impl<T: Engine> Matter<T> {
    /// A parser with the default `---` fence and no separate excerpt fence.
    pub fn new() -> (r: Self)
        ensures
            r.delimiter@ == "---"@,
            r.excerpt_delimiter is None,
    {
        Matter { delimiter: "---".to_owned(), excerpt_delimiter: None, engine: PhantomData }
    }

    /// Runs parsing on the input; never fails. The returned spans are exactly
    /// those of [`spec_parse`] for this parser's delimiters; the metadata
    /// value is present only if a non-empty metadata block was captured and
    /// the engine decoded it.
    #[verifier::loop_isolation(false)]
    pub fn parse(&self, input: &str) -> (r: ParsedEntity<T::Value>)
        ensures
            ({
                let sp = spec_parse(input@, self.delimiter@, efence_of(self));
                &&& r.orig@ == input@
                &&& r.matter@ == sp.matter
                &&& r.content@ == sp.content
                &&& opt_view(r.excerpt) == sp.excerpt
                &&& (r.data is Some ==> sp.matter.len() > 0)
                &&& (sp.matter.len() == 0 ==> r.data is None)
            }),
    {
        let ghost gf: Seq<char> = self.delimiter@;
        let ghost ge: Seq<char> = efence_of(self);
        let fence: Vec<char> = str_chars(self.delimiter.as_str());
        let orig: String = input.to_owned();
        let chars: Vec<char> = str_chars(input);

        // the degenerate guard compares lengths in bytes, as callers see them
        let input_bytes = byte_len(input);
        let fence_bytes = byte_len(self.delimiter.as_str());
        if chars.len() == 0 || input_bytes <= fence_bytes {
            return ParsedEntity {
                data: None,
                content: String::new(),
                excerpt: None,
                orig,
                matter: String::new(),
            };
        }
        let efence: Vec<char> = match &self.excerpt_delimiter {
            Some(e) => str_chars(e.as_str()),
            None => str_chars(self.delimiter.as_str()),
        };

        let i = find_newline_from(&chars, 0);
        proof {
            lemma_find_nl_exact(chars@, i as int);
        }
        let mut in_matter = false;
        if i < chars.len() {
            let first = sub_vec(&chars, 0, i);
            let first_trim = trim_end_chars(&first);
            in_matter = vec_eq(&first_trim, &fence);
            proof {
                assert(chars@.subrange(0, i as int) =~= chars@.take(i as int));
            }
        }
        let lines: Vec<Vec<char>> = if in_matter {
            split_lines(&chars, i + 1)
        } else {
            proof {
                assert(chars@.skip(0) =~= chars@);
            }
            split_lines(&chars, 0)
        };
        let ghost lseq: Seq<Seq<char>> = scan_input_lines(input@, gf);
        let ghost st0: ScanState = initial_state(input@, gf);

        let mut part: Part = if in_matter {
            Part::Matter
        } else {
            Part::MaybeExcerpt
        };
        let mut acc: Vec<char> = Vec::new();
        let mut matter_str: String = String::new();
        let mut excerpt_str: Option<String> = None;
        let mut data: Option<T::Value> = None;
        let mut idx: usize = 0;

        while idx < lines.len()
            invariant
                idx <= lines@.len(),
                lines@.len() == lseq.len(),
                forall|j: int| 0 <= j < lseq.len() ==> lines@[j]@ == lseq[j],
                ({
                    let st = scan_lines(st0, lseq.take(idx as int), gf, ge);
                    &&& part == st.part
                    &&& acc@ == st.acc
                    &&& matter_str@ == st.matter
                    &&& opt_view(excerpt_str) == st.excerpt
                    &&& (data is Some ==> st.matter.len() > 0)
                    &&& (st.matter.len() == 0 ==> data is None)
                    &&& ((st.part is Matter || st.part is MaybeExcerpt) ==> st.excerpt is None)
                    &&& (st.part is Matter ==> st.matter.len() == 0)
                }),
            decreases lines@.len() - idx,
        {
            let ghost st_pre: ScanState = scan_lines(st0, lseq.take(idx as int), gf, ge);
            let ghost line_v: Seq<char> = lseq[idx as int];
            let line: &Vec<char> = &lines[idx];
            acc.push('\n');
            let mut line_copy = sub_vec(line, 0, line.len());
            acc.append(&mut line_copy);
            proof {
                assert(line@.subrange(0, line@.len() as int) =~= line@);
                assert(acc@ =~= st_pre.acc + seq!['\n'] + line_v);
                lemma_scan_lines_snoc(st0, lseq.take(idx as int), line_v, gf, ge);
                assert(lseq.take(idx as int).push(line_v) =~= lseq.take(idx as int + 1));
            }
            let ghost st_next: ScanState = scan_step(st_pre, line_v, gf, ge);
            let line_trim = trim_end_chars(line);
            match part {
                Part::Matter => {
                    if vec_eq(&line_trim, &fence) {
                        proof {
                            assert(acc@.skip(0) =~= acc@);
                        }
                        let stripped = strip_comment_lines(&acc, 0);
                        let m = trim_chars(&stripped);
                        let mut closed: Vec<char> = Vec::new();
                        if m.len() >= fence.len() {
                            let cut = m.len() - fence.len();
                            let tail = sub_vec(&m, cut, m.len());
                            if vec_eq(&tail, &fence) {
                                let head = sub_vec(&m, 0, cut);
                                proof {
                                    assert(m@.subrange(0, cut as int) =~= m@.take(cut as int));
                                }
                                closed = trim_newline_chars(&head);
                            }
                        }
                        proof {
                            assert(closed@ == close_matter(st_pre.acc + seq!['\n'] + line_v, gf));
                        }
                        matter_str = chars_string(&closed);
                        if closed.len() > 0 {
                            data = T::decode(matter_str.as_str());
                        }
                        acc = Vec::new();
                        part = Part::MaybeExcerpt;
                    }
                },
                Part::MaybeExcerpt => {
                    if vec_eq(&line_trim, &efence) {
                        let t = trim_chars(&acc);
                        if t.len() >= efence.len() {
                            let cut = t.len() - efence.len();
                            let tail = sub_vec(&t, cut, t.len());
                            if vec_eq(&tail, &efence) {
                                let head = sub_vec(&t, 0, cut);
                                proof {
                                    assert(t@.subrange(0, cut as int) =~= t@.take(cut as int));
                                }
                                let ex = trim_newline_chars(&head);
                                excerpt_str = Some(chars_string(&ex));
                            }
                        }
                        proof {
                            assert(opt_view(excerpt_str) == close_excerpt(
                                st_pre.acc + seq!['\n'] + line_v,
                                ge,
                            ));
                        }
                        part = Part::Content;
                    }
                },
                Part::Content => {},
            }
            idx = idx + 1;
            proof {
                assert(scan_lines(st0, lseq.take(idx as int), gf, ge) == st_next);
            }
        }
        proof {
            assert(lseq.take(lseq.len() as int) =~= lseq);
        }
        let content_chars = trim_chars(&acc);
        let content = chars_string(&content_chars);
        ParsedEntity { data, content, excerpt: excerpt_str, orig, matter: matter_str }
    }

    /// Wrapper around [`Matter::parse`] that also converts the decoded
    /// metadata into a caller-chosen shape. Absent metadata and a failed
    /// conversion both yield `None`; a result is produced only when a
    /// non-empty metadata block was captured, decoded, and converted.
    pub fn parse_with_struct<D: FromValue<T::Value>>(&self, input: &str) -> (r: Option<
        ParsedEntityStruct<D>,
    >)
        ensures
            ({
                let sp = spec_parse(input@, self.delimiter@, efence_of(self));
                &&& (sp.matter.len() == 0 ==> r is None)
                &&& match r {
                    Some(pe) => {
                        &&& pe.orig@ == input@
                        &&& pe.content@ == sp.content
                        &&& pe.matter@ == sp.matter
                        &&& opt_view(pe.excerpt) == sp.excerpt
                        &&& sp.matter.len() > 0
                    },
                    None => true,
                }
            }),
    {
        let parsed = self.parse(input);
        match parsed.data {
            None => None,
            Some(v) => match D::from_value(v) {
                None => None,
                Some(d) => Some(
                    ParsedEntityStruct {
                        data: d,
                        content: parsed.content,
                        excerpt: parsed.excerpt,
                        orig: parsed.orig,
                        matter: parsed.matter,
                    },
                ),
            },
        }
    }
}

impl<T: Engine> Default for Matter<T> {
    /// Same configuration as [`Matter::new`].
    fn default() -> (r: Self)
        ensures
            r.delimiter@ == "---"@,
            r.excerpt_delimiter is None,
    {
        Matter::new()
    }
}

} // verus!
