//! The processing component a host drives over many documents: it owns the
//! universal parser, the annotation writer, and the sample rule set that
//! stands in for the external rule-evaluation collaborator.

use vstd::prelude::*;

use crate::document::DocumentTree;
use crate::grpc::{issues_view, Issue, IssueV};
use crate::parser::UniversalParser;
use crate::textutil::{
    chars_string, dec_digits, is_space_char, is_space, str_chars, u64_digits,
};
use crate::writer::DocxWriter;
use crate::{fmt_lookup, secs_view, ElementType, SecV};

verus! {

/// Number of whitespace-separated words: positions where a non-space
/// character follows a space or the start.
pub open spec fn words_upto(s: Seq<char>, n: int) -> int
    decreases n,
{
    if n <= 0 {
        0int
    } else {
        words_upto(s, n - 1) + (if !is_space_char(s[n - 1]) && (n == 1 || is_space_char(
            s[n - 2],
        )) {
            1int
        } else {
            0int
        })
    }
}

pub open spec fn word_count(s: Seq<char>) -> int {
    words_upto(s, s.len() as int)
}

fn count_words(v: &Vec<char>) -> (r: usize)
    ensures
        r == word_count(v@),
        r <= v@.len(),
{
    let mut count: usize = 0;
    let mut i: usize = 0;
    while i < v.len()
        invariant
            0 <= i <= v@.len(),
            count == words_upto(v@, i as int),
            count <= i,
        decreases v@.len() - i,
    {
        let starts = !is_space(v[i]) && (i == 0 || is_space(v[i - 1]));
        if starts {
            count += 1;
        }
        i += 1;
    }
    count
}

/// The long-section message for a given word count.
pub open spec fn long_section_msg(wc: int) -> Seq<char> {
    "Section too long ("@ + dec_digits(wc) + " words), consider breaking it into smaller parts"@
}

/// The font-size message for a given stored value.
pub open spec fn font_size_msg(v: Seq<char>) -> Seq<char> {
    "Font size should be 12pt for body text, found: "@ + v + "pt"@
}

/// The deep-heading message for a given level.
pub open spec fn deep_heading_msg(lvl: int) -> Seq<char> {
    "Heading level "@ + dec_digits(lvl) + " is too deep, maximum allowed is 6"@
}

/// The sample findings for one section at position `idx`: a length check, a
/// body font-size check, and a heading-depth check, in that order.
pub open spec fn issues_for(s: SecV, idx: int) -> Seq<IssueV> {
    let a: Seq<IssueV> = if word_count(s.raw_text) > 100 {
        seq![
            IssueV { id: idx + 1, message: long_section_msg(word_count(s.raw_text)), section_id: s.id },
        ]
    } else {
        Seq::empty()
    };
    let b: Seq<IssueV> = if s.element_type is Paragraph && (match fmt_lookup(
        s.formatting,
        "font-size"@,
    ) {
        Some(v) => v != "12"@ && v != "24"@,
        None => false,
    }) {
        seq![
            IssueV {
                id: idx + 2,
                message: font_size_msg(fmt_lookup(s.formatting, "font-size"@)->0),
                section_id: s.id,
            },
        ]
    } else {
        Seq::empty()
    };
    let c: Seq<IssueV> = match s.element_type {
        ElementType::Heading(l) => {
            if l > 6 {
                seq![
                    IssueV { id: idx + 3, message: deep_heading_msg(l as int), section_id: s.id },
                ]
            } else {
                Seq::empty()
            }
        },
        _ => Seq::empty(),
    };
    a + b + c
}

/// The sample findings of a whole document, section by section.
pub open spec fn sample_issues(secs: Seq<SecV>, idx: int) -> Seq<IssueV>
    decreases secs.len(),
{
    if secs.len() == 0 {
        Seq::empty()
    } else {
        issues_for(secs[0], idx) + sample_issues(secs.drop_first(), idx + 1)
    }
}

/// The component a host drives: parser, writer, and the sample rules.
pub struct DocumentProcessor {
    pub parser: UniversalParser,
    pub writer: DocxWriter,
}

impl DocumentProcessor {
    /// A fresh processor with a fresh id counter.
    pub fn new() -> (r: DocumentProcessor)
        ensures
            r.writer.next_comment_id == 1,
    {
        DocumentProcessor { parser: UniversalParser::new(), writer: DocxWriter::new() }
    }

    /// The sample findings for a parsed document: overlong sections, body
    /// text whose stored font size is off the expected values, and headings
    /// nested too deep. A stand-in for the external rule evaluation.
    pub fn generate_sample_issues(&self, document_tree: &DocumentTree) -> (r: Vec<Issue>)
        requires
            document_tree.sections@.len() <= 0x7fff_ffff,
        ensures
            issues_view(r@) == sample_issues(secs_view(document_tree.sections@), 0),
    {
        let ghost sv = secs_view(document_tree.sections@);
        let mut out: Vec<Issue> = Vec::new();
        proof {
            assert(sv.skip(0) == sv);
            assert(issues_view(out@) + sample_issues(sv.skip(0), 0) =~= sample_issues(sv, 0));
        }
        let n = document_tree.sections.len();
        let mut i: usize = 0;
        while i < n
            invariant
                0 <= i <= n,
                n == document_tree.sections@.len(),
                n <= 0x7fff_ffff,
                sv == secs_view(document_tree.sections@),
                sv.len() == n,
                issues_view(out@) + sample_issues(sv.skip(i as int), i as int) == sample_issues(
                    sv,
                    0,
                ),
            decreases n - i,
        {
            proof {
                assert(sv.skip(i as int)[0] == sv[i as int]);
                assert(sv.skip(i as int).drop_first() =~= sv.skip(i + 1));
            }
            let section = &document_tree.sections[i];
            let ghost before_all = issues_view(out@);
            let text = str_chars(section.raw_text.as_str());
            let wc = count_words(&text);
            if wc > 100 {
                let mut msg = str_chars("Section too long (");
                let mut dg = u64_digits(wc as u64);
                msg.append(&mut dg);
                let mut tail = str_chars(" words), consider breaking it into smaller parts");
                msg.append(&mut tail);
                let ghost before = issues_view(out@);
                out.push(
                    Issue {
                        id: i as i64 + 1,
                        message: chars_string(&msg),
                        section_id: section.id,
                    },
                );
                proof {
                    assert(issues_view(out@) =~~= before.push(
                        IssueV {
                            id: i as int + 1,
                            message: long_section_msg(word_count(sv[i as int].raw_text)),
                            section_id: sv[i as int].id,
                        },
                    ));
                }
            }
            let is_para = match section.element_type {
                ElementType::Paragraph => true,
                _ => false,
            };
            if is_para {
                match section.get_formatting("font-size") {
                    Some(v) => {
                        if !crate::textutil::str_eq(v.as_str(), "12") && !crate::textutil::str_eq(
                            v.as_str(),
                            "24",
                        ) {
                            let mut msg = str_chars(
                                "Font size should be 12pt for body text, found: ",
                            );
                            let mut vv = str_chars(v.as_str());
                            msg.append(&mut vv);
                            let mut tail = str_chars("pt");
                            msg.append(&mut tail);
                            let ghost before = issues_view(out@);
                            out.push(
                                Issue {
                                    id: i as i64 + 2,
                                    message: chars_string(&msg),
                                    section_id: section.id,
                                },
                            );
                            proof {
                                assert(issues_view(out@) =~~= before.push(
                                    IssueV {
                                        id: i as int + 2,
                                        message: font_size_msg(
                                            fmt_lookup(sv[i as int].formatting, "font-size"@)->0,
                                        ),
                                        section_id: sv[i as int].id,
                                    },
                                ));
                            }
                        }
                    },
                    None => {},
                }
            }
            match section.element_type {
                ElementType::Heading(l) => {
                    if l > 6 {
                        let mut msg = str_chars("Heading level ");
                        let mut dg = u64_digits(l as u64);
                        msg.append(&mut dg);
                        let mut tail = str_chars(" is too deep, maximum allowed is 6");
                        msg.append(&mut tail);
                        let ghost before = issues_view(out@);
                        out.push(
                            Issue {
                                id: i as i64 + 3,
                                message: chars_string(&msg),
                                section_id: section.id,
                            },
                        );
                        proof {
                            assert(issues_view(out@) =~~= before.push(
                                IssueV {
                                    id: i as int + 3,
                                    message: deep_heading_msg(l as int),
                                    section_id: sv[i as int].id,
                                },
                            ));
                        }
                    }
                },
                _ => {},
            }
            proof {
                assert(issues_view(out@) =~~= before_all + issues_for(sv[i as int], i as int));
                assert(issues_view(out@) + sample_issues(sv.skip(i + 1), i + 1) =~~=
                    sample_issues(sv, 0));
            }
            i += 1;
        }
        proof {
            assert(sv.skip(n as int).len() == 0);
            assert(sample_issues(sv.skip(n as int), n as int) =~= Seq::<IssueV>::empty());
            assert(issues_view(out@) =~~= sample_issues(sv, 0));
        }
        out
    }
}

} // verus!
