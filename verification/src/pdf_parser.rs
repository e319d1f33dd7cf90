//! The secondary, degenerate extractor: a page-oriented input format whose
//! text is mapped flat, one Paragraph section per non-blank line. It shares
//! the section shape but none of the style or tree machinery.

use vstd::prelude::*;

use crate::document::{DocumentMetadata, DocumentTree};
use crate::errors::{DocError, ErrorKind};
use crate::textutil::{blank, chars_string, dec_digits, is_blank, str_chars, u64_digits};
use crate::{secs_view, DocumentSection, ElementType, SecV};

verus! {

/// Declares the page library's document type; it stays opaque, and the
/// names below say what the trusted calls read out of it.
#[verifier::external_type_specification]
#[verifier::external_body]
pub struct ExLopdfDocument(lopdf::Document);

/// The page numbers a loadable document holds, in ascending order; nothing
/// when loading fails. A function of the bytes alone.
pub uninterp spec fn pdf_pages_of(bytes: Seq<u8>) -> Option<Seq<u32>>;

/// The text extraction yields for one page; nothing when extraction fails.
/// A function of the bytes and the page alone.
pub uninterp spec fn pdf_page_text(bytes: Seq<u8>, page: u32) -> Option<Seq<char>>;

/// The bytes a loaded document was loaded from.
pub uninterp spec fn pdf_src(d: lopdf::Document) -> Seq<u8>;

/// Relies on lopdf::Document::load_mem: it parses a document out of bytes
/// and fails exactly when they do not hold a loadable one.
#[verifier::external_body]
fn load_pdf(bytes: &Vec<u8>) -> (r: Result<lopdf::Document, String>)
    ensures
        r matches Ok(d) ==> pdf_src(d) == bytes@ && pdf_pages_of(bytes@) is Some,
        r is Err ==> pdf_pages_of(bytes@) is None,
{
    match lopdf::Document::load_mem(bytes.as_slice()) {
        Ok(d) => Ok(d),
        Err(e) => Err(format!("{}", e)),
    }
}

/// Relies on lopdf::Document::get_pages: the page numbers in ascending
/// order, as the ordered map it returns walks them.
#[verifier::external_body]
fn page_numbers(d: &lopdf::Document) -> (r: Vec<u32>)
    requires
        pdf_pages_of(pdf_src(*d)) is Some,
    ensures
        r@ == pdf_pages_of(pdf_src(*d))->0,
{
    d.get_pages().keys().copied().collect()
}

/// Relies on lopdf::Document::extract_text for one page.
#[verifier::external_body]
fn page_text(d: &lopdf::Document, page: u32) -> (r: Result<String, String>)
    ensures
        r matches Ok(t) ==> pdf_page_text(pdf_src(*d), page) == Some(t@),
        r is Err ==> pdf_page_text(pdf_src(*d), page) is None,
{
    match d.extract_text(&[page]) {
        Ok(t) => Ok(t),
        Err(e) => Err(format!("{}", e)),
    }
}

// ---------------------------------------------------------------------------
// Line splitting, as `str::lines` does it.
// ---------------------------------------------------------------------------

/// A line with one trailing carriage return removed.
pub open spec fn strip_cr(s: Seq<char>) -> Seq<char> {
    if s.len() > 0 && s.last() == '\r' {
        s.drop_last()
    } else {
        s
    }
}

/// Position of the first line feed at or after `from`.
pub open spec fn first_nl_from(s: Seq<char>, from: int) -> Option<int>
    decreases s.len() - from,
{
    if from < 0 || from >= s.len() {
        None
    } else if s[from] == '\n' {
        Some(from)
    } else {
        first_nl_from(s, from + 1)
    }
}

proof fn lemma_first_nl_bounds(s: Seq<char>, from: int)
    requires
        0 <= from,
        first_nl_from(s, from) is Some,
    ensures
        from <= first_nl_from(s, from)->0 < s.len(),
    decreases s.len() - from,
{
    if from < s.len() && s[from] != '\n' {
        lemma_first_nl_bounds(s, from + 1);
    }
}

/// The lines of `s` from `from` on: split at line feeds, each line's
/// trailing carriage return removed, a final line ending optional.
pub open spec fn split_from(s: Seq<char>, from: int) -> Seq<Seq<char>>
    decreases s.len() - from
        via split_from_decreases
{
    if from < 0 || from >= s.len() {
        Seq::empty()
    } else {
        match first_nl_from(s, from) {
            None => seq![strip_cr(s.subrange(from, s.len() as int))],
            Some(p) => seq![strip_cr(s.subrange(from, p))] + split_from(s, p + 1),
        }
    }
}

#[via_fn]
proof fn split_from_decreases(s: Seq<char>, from: int) {
    if 0 <= from < s.len() && first_nl_from(s, from) is Some {
        lemma_first_nl_bounds(s, from);
    }
}

pub open spec fn split_lines(s: Seq<char>) -> Seq<Seq<char>> {
    split_from(s, 0)
}

/// Position of the first line feed at or after `from`.
fn find_nl(v: &Vec<char>, from: usize) -> (r: Option<usize>)
    requires
        from <= v@.len(),
    ensures
        match r {
            Some(p) => first_nl_from(v@, from as int) == Some(p as int) && from <= p < v@.len(),
            None => first_nl_from(v@, from as int) is None,
        },
{
    let mut j = from;
    while j < v.len()
        invariant
            from <= j <= v@.len(),
            first_nl_from(v@, from as int) == first_nl_from(v@, j as int),
        decreases v@.len() - j,
    {
        if v[j] == '\n' {
            return Some(j);
        }
        j += 1;
    }
    None
}

/// Copy of `v[from..to]` with a trailing carriage return removed.
fn line_slice(v: &Vec<char>, from: usize, to: usize) -> (r: Vec<char>)
    requires
        from <= to <= v@.len(),
    ensures
        r@ == strip_cr(v@.subrange(from as int, to as int)),
{
    let end = if to > from && v[to - 1] == '\r' {
        to - 1
    } else {
        to
    };
    proof {
        if to > from && v@[to - 1] == '\r' {
            assert(v@.subrange(from as int, to as int).last() == v@[to - 1]);
            assert(v@.subrange(from as int, to as int).drop_last() =~= v@.subrange(
                from as int,
                end as int,
            ));
        }
    }
    let mut out: Vec<char> = Vec::new();
    let mut i = from;
    while i < end
        invariant
            from <= i <= end <= v@.len(),
            out@ == v@.subrange(from as int, i as int),
        decreases end - i,
    {
        out.push(v[i]);
        proof {
            assert(out@ =~= v@.subrange(from as int, i + 1));
        }
        i += 1;
    }
    proof {
        if !(to > from && v@[to - 1] == '\r') {
            assert(strip_cr(v@.subrange(from as int, to as int)) == v@.subrange(
                from as int,
                to as int,
            ));
        }
    }
    out
}

/// Collect the lines of `v` from `from` on.
fn collect_lines(v: &Vec<char>, from: usize, out: &mut Vec<Vec<char>>)
    requires
        from <= v@.len(),
    ensures
        crate::extract::charss_view(final(out)@) == crate::extract::charss_view(old(out)@)
            + split_from(v@, from as int),
    decreases v@.len() - from,
{
    if from == v.len() {
        proof {
            assert(split_from(v@, from as int) =~= Seq::<Seq<char>>::empty());
            assert(crate::extract::charss_view(out@) =~= crate::extract::charss_view(out@)
                + split_from(v@, from as int));
        }
        return ;
    }
    match find_nl(v, from) {
        None => {
            let line = line_slice(v, from, v.len());
            let ghost before = crate::extract::charss_view(out@);
            out.push(line);
            proof {
                assert(crate::extract::charss_view(out@) =~= before.push(
                    strip_cr(v@.subrange(from as int, v@.len() as int)),
                ));
                assert(crate::extract::charss_view(out@) =~= before + split_from(
                    v@,
                    from as int,
                ));
            }
        },
        Some(p) => {
            let line = line_slice(v, from, p);
            let ghost before = crate::extract::charss_view(out@);
            out.push(line);
            proof {
                assert(crate::extract::charss_view(out@) =~= before.push(
                    strip_cr(v@.subrange(from as int, p as int)),
                ));
            }
            collect_lines(v, p + 1, out);
            proof {
                assert(crate::extract::charss_view(out@) =~= before + split_from(
                    v@,
                    from as int,
                ));
            }
        },
    }
}

// ---------------------------------------------------------------------------
// Sections from pages.
// ---------------------------------------------------------------------------

/// The locator of a page's sections.
pub open spec fn page_locator(page: u32) -> Seq<char> {
    "page_"@ + dec_digits(page as int) + ".txt"@
}

/// Sections for the lines of one page: a Paragraph per non-blank line, ids
/// continuing from what is already collected.
pub open spec fn line_secs(lines: Seq<Seq<char>>, page: u32, acc: Seq<SecV>) -> Seq<SecV>
    decreases lines.len(),
{
    if lines.len() == 0 {
        acc
    } else {
        let acc1 = if !is_blank(lines[0]) && acc.len() < 0x7fff_ffff {
            acc.push(
                SecV {
                    id: acc.len() as int + 1,
                    element_type: ElementType::Paragraph,
                    raw_text: lines[0],
                    formatting: seq![("element-type"@, "pdf-text"@)],
                    xml_path: page_locator(page),
                },
            )
        } else {
            acc
        };
        line_secs(lines.drop_first(), page, acc1)
    }
}

/// Sections over all pages in order; a page whose text cannot be extracted
/// contributes nothing.
pub open spec fn pages_secs(bytes: Seq<u8>, pages: Seq<u32>, acc: Seq<SecV>) -> Seq<SecV>
    decreases pages.len(),
{
    if pages.len() == 0 {
        acc
    } else {
        let acc1 = match pdf_page_text(bytes, pages[0]) {
            None => acc,
            Some(t) => line_secs(split_lines(t), pages[0], acc),
        };
        pages_secs(bytes, pages.drop_first(), acc1)
    }
}

/// What parsing page-oriented bytes yields.
pub open spec fn pdf_parse_spec(bytes: Seq<u8>) -> Result<Seq<SecV>, ErrorKind> {
    match pdf_pages_of(bytes) {
        None => Err(ErrorKind::MalformedArchive),
        Some(pages) => Ok(pages_secs(bytes, pages, Seq::empty())),
    }
}

/// Parses page-oriented documents.
pub trait PdfParser {
    /// Parse a document out of bytes into the flat form; `path` labels the
    /// result and its errors.
    fn parse_bytes(&self, path: &str, bytes: &Vec<u8>) -> Result<DocumentTree, DocError>;
}

/// The page-oriented extractor.
pub struct LopdfParser;

impl LopdfParser {
    /// The fixed formatting of extracted page text.
    pub fn extract_formatting_for_pdf(&self, text: &str) -> (r: Vec<(String, String)>)
        ensures
            r@.len() == 1,
            r@[0].0@ == "element-type"@,
            r@[0].1@ == "pdf-text"@,
    {
        let mut out: Vec<(String, String)> = Vec::new();
        out.push((String::from_str("element-type"), String::from_str("pdf-text")));
        out
    }

    /// Parse the document: one Paragraph section per non-blank line of each
    /// page's text, in page order, ids consecutive from one.
    pub fn parse_pdf_bytes(&self, path: &str, bytes: &Vec<u8>) -> (r: Result<
        DocumentTree,
        DocError,
    >)
        ensures
            r matches Ok(t) ==> pdf_parse_spec(bytes@) == Ok::<_, ErrorKind>(
                secs_view(t.sections@),
            ) && t.metadata.file_path@ == path@ && t.metadata.file_size == bytes@.len(),
            r matches Err(e) ==> pdf_parse_spec(bytes@) == Err::<Seq<SecV>, _>(e.kind)
                && e.path@ == path@,
    {
        let doc = match load_pdf(bytes) {
            Ok(d) => d,
            Err(msg) => {
                return Err(DocError::new(ErrorKind::MalformedArchive, path, "pages", msg));
            },
        };
        let pages = page_numbers(&doc);
        let ghost pv = pages@;
        let mut sections: Vec<DocumentSection> = Vec::new();
        proof {
            assert(pv.skip(0) == pv);
            assert(secs_view(sections@) =~= Seq::<SecV>::empty());
        }
        let mut i: usize = 0;
        while i < pages.len()
            invariant
                0 <= i <= pages@.len(),
                pv == pages@,
                pdf_src(doc) == bytes@,
                pages_secs(bytes@, pv, Seq::empty()) == pages_secs(
                    bytes@,
                    pv.skip(i as int),
                    secs_view(sections@),
                ),
            decreases pages@.len() - i,
        {
            proof {
                assert(pv.skip(i as int)[0] == pv[i as int]);
                assert(pv.skip(i as int).drop_first() =~= pv.skip(i + 1));
            }
            let p = pages[i];
            match page_text(&doc, p) {
                Err(_) => {},
                Ok(text) => {
                    let chars = str_chars(text.as_str());
                    let mut lines: Vec<Vec<char>> = Vec::new();
                    collect_lines(&chars, 0, &mut lines);
                    let ghost lv = crate::extract::charss_view(lines@);
                    let ghost acc0 = secs_view(sections@);
                    proof {
                        assert(lv =~= split_lines(text@));
                        assert(lv.skip(0) == lv);
                    }
                    let mut k: usize = 0;
                    while k < lines.len()
                        invariant
                            0 <= k <= lines@.len(),
                            lv == crate::extract::charss_view(lines@),
                            lv.len() == lines@.len(),
                            line_secs(lv, p, acc0) == line_secs(
                                lv.skip(k as int),
                                p,
                                secs_view(sections@),
                            ),
                        decreases lines@.len() - k,
                    {
                        proof {
                            assert(lv.skip(k as int)[0] == lv[k as int]);
                            assert(lv.skip(k as int).drop_first() =~= lv.skip(k + 1));
                            assert(lines@[k as int]@ == lv[k as int]);
                        }
                        let line = &lines[k];
                        if !blank(line) && sections.len() < 0x7fff_ffff {
                            let id = (sections.len() + 1) as i32;
                            let mut loc = str_chars("page_");
                            let mut dg = u64_digits(p as u64);
                            loc.append(&mut dg);
                            let mut tail = str_chars(".txt");
                            loc.append(&mut tail);
                            let sec = DocumentSection {
                                id,
                                element_type: ElementType::Paragraph,
                                raw_text: chars_string(line),
                                formatting: self.extract_formatting_for_pdf(""),
                                xml_path: chars_string(&loc),
                            };
                            let ghost before = secs_view(sections@);
                            proof {
                                assert(sec@.formatting =~~= seq![("element-type"@, "pdf-text"@)]);
                            }
                            sections.push(sec);
                            proof {
                                assert(secs_view(sections@) =~= before.push(
                                    sections@[sections@.len() - 1]@,
                                ));
                                assert(sections@[sections@.len() - 1]@ =~~= SecV {
                                    id: before.len() as int + 1,
                                    element_type: ElementType::Paragraph,
                                    raw_text: lv[k as int],
                                    formatting: seq![("element-type"@, "pdf-text"@)],
                                    xml_path: page_locator(p),
                                });
                            }
                        }
                        k += 1;
                    }
                    proof {
                        assert(lv.skip(lines@.len() as int).len() == 0);
                    }
                },
            }
            i += 1;
        }
        proof {
            assert(pv.skip(pages@.len() as int).len() == 0);
        }
        let total = pages.len();
        let total_pages: u32 = if total > 0xffff_ffffusize {
            0xffff_ffffu32
        } else {
            total as u32
        };
        Ok(
            DocumentTree {
                sections,
                metadata: DocumentMetadata {
                    total_pages,
                    file_path: path.to_owned(),
                    file_size: bytes.len() as u64,
                    creation_date: None,
                    modification_date: None,
                },
            },
        )
    }
}

impl PdfParser for LopdfParser {
    fn parse_bytes(&self, path: &str, bytes: &Vec<u8>) -> Result<DocumentTree, DocError> {
        self.parse_pdf_bytes(path, bytes)
    }
}

} // verus!
