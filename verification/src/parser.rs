//! Format dispatch: one parser per input format, chosen by the file
//! extension, case-insensitively over the ASCII range.

use vstd::prelude::*;

use crate::document::{DocumentMetadata, DocumentTree};
use crate::docx_parser::{ingest_spec, DocxParser};
use crate::errors::{DocError, ErrorKind};
use crate::pdf_parser::{pdf_parse_spec, LopdfParser, PdfParser};
use crate::{secs_view, SecV};

verus! {

/// ASCII letters lowered, other characters kept.
pub open spec fn ascii_lower(s: Seq<char>) -> Seq<char> {
    Seq::new(s.len(), |i: int| lower_char(s[i]))
}

pub open spec fn lower_char(c: char) -> char {
    if 'A' <= c <= 'Z' {
        ((c as u32) + 32) as char
    } else {
        c
    }
}

pub open spec fn ends_with(h: Seq<char>, n: Seq<char>) -> bool {
    n.len() <= h.len() && h.subrange(h.len() - n.len(), h.len() as int) == n
}

fn exec_lower_char(c: char) -> (r: char)
    ensures
        r == lower_char(c),
{
    if 'A' <= c && c <= 'Z' {
        (((c as u32) + 32) as u8) as char
    } else {
        c
    }
}

fn lower_chars(v: &Vec<char>) -> (r: Vec<char>)
    ensures
        r@ == ascii_lower(v@),
{
    let mut out: Vec<char> = Vec::new();
    let mut i: usize = 0;
    while i < v.len()
        invariant
            0 <= i <= v@.len(),
            out@.len() == i,
            forall|j: int| 0 <= j < i ==> out@[j] == lower_char(v@[j]),
        decreases v@.len() - i,
    {
        out.push(exec_lower_char(v[i]));
        i += 1;
    }
    proof {
        assert(out@ =~= ascii_lower(v@));
    }
    out
}

fn has_suffix(h: &Vec<char>, n: &Vec<char>) -> (r: bool)
    ensures
        r == ends_with(h@, n@),
{
    if n.len() > h.len() {
        return false;
    }
    let hl = h.len();
    let start = h.len() - n.len();
    let mut j: usize = 0;
    while j < n.len()
        invariant
            0 <= j <= n@.len(),
            start == h@.len() - n@.len(),
            n@.len() <= h@.len(),
            hl == h@.len(),
            forall|k: int| 0 <= k < j ==> h@[start + k] == n@[k],
        decreases n@.len() - j,
    {
        if h[start + j] != n[j] {
            proof {
                assert(h@.subrange(h@.len() - n@.len(), h@.len() as int)[j as int] == h@[start
                    + j]);
            }
            return false;
        }
        j += 1;
    }
    proof {
        assert(h@.subrange(h@.len() - n@.len(), h@.len() as int) =~= n@);
    }
    true
}

/// What the dispatcher yields for a path and its bytes: the archive
/// ingestor for one extension, the page extractor for the other, and the
/// unsupported-format error otherwise.
pub open spec fn universal_spec(path: Seq<char>, bytes: Seq<u8>) -> Result<Seq<SecV>, ErrorKind> {
    if ends_with(ascii_lower(path), ".docx"@) {
        ingest_spec(bytes)
    } else if ends_with(ascii_lower(path), ".pdf"@) {
        pdf_parse_spec(bytes)
    } else {
        Err(ErrorKind::UnsupportedFormat)
    }
}

/// Parses a document of some supported format out of bytes.
pub trait Parser {
    /// Parse a document out of bytes; `path` selects nothing here and only
    /// labels the result and its errors.
    fn parse_bytes(&self, path: &str, bytes: &Vec<u8>) -> Result<DocumentTree, DocError>;
}

impl Parser for DocxParser {
    fn parse_bytes(&self, path: &str, bytes: &Vec<u8>) -> Result<DocumentTree, DocError> {
        match DocxParser::parse_bytes(self, path, bytes) {
            Ok(sections) => Ok(
                DocumentTree {
                    sections,
                    metadata: DocumentMetadata {
                        total_pages: 0,
                        file_path: path.to_owned(),
                        file_size: bytes.len() as u64,
                        creation_date: None,
                        modification_date: None,
                    },
                },
            ),
            Err(e) => Err(e),
        }
    }
}

impl Parser for LopdfParser {
    fn parse_bytes(&self, path: &str, bytes: &Vec<u8>) -> Result<DocumentTree, DocError> {
        self.parse_pdf_bytes(path, bytes)
    }
}

/// The universal parser: one concrete parser per supported format.
pub struct UniversalParser {
    pub docx_parser: DocxParser,
    pub pdf_parser: LopdfParser,
}

impl UniversalParser {
    /// A parser over all supported formats.
    pub fn new() -> (r: UniversalParser)
        ensures
            r.docx_parser.styles@.len() == 0,
    {
        UniversalParser { docx_parser: DocxParser::new(), pdf_parser: LopdfParser }
    }

    /// Dispatch on the extension and parse.
    pub fn parse(&self, path: &str, bytes: &Vec<u8>) -> (r: Result<DocumentTree, DocError>)
        ensures
            r matches Ok(t) ==> universal_spec(path@, bytes@) == Ok::<_, ErrorKind>(
                secs_view(t.sections@),
            ) && t.metadata.file_path@ == path@ && t.metadata.file_size == bytes@.len(),
            r matches Err(e) ==> universal_spec(path@, bytes@) == Err::<Seq<SecV>, _>(e.kind)
                && e.path@ == path@,
    {
        let pc = crate::textutil::str_chars(path);
        let low = lower_chars(&pc);
        let docx_ext = crate::textutil::str_chars(".docx");
        let pdf_ext = crate::textutil::str_chars(".pdf");
        if has_suffix(&low, &docx_ext) {
            match DocxParser::parse_bytes(&self.docx_parser, path, bytes) {
                Ok(sections) => Ok(
                    DocumentTree {
                        sections,
                        metadata: DocumentMetadata {
                            total_pages: 0,
                            file_path: path.to_owned(),
                            file_size: bytes.len() as u64,
                            creation_date: None,
                            modification_date: None,
                        },
                    },
                ),
                Err(e) => Err(e),
            }
        } else if has_suffix(&low, &pdf_ext) {
            self.pdf_parser.parse_pdf_bytes(path, bytes)
        } else {
            Err(
                DocError::new(
                    ErrorKind::UnsupportedFormat,
                    path,
                    "",
                    String::from_str("unsupported file format"),
                ),
            )
        }
    }
}

} // verus!
