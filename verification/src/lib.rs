//! A document-processing engine for compound office documents: zip-based
//! archives of markup parts. It extracts a structured, style-resolved model
//! of the content (style cascade resolution, paragraph and table
//! classification, formatting extraction), reconstructs a nested outline
//! from the flat content stream, and writes annotations back into the
//! original archive without corrupting it. A degenerate page-oriented
//! extractor covers a second input format.
//!
//! Every function is specified against a mathematical model of its data;
//! the outside libraries for containers, markup, page documents, escaping
//! and the clock are reached only through the narrow trusted items beside
//! their callers.

pub mod textutil;
pub mod xml;
pub mod xml_read;
pub mod styles;
pub mod extract;
pub mod errors;
pub mod archive;
pub mod docx_parser;
pub mod layout;
pub mod layout_modeler;
pub mod grpc;
pub mod writer;
pub mod document;
pub mod pdf_parser;
pub mod parser;
pub mod comment_writer;
pub mod oss_client;
pub mod protocol_formatter;
pub mod document_processor;

use vstd::prelude::*;

verus! {

/// The classification of one extracted content unit.
#[derive(Debug, Clone, PartialEq, Eq, Structural)]
pub enum ElementType {
    Heading(u8),
    Paragraph,
    Table,
    Equation,
}

impl ElementType {
    /// True for the heading variant only.
    pub fn is_heading(&self) -> (r: bool)
        ensures
            r == (self is Heading),
    {
        match self {
            ElementType::Heading(_) => true,
            _ => false,
        }
    }
}

/// One classified content unit extracted from a document: its position in
/// document order, classification, normalized text, final formatting as
/// key-value pairs, and an opaque locator into the source part.
/// Immutable once created.
#[derive(Debug, PartialEq, Eq)]
pub struct DocumentSection {
    pub id: i32,
    pub element_type: ElementType,
    pub raw_text: String,
    pub formatting: Vec<(String, String)>,
    pub xml_path: String,
}

/// Mathematical view of a section.
#[verifier::ext_equal]
pub struct SecV {
    pub id: int,
    pub element_type: ElementType,
    pub raw_text: Seq<char>,
    pub formatting: Seq<(Seq<char>, Seq<char>)>,
    pub xml_path: Seq<char>,
}

impl View for DocumentSection {
    type V = SecV;

    open spec fn view(&self) -> SecV {
        SecV {
            id: self.id as int,
            element_type: self.element_type,
            raw_text: self.raw_text@,
            formatting: Seq::new(
                self.formatting@.len(),
                |i: int| (self.formatting@[i].0@, self.formatting@[i].1@),
            ),
            xml_path: self.xml_path@,
        }
    }
}

/// First value stored under `key`, as the extractor's maps are keyed.
pub open spec fn fmt_lookup(fmt: Seq<(Seq<char>, Seq<char>)>, key: Seq<char>) -> Option<Seq<char>>
    decreases fmt.len(),
{
    if fmt.len() == 0 {
        None
    } else if fmt[0].0 == key {
        Some(fmt[0].1)
    } else {
        fmt_lookup(fmt.drop_first(), key)
    }
}

impl DocumentSection {
    /// The formatting value stored under `key`, if any.
    pub fn get_formatting(&self, key: &str) -> (r: Option<&String>)
        ensures
            match r {
                Some(v) => fmt_lookup(self@.formatting, key@) == Some(v@),
                None => fmt_lookup(self@.formatting, key@) is None,
            },
    {
        let ghost fv = self@.formatting;
        proof {
            assert(fv.skip(0) == fv);
        }
        let mut i: usize = 0;
        while i < self.formatting.len()
            invariant
                0 <= i <= self.formatting@.len(),
                fv == self@.formatting,
                fv.len() == self.formatting@.len(),
                fmt_lookup(fv, key@) == fmt_lookup(fv.skip(i as int), key@),
            decreases self.formatting@.len() - i,
        {
            proof {
                assert(fv.skip(i as int)[0] == fv[i as int]);
                assert(fv.skip(i as int).drop_first() =~= fv.skip(i + 1));
            }
            if crate::textutil::str_eq(self.formatting[i].0.as_str(), key) {
                return Some(&self.formatting[i].1);
            }
            i += 1;
        }
        None
    }
}

/// View of a section vector, index by index.
pub open spec fn secs_view(v: Seq<DocumentSection>) -> Seq<SecV> {
    Seq::new(v.len(), |i: int| v[i]@)
}

impl Clone for DocumentSection {
    /// A section clones to an equal section.
    fn clone(&self) -> (r: Self)
        ensures
            r@ == self@,
    {
        let mut formatting: Vec<(String, String)> = Vec::new();
        let mut i: usize = 0;
        while i < self.formatting.len()
            invariant
                0 <= i <= self.formatting@.len(),
                formatting@.len() == i,
                forall|j: int|
                    0 <= j < i ==> (#[trigger] formatting@[j]).0@ == self.formatting@[j].0@
                        && formatting@[j].1@ == self.formatting@[j].1@,
            decreases self.formatting@.len() - i,
        {
            formatting.push((self.formatting[i].0.clone(), self.formatting[i].1.clone()));
            i += 1;
        }
        let r = DocumentSection {
            id: self.id,
            element_type: match self.element_type {
                ElementType::Heading(l) => ElementType::Heading(l),
                ElementType::Paragraph => ElementType::Paragraph,
                ElementType::Table => ElementType::Table,
                ElementType::Equation => ElementType::Equation,
            },
            raw_text: self.raw_text.clone(),
            formatting,
            xml_path: self.xml_path.clone(),
        };
        proof {
            assert(r@ =~~= self@);
        }
        r
    }
}

} // verus!
