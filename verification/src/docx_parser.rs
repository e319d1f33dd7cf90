//! Document ingestion: open the archive bytes, load the style catalog from
//! the optional style part, and drive the extractor over the required main
//! content part, in document order.

use vstd::prelude::*;

use crate::archive::{read_archive, zip_entries, ArchiveEntry, EntryV};
use crate::errors::{DocError, ErrorKind};
use crate::extract::{extract_all, extract_content};
use crate::styles::{catalog_of, parse_styles_root, StyleCatalog, StyleV};
use crate::textutil::str_eq;
use crate::xml::XmlElem;
use crate::xml_read::{parse_xml, xml_parse};
use crate::{secs_view, DocumentSection, SecV};

verus! {

/// Relies on String::from_utf8: it succeeds exactly on valid UTF-8 and
/// decodes it.
#[verifier::external_body]
pub fn utf8_to_string(bytes: &Vec<u8>) -> (r: Option<String>)
    ensures
        r matches Some(s) ==> vstd::utf8::valid_utf8(bytes@) && s@ == vstd::utf8::decode_utf8(
            bytes@,
        ),
        r is None ==> !vstd::utf8::valid_utf8(bytes@),
{
    match String::from_utf8(bytes.clone()) {
        Ok(s) => Some(s),
        Err(_) => None,
    }
}

/// Data of the first entry with the given name.
pub open spec fn entry_lookup(es: Seq<EntryV>, name: Seq<char>) -> Option<Seq<u8>>
    decreases es.len(),
{
    if es.len() == 0 {
        None
    } else if es[0].name == name {
        Some(es[0].data)
    } else {
        entry_lookup(es.drop_first(), name)
    }
}

/// The catalog an entry list yields: empty when the style part is absent or
/// malformed in any way; the parsed catalog otherwise.
pub open spec fn catalog_of_entries(es: Seq<EntryV>) -> Seq<StyleV> {
    match entry_lookup(es, "word/styles.xml"@) {
        None => Seq::empty(),
        Some(sb) => {
            if vstd::utf8::valid_utf8(sb) {
                match xml_parse(vstd::utf8::decode_utf8(sb)) {
                    None => Seq::empty(),
                    Some(root) => catalog_of(root),
                }
            } else {
                Seq::empty()
            }
        },
    }
}

/// What ingesting an entry list yields: the ordered section list, or the
/// error class. The main content part must be present and well-formed; a
/// bad style part degrades to an empty catalog.
pub open spec fn ingest_entries_spec(es: Seq<EntryV>) -> Result<Seq<SecV>, ErrorKind> {
    match entry_lookup(es, "word/document.xml"@) {
        None => Err(ErrorKind::MissingRequiredPart),
        Some(db) => {
            if !vstd::utf8::valid_utf8(db) {
                Err(ErrorKind::MalformedXml)
            } else {
                match xml_parse(vstd::utf8::decode_utf8(db)) {
                    None => Err(ErrorKind::MalformedXml),
                    Some(root) => Ok(extract_all(catalog_of_entries(es), root)),
                }
            }
        },
    }
}

/// What ingesting archive bytes yields: the container must open and fully
/// read; the rest is `ingest_entries_spec`.
pub open spec fn ingest_spec(bytes: Seq<u8>) -> Result<Seq<SecV>, ErrorKind> {
    match zip_entries(bytes) {
        None => Err(ErrorKind::MalformedArchive),
        Some(es) => ingest_entries_spec(es),
    }
}

/// Find the first entry with the given name.
pub fn find_entry<'a>(es: &'a Vec<ArchiveEntry>, name: &str) -> (r: Option<&'a ArchiveEntry>)
    ensures
        match r {
            Some(e) => entry_lookup(crate::archive::entries_view(es@), name@) == Some(e.data@)
                && e.name@ == name@,
            None => entry_lookup(crate::archive::entries_view(es@), name@) is None,
        },
{
    let ghost ev = crate::archive::entries_view(es@);
    proof {
        assert(ev.skip(0) == ev);
    }
    let mut i: usize = 0;
    while i < es.len()
        invariant
            0 <= i <= es@.len(),
            ev == crate::archive::entries_view(es@),
            ev.len() == es@.len(),
            entry_lookup(ev, name@) == entry_lookup(ev.skip(i as int), name@),
        decreases es@.len() - i,
    {
        proof {
            assert(ev.skip(i as int)[0] == ev[i as int]);
            assert(ev.skip(i as int).drop_first() =~= ev.skip(i + 1));
        }
        if str_eq(es[i].name.as_str(), name) {
            return Some(&es[i]);
        }
        i += 1;
    }
    None
}

/// The document ingestor: style catalog plus extraction over the main part.
pub struct DocxParser {
    pub styles: StyleCatalog,
}

impl DocxParser {
    /// A parser with an empty catalog.
    pub fn new() -> (r: DocxParser)
        ensures
            r.styles@ == Seq::<StyleV>::empty(),
    {
        DocxParser { styles: StyleCatalog::new() }
    }

    /// Load the catalog for an entry list: empty on an absent or malformed
    /// style part, never an error.
    fn load_styles(entries: &Vec<ArchiveEntry>) -> (r: StyleCatalog)
        ensures
            r@ == catalog_of_entries(crate::archive::entries_view(entries@)),
    {
        match find_entry(entries, "word/styles.xml") {
            None => StyleCatalog::new(),
            Some(e) => match utf8_to_string(&e.data) {
                None => StyleCatalog::new(),
                Some(txt) => match parse_xml(txt.as_str()) {
                    Err(_) => StyleCatalog::new(),
                    Ok(root) => parse_styles_root(&root),
                },
            },
        }
    }

    /// Ingest a document from its archive bytes.
    ///
    /// Returns the ordered section list, ids consecutive from one. Fails
    /// with MalformedArchive when the container cannot be opened or fully
    /// read, MissingRequiredPart when the main content part is absent, and
    /// MalformedXml when that part is not well-formed markup; a bad style
    /// part is not an error. `path` only labels errors.
    pub fn parse_bytes(&self, path: &str, bytes: &Vec<u8>) -> (r: Result<
        Vec<DocumentSection>,
        DocError,
    >)
        ensures
            r matches Ok(s) ==> ingest_spec(bytes@) == Ok::<_, ErrorKind>(secs_view(s@)),
            r matches Err(e) ==> ingest_spec(bytes@) == Err::<Seq<SecV>, _>(e.kind) && e.path@
                == path@,
    {
        let entries = match read_archive(bytes) {
            Ok(es) => es,
            Err(msg) => {
                return Err(
                    DocError::new(ErrorKind::MalformedArchive, path, "word/document.xml", msg),
                );
            },
        };
        let cat = Self::load_styles(&entries);
        let doc_entry = match find_entry(&entries, "word/document.xml") {
            Some(e) => e,
            None => {
                return Err(
                    DocError::new(
                        ErrorKind::MissingRequiredPart,
                        path,
                        "word/document.xml",
                        String::from_str("main content part is missing"),
                    ),
                );
            },
        };
        let txt = match utf8_to_string(&doc_entry.data) {
            Some(t) => t,
            None => {
                return Err(
                    DocError::new(
                        ErrorKind::MalformedXml,
                        path,
                        "word/document.xml",
                        String::from_str("main content part is not valid UTF-8"),
                    ),
                );
            },
        };
        let root: XmlElem = match parse_xml(txt.as_str()) {
            Ok(root) => root,
            Err(msg) => {
                return Err(DocError::new(ErrorKind::MalformedXml, path, "word/document.xml", msg));
            },
        };
        Ok(extract_content(&cat, &root))
    }
}

} // verus!
