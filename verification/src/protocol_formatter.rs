//! Pieces of the downstream protocol that are plain data: the bibliography
//! reference record and the end-of-references test. The full protocol
//! conversion works on float-typed properties and lives with the host.

use vstd::prelude::*;

use crate::textutil::{contains, contains_sub, str_chars};

verus! {

/// One bibliography reference of the output protocol.
#[derive(Debug)]
pub struct Reference {
    pub ref_id: String,
    pub raw_text: String,
}

/// Whether a paragraph's text marks the end of the references section: it
/// holds one of the closing keywords (biography, data set, acknowledgements
/// and appendix headings, in the source wording).
pub open spec fn reference_end_marker(text: Seq<char>) -> bool {
    contains_sub(text, "\u{4F5C}\u{8005}\u{7B80}\u{4ECB}"@) || contains_sub(
        text,
        "\u{5B66}\u{4F4D}\u{8BBA}\u{6587}\u{6570}\u{636E}\u{96C6}"@,
    ) || contains_sub(text, "\u{81F4}\u{8C22}"@) || contains_sub(text, "\u{9644}\u{5F55}"@)
        || contains_sub(text, "Acknowledgements"@)
}

/// True when the text marks the end of the references section.
pub fn is_reference_section_end(text: &str) -> (r: bool)
    ensures
        r == reference_end_marker(text@),
{
    let tc = str_chars(text);
    let k1 = str_chars("\u{4F5C}\u{8005}\u{7B80}\u{4ECB}");
    let k2 = str_chars("\u{5B66}\u{4F4D}\u{8BBA}\u{6587}\u{6570}\u{636E}\u{96C6}");
    let k3 = str_chars("\u{81F4}\u{8C22}");
    let k4 = str_chars("\u{9644}\u{5F55}");
    let k5 = str_chars("Acknowledgements");
    contains(&tc, &k1) || contains(&tc, &k2) || contains(&tc, &k3) || contains(&tc, &k4)
        || contains(&tc, &k5)
}

} // verus!
