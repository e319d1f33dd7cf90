//! Ingestion: archives in, ordered section lists out.

use std::io::Write;

use parser_rs::docx_parser::DocxParser;
use parser_rs::errors::ErrorKind;
use parser_rs::parser::UniversalParser;
use parser_rs::ElementType;

const W: &str = "http://schemas.openxmlformats.org/wordprocessingml/2006/main";

fn make_archive(parts: &[(&str, &str)]) -> Vec<u8> {
    let cursor = std::io::Cursor::new(Vec::new());
    let mut w = zip::ZipWriter::new(cursor);
    for (name, data) in parts {
        w.start_file(*name, zip::write::SimpleFileOptions::default())
            .unwrap();
        w.write_all(data.as_bytes()).unwrap();
    }
    w.finish().unwrap().into_inner()
}

fn make_docx(document_xml: &str, styles_xml: Option<&str>) -> Vec<u8> {
    let mut parts: Vec<(&str, &str)> = vec![("word/document.xml", document_xml)];
    if let Some(s) = styles_xml {
        parts.push(("word/styles.xml", s));
    }
    make_archive(&parts)
}

fn doc_xml(body: &str) -> String {
    format!(
        "<?xml version=\"1.0\" encoding=\"UTF-8\" standalone=\"yes\"?>\n<w:document xmlns:w=\"{}\"><w:body>{}</w:body></w:document>",
        W, body
    )
}

fn para(text: &str) -> String {
    format!("<w:p><w:r><w:t>{}</w:t></w:r></w:p>", text)
}

fn get(s: &parser_rs::DocumentSection, key: &str) -> String {
    s.get_formatting(key).expect(key).clone()
}

#[test]
fn blank_nodes_yield_no_sections_and_ids_count_up() {
    // the section count equals the count of non-blank content nodes, and
    // ids are consecutive from one in traversal order
    let xml = doc_xml(&format!(
        "{}{}{}{}",
        para("first"),
        para("   "),
        para(""),
        para("second")
    ));
    let bytes = make_docx(&xml, None);
    let parser = DocxParser::new();
    let secs = parser.parse_bytes("t.docx", &bytes).unwrap();
    assert_eq!(secs.len(), 2);
    assert_eq!(secs[0].id, 1);
    assert_eq!(secs[1].id, 2);
    assert_eq!(secs[0].raw_text, "first");
    assert_eq!(secs[1].raw_text, "second");
}

#[test]
fn outline_level_makes_heading_level_plus_one() {
    // a node with outline level 1 and text "Chapter One" becomes a
    // Heading(2) section with that text
    let body = format!(
        "<w:p><w:pPr><w:outlineLvl w:val=\"1\"/></w:pPr><w:r><w:t>Chapter One</w:t></w:r></w:p>"
    );
    let bytes = make_docx(&doc_xml(&body), None);
    let secs = DocxParser::new().parse_bytes("t.docx", &bytes).unwrap();
    assert_eq!(secs.len(), 1);
    assert_eq!(secs[0].element_type, ElementType::Heading(2));
    assert_eq!(secs[0].raw_text, "Chapter One");
}

#[test]
fn spacing_threshold_splits_multiplier_and_absolute() {
    // spacing 360 renders as the multiplier "1.5"; 1200 crosses the
    // threshold and renders as the absolute "60pt"
    let body = format!(
        "<w:p><w:pPr><w:spacing w:line=\"360\"/></w:pPr><w:r><w:t>a</w:t></w:r></w:p><w:p><w:pPr><w:spacing w:line=\"1200\"/></w:pPr><w:r><w:t>b</w:t></w:r></w:p>"
    );
    let bytes = make_docx(&doc_xml(&body), None);
    let secs = DocxParser::new().parse_bytes("t.docx", &bytes).unwrap();
    assert_eq!(get(&secs[0], "line-spacing"), "1.5");
    assert_eq!(get(&secs[1], "line-spacing"), "60pt");
}

#[test]
fn default_formatting_applies_when_nothing_is_set() {
    let bytes = make_docx(&doc_xml(&para("plain")), None);
    let secs = DocxParser::new().parse_bytes("t.docx", &bytes).unwrap();
    assert_eq!(get(&secs[0], "font-size"), "12pt");
    assert_eq!(get(&secs[0], "font-family"), "Times New Roman");
    assert_eq!(get(&secs[0], "line-spacing"), "1.15");
    assert_eq!(secs[0].element_type, ElementType::Paragraph);
}

#[test]
fn direct_run_size_wins_over_style_chain() {
    // a directly-set run property wins over the style-chain value
    let styles = format!(
        "<?xml version=\"1.0\"?><w:styles xmlns:w=\"{}\"><w:style w:styleId=\"Normal\"><w:rPr><w:sz w:val=\"28\"/></w:rPr></w:style></w:styles>",
        W
    );
    let body = "<w:p><w:r><w:rPr><w:sz w:val=\"21\"/></w:rPr><w:t>x</w:t></w:r></w:p>";
    let bytes = make_docx(&doc_xml(body), Some(&styles));
    let secs = DocxParser::new().parse_bytes("t.docx", &bytes).unwrap();
    assert_eq!(get(&secs[0], "font-size"), "10.5pt");
}

#[test]
fn style_chain_wins_over_built_in_default() {
    // the style-chain value wins over the built-in default
    let styles = format!(
        "<?xml version=\"1.0\"?><w:styles xmlns:w=\"{}\"><w:style w:styleId=\"Normal\"><w:rPr><w:sz w:val=\"28\"/><w:rFonts w:ascii=\"Arial\"/></w:rPr></w:style></w:styles>",
        W
    );
    let bytes = make_docx(&doc_xml(&para("x")), Some(&styles));
    let secs = DocxParser::new().parse_bytes("t.docx", &bytes).unwrap();
    assert_eq!(get(&secs[0], "font-size"), "14pt");
    assert_eq!(get(&secs[0], "font-family"), "Arial");
}

#[test]
fn inheritance_fills_unset_from_nearest_ancestor() {
    // Derived sets nothing, Mid sets 22, Base sets 30: the nearest ancestor
    // that defines the property wins
    let styles = format!(
        "<?xml version=\"1.0\"?><w:styles xmlns:w=\"{}\">\
         <w:style w:styleId=\"Base\"><w:rPr><w:sz w:val=\"30\"/><w:rFonts w:ascii=\"Georgia\"/></w:rPr></w:style>\
         <w:style w:styleId=\"Mid\"><w:basedOn w:val=\"Base\"/><w:rPr><w:sz w:val=\"22\"/></w:rPr></w:style>\
         <w:style w:styleId=\"Derived\"><w:basedOn w:val=\"Mid\"/></w:style>\
         </w:styles>",
        W
    );
    let body = "<w:p><w:pPr><w:pStyle w:val=\"Derived\"/></w:pPr><w:r><w:t>x</w:t></w:r></w:p>";
    let bytes = make_docx(&doc_xml(body), Some(&styles));
    let secs = DocxParser::new().parse_bytes("t.docx", &bytes).unwrap();
    assert_eq!(get(&secs[0], "font-size"), "11pt");
    assert_eq!(get(&secs[0], "font-family"), "Georgia");
}

#[test]
fn cyclic_style_chain_terminates_and_yields_a_result() {
    // a chain that cycles terminates and still yields what accumulated
    let styles = format!(
        "<?xml version=\"1.0\"?><w:styles xmlns:w=\"{}\">\
         <w:style w:styleId=\"A\"><w:basedOn w:val=\"B\"/><w:rPr><w:sz w:val=\"26\"/></w:rPr></w:style>\
         <w:style w:styleId=\"B\"><w:basedOn w:val=\"A\"/><w:rFonts/><w:rPr><w:rFonts w:ascii=\"Courier\"/></w:rPr></w:style>\
         </w:styles>",
        W
    );
    let body = "<w:p><w:pPr><w:pStyle w:val=\"A\"/></w:pPr><w:r><w:t>x</w:t></w:r></w:p>";
    let bytes = make_docx(&doc_xml(body), Some(&styles));
    let secs = DocxParser::new().parse_bytes("t.docx", &bytes).unwrap();
    assert_eq!(get(&secs[0], "font-size"), "13pt");
    assert_eq!(get(&secs[0], "font-family"), "Courier");
}

#[test]
fn resolve_style_direct_calls_are_repeatable() {
    // resolving the same id twice yields identical results
    let styles = format!(
        "<?xml version=\"1.0\"?><w:styles xmlns:w=\"{}\">\
         <w:style w:styleId=\"A\"><w:basedOn w:val=\"A\"/><w:rPr><w:sz w:val=\"26\"/></w:rPr></w:style>\
         </w:styles>",
        W
    );
    let bytes = make_docx(&doc_xml(&para("x")), Some(&styles));
    let entries_ok = DocxParser::new().parse_bytes("t.docx", &bytes).is_ok();
    assert!(entries_ok);
    // and directly over the catalog, with a self-referential chain
    let root = parser_rs::xml_read::parse_xml(&styles).unwrap();
    let cat = parser_rs::styles::parse_styles_root(&root);
    let a = cat.resolve_style("A").expect("known id resolves");
    let b = cat.resolve_style("A").expect("known id resolves");
    assert_eq!(a.run_props.sz, Some(26));
    assert_eq!(b.run_props.sz, Some(26));
    assert_eq!(a.style_id, b.style_id);
    assert!(cat.resolve_style("missing").is_none());
}

#[test]
fn heading_by_style_name_and_trailing_digit() {
    let body = "<w:p><w:pPr><w:pStyle w:val=\"Heading3\"/></w:pPr><w:r><w:t>h</w:t></w:r></w:p>";
    let bytes = make_docx(&doc_xml(body), None);
    let secs = DocxParser::new().parse_bytes("t.docx", &bytes).unwrap();
    assert_eq!(secs[0].element_type, ElementType::Heading(3));
}

#[test]
fn table_text_comes_row_then_cell() {
    let body = "<w:tbl><w:tr><w:tc><w:p><w:r><w:t>a1</w:t></w:r></w:p></w:tc><w:tc><w:p><w:r><w:t>b1</w:t></w:r></w:p></w:tc></w:tr><w:tr><w:tc><w:p><w:r><w:t>a2</w:t></w:r></w:p></w:tc></w:tr></w:tbl>";
    let bytes = make_docx(&doc_xml(body), None);
    let secs = DocxParser::new().parse_bytes("t.docx", &bytes).unwrap();
    assert_eq!(secs[0].element_type, ElementType::Table);
    assert_eq!(secs[0].raw_text, "a1\nb1\na2");
    assert_eq!(get(&secs[0], "font-size"), "12pt");
}

#[test]
fn math_marker_classifies_equation() {
    let bytes = make_docx(&doc_xml(&para("contains Math here")), None);
    let secs = DocxParser::new().parse_bytes("t.docx", &bytes).unwrap();
    assert_eq!(secs[0].element_type, ElementType::Equation);
}

#[test]
fn malformed_container_is_rejected() {
    let parser = DocxParser::new();
    let e = parser
        .parse_bytes("t.docx", &b"this is not an archive".to_vec())
        .unwrap_err();
    assert_eq!(e.kind, ErrorKind::MalformedArchive);
    assert_eq!(e.path, "t.docx");
}

#[test]
fn missing_main_part_is_fatal() {
    let bytes = make_archive(&[("word/other.xml", "<x/>")]);
    let e = DocxParser::new().parse_bytes("t.docx", &bytes).unwrap_err();
    assert_eq!(e.kind, ErrorKind::MissingRequiredPart);
}

#[test]
fn malformed_main_part_is_fatal() {
    let bytes = make_docx("<w:document unclosed", None);
    let e = DocxParser::new().parse_bytes("t.docx", &bytes).unwrap_err();
    assert_eq!(e.kind, ErrorKind::MalformedXml);
}

#[test]
fn bad_style_part_degrades_to_empty_catalog() {
    let bytes = make_docx(&doc_xml(&para("x")), Some("not xml at all"));
    let secs = DocxParser::new().parse_bytes("t.docx", &bytes).unwrap();
    assert_eq!(secs.len(), 1);
    assert_eq!(get(&secs[0], "font-size"), "12pt");
}

#[test]
fn universal_parser_dispatches_and_rejects() {
    let up = UniversalParser::new();
    let bytes = make_docx(&doc_xml(&para("x")), None);
    let tree = up.parse("REPORT.DOCX", &bytes).unwrap();
    assert_eq!(tree.sections.len(), 1);
    assert_eq!(tree.metadata.file_path, "REPORT.DOCX");
    assert_eq!(tree.metadata.file_size, bytes.len() as u64);
    let e = up.parse("notes.txt", &bytes).unwrap_err();
    assert_eq!(e.kind, ErrorKind::UnsupportedFormat);
    // the page-oriented branch rejects bytes that are no such document
    let e2 = up.parse("essay.pdf", &b"junk".to_vec()).unwrap_err();
    assert_eq!(e2.kind, ErrorKind::MalformedArchive);
}

#[test]
fn first_run_with_a_property_wins() {
    // run properties come from the first run that carries them
    let body = "<w:p><w:r><w:t>lead</w:t></w:r><w:r><w:rPr><w:sz w:val=\"20\"/></w:rPr><w:t>x</w:t></w:r><w:r><w:rPr><w:sz w:val=\"40\"/><w:rFonts w:ascii=\"Arial\"/></w:rPr><w:t>y</w:t></w:r></w:p>";
    let bytes = make_docx(&doc_xml(body), None);
    let secs = DocxParser::new().parse_bytes("t.docx", &bytes).unwrap();
    assert_eq!(get(&secs[0], "font-size"), "10pt");
    assert_eq!(get(&secs[0], "font-family"), "Arial");
}

#[test]
fn first_line_indent_is_reported_in_points() {
    let body = "<w:p><w:pPr><w:ind w:firstLine=\"480\"/></w:pPr><w:r><w:t>x</w:t></w:r></w:p>";
    let bytes = make_docx(&doc_xml(body), None);
    let secs = DocxParser::new().parse_bytes("t.docx", &bytes).unwrap();
    assert_eq!(get(&secs[0], "first-line-indent"), "24pt");
}

#[test]
fn line_breaks_are_stripped_from_text() {
    let body = "<w:p><w:r><w:t>ab\ncd\ref</w:t></w:r></w:p>";
    let bytes = make_docx(&doc_xml(body), None);
    let secs = DocxParser::new().parse_bytes("t.docx", &bytes).unwrap();
    assert_eq!(secs[0].raw_text, "abcdef");
}
