//! Unit-level checks: the flat tree, the sample rules, naming helpers, and
//! the page-oriented extractor.

use parser_rs::comment_writer::ErrorItem;
use parser_rs::document::{DocumentMetadata, DocumentTree};
use parser_rs::document_processor::DocumentProcessor;
use parser_rs::grpc::ParserService;
use parser_rs::oss_client::upload_to_oss;
use parser_rs::pdf_parser::{LopdfParser, PdfParser};
use parser_rs::protocol_formatter::{is_reference_section_end, Reference};
use parser_rs::{DocumentSection, ElementType};

fn sec(id: i32, et: ElementType, text: &str, fmt: Vec<(String, String)>) -> DocumentSection {
    DocumentSection {
        id,
        element_type: et,
        raw_text: text.to_string(),
        formatting: fmt,
        xml_path: format!("document.xml#sec_{}", id),
    }
}

fn flat_tree(sections: Vec<DocumentSection>) -> DocumentTree {
    DocumentTree {
        sections,
        metadata: DocumentMetadata {
            total_pages: 0,
            file_path: "t.docx".to_string(),
            file_size: 0,
            creation_date: None,
            modification_date: None,
        },
    }
}

#[test]
fn flat_tree_lookup_and_update() {
    let mut tree = flat_tree(vec![
        sec(1, ElementType::Paragraph, "one", Vec::new()),
        sec(2, ElementType::Paragraph, "two", Vec::new()),
    ]);
    assert_eq!(tree.get_section_by_id(2).unwrap().raw_text, "two");
    assert!(tree.get_section_by_id(9).is_none());
    tree.update_section(2, "changed".to_string());
    assert_eq!(tree.get_section_by_id(2).unwrap().raw_text, "changed");
    tree.update_section(9, "ignored".to_string());
    assert_eq!(tree.sections.len(), 2);
}

#[test]
fn sample_rules_flag_long_font_and_depth() {
    let long_text = vec!["word"; 101].join(" ");
    let tree = flat_tree(vec![
        sec(1, ElementType::Paragraph, &long_text, Vec::new()),
        sec(
            2,
            ElementType::Paragraph,
            "short",
            vec![("font-size".to_string(), "14pt".to_string())],
        ),
        sec(3, ElementType::Heading(7), "deep", Vec::new()),
        sec(
            4,
            ElementType::Paragraph,
            "fine",
            vec![("font-size".to_string(), "12".to_string())],
        ),
    ]);
    let processor = DocumentProcessor::new();
    let issues = processor.generate_sample_issues(&tree);
    assert_eq!(issues.len(), 3);
    assert_eq!(
        issues[0].message,
        "Section too long (101 words), consider breaking it into smaller parts"
    );
    assert_eq!(issues[0].section_id, 1);
    assert_eq!(
        issues[1].message,
        "Font size should be 12pt for body text, found: 14ptpt"
    );
    assert_eq!(issues[1].section_id, 2);
    assert_eq!(
        issues[2].message,
        "Heading level 7 is too deep, maximum allowed is 6"
    );
    assert_eq!(issues[2].section_id, 3);
}

#[test]
fn upload_url_is_built_from_bucket_and_file_name() {
    let url = upload_to_oss("/data/in/report.docx", "essays", "key", "secret").unwrap();
    assert_eq!(url, "https://essays.oss-cn-beijing.aliyuncs.com/report.docx");
    let e = upload_to_oss("/data/in/", "essays", "key", "secret").unwrap_err();
    assert_eq!(e.kind, parser_rs::errors::ErrorKind::IoFailure);
}

#[test]
fn reference_section_end_markers() {
    assert!(is_reference_section_end("Acknowledgements"));
    assert!(is_reference_section_end("\u{81F4}\u{8C22}"));
    assert!(!is_reference_section_end("References continue"));
    let r = Reference {
        ref_id: "[1]".to_string(),
        raw_text: "[1] some source".to_string(),
    };
    assert_eq!(r.ref_id, "[1]");
}

#[test]
fn health_check_replies_ok() {
    assert_eq!(ParserService.health_check(), "ok");
}

#[test]
fn error_item_keeps_its_fields() {
    let e = ErrorItem::new(4, "needs work".to_string());
    assert_eq!(e.paragraph_index, 4);
    assert_eq!(e.comment, "needs work");
}

#[test]
fn unreadable_page_document_is_rejected() {
    let p = LopdfParser;
    let e = p
        .parse_bytes("t.pdf", &b"not a page document".to_vec())
        .unwrap_err();
    assert_eq!(e.kind, parser_rs::errors::ErrorKind::MalformedArchive);
    assert_eq!(e.path, "t.pdf");
}

#[test]
fn page_text_maps_to_one_paragraph_per_non_blank_line() {
    // build a minimal one-page document in memory, then extract it
    let mut doc = lopdf::Document::with_version("1.5");
    let pages_id = doc.new_object_id();
    let mut font = lopdf::Dictionary::new();
    font.set("Type", lopdf::Object::Name(b"Font".to_vec()));
    font.set("Subtype", lopdf::Object::Name(b"Type1".to_vec()));
    font.set("BaseFont", lopdf::Object::Name(b"Helvetica".to_vec()));
    let font_id = doc.add_object(font);
    let mut fonts = lopdf::Dictionary::new();
    fonts.set("F1", lopdf::Object::Reference(font_id));
    let mut resources = lopdf::Dictionary::new();
    resources.set("Font", lopdf::Object::Dictionary(fonts));
    let resources_id = doc.add_object(lopdf::Object::Dictionary(resources));
    let content = lopdf::content::Content {
        operations: vec![
            lopdf::content::Operation::new("BT", vec![]),
            lopdf::content::Operation::new(
                "Tf",
                vec![lopdf::Object::Name(b"F1".to_vec()), 24.into()],
            ),
            lopdf::content::Operation::new("Td", vec![100.into(), 600.into()]),
            lopdf::content::Operation::new(
                "Tj",
                vec![lopdf::Object::string_literal("Hello pages")],
            ),
            lopdf::content::Operation::new("ET", vec![]),
        ],
    };
    let content_id = doc.add_object(lopdf::Object::Stream(lopdf::Stream::new(
        lopdf::Dictionary::new(),
        content.encode().unwrap(),
    )));
    let mut page = lopdf::Dictionary::new();
    page.set("Type", lopdf::Object::Name(b"Page".to_vec()));
    page.set("Parent", lopdf::Object::Reference(pages_id));
    page.set("Contents", lopdf::Object::Reference(content_id));
    let page_id = doc.add_object(page);
    let mut pages = lopdf::Dictionary::new();
    pages.set("Type", lopdf::Object::Name(b"Pages".to_vec()));
    pages.set(
        "Kids",
        lopdf::Object::Array(vec![lopdf::Object::Reference(page_id)]),
    );
    pages.set("Count", lopdf::Object::Integer(1));
    pages.set("Resources", lopdf::Object::Reference(resources_id));
    pages.set(
        "MediaBox",
        lopdf::Object::Array(vec![0.into(), 0.into(), 612.into(), 792.into()]),
    );
    doc.objects
        .insert(pages_id, lopdf::Object::Dictionary(pages));
    let mut catalog = lopdf::Dictionary::new();
    catalog.set("Type", lopdf::Object::Name(b"Catalog".to_vec()));
    catalog.set("Pages", lopdf::Object::Reference(pages_id));
    let catalog_id = doc.add_object(catalog);
    doc.trailer.set("Root", lopdf::Object::Reference(catalog_id));
    let mut bytes: Vec<u8> = Vec::new();
    doc.save_to(&mut bytes).unwrap();

    let p = LopdfParser;
    let tree = p.parse_bytes("t.pdf", &bytes).unwrap();
    assert_eq!(tree.metadata.total_pages, 1);
    assert_eq!(tree.metadata.file_path, "t.pdf");
    assert!(tree
        .sections
        .iter()
        .any(|s| s.raw_text.contains("Hello pages")));
    for (i, s) in tree.sections.iter().enumerate() {
        assert_eq!(s.id, (i + 1) as i32);
        assert_eq!(s.element_type, ElementType::Paragraph);
        assert_eq!(
            s.get_formatting("element-type").map(|v| v.as_str()),
            Some("pdf-text")
        );
        assert_eq!(s.xml_path, "page_1.txt");
    }
}
