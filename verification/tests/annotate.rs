//! The annotation writer: markers, comment entries, relationships, and the
//! round trip back through ingestion.

use std::io::{Read, Write};

use parser_rs::docx_parser::DocxParser;
use parser_rs::grpc::Issue;
use parser_rs::writer::{DocxWriter, Writer};

const W: &str = "http://schemas.openxmlformats.org/wordprocessingml/2006/main";

fn make_archive(parts: &[(&str, &str)]) -> Vec<u8> {
    let cursor = std::io::Cursor::new(Vec::new());
    let mut w = zip::ZipWriter::new(cursor);
    for (name, data) in parts {
        w.start_file(*name, zip::write::SimpleFileOptions::default())
            .unwrap();
        w.write_all(data.as_bytes()).unwrap();
    }
    w.finish().unwrap().into_inner()
}

fn doc_xml(body: &str) -> String {
    format!(
        "<?xml version=\"1.0\" encoding=\"UTF-8\" standalone=\"yes\"?>\n<w:document xmlns:w=\"{}\"><w:body>{}</w:body></w:document>",
        W, body
    )
}

fn read_part(bytes: &[u8], name: &str) -> Option<String> {
    let mut z = zip::ZipArchive::new(std::io::Cursor::new(bytes.to_vec())).unwrap();
    for i in 0..z.len() {
        let mut f = z.by_index(i).unwrap();
        if f.name() == name {
            let mut s = String::new();
            f.read_to_string(&mut s).unwrap();
            return Some(s);
        }
    }
    None
}

fn issue(id: i64, msg: &str, section: i32) -> Issue {
    Issue {
        id,
        message: msg.to_string(),
        section_id: section,
    }
}

#[test]
fn markers_and_comments_carry_the_same_fresh_ids() {
    // across N issues annotated in one call, exactly N distinct ids appear
    // as markers in the content part and the same N ids as comment entries
    let original = make_archive(&[(
        "word/document.xml",
        &doc_xml("<w:p><w:r><w:t>x</w:t></w:r></w:p>"),
    )]);
    let mut writer = DocxWriter::new();
    let issues = vec![issue(10, "first", 1), issue(11, "second", 1), issue(12, "third", 1)];
    let out = writer
        .write_annotations("t.docx", &original, &issues)
        .unwrap();
    assert_eq!(writer.next_comment_id, 4);

    let doc = read_part(&out, "word/document.xml").unwrap();
    let comments = read_part(&out, "word/comments.xml").unwrap();
    for id in 1..=3 {
        let marker = format!("<w:commentReference w:id=\"{}\"/>", id);
        assert_eq!(doc.matches(&marker).count(), 1, "marker {}", id);
        let entry = format!("<w:comment w:id=\"{}\"", id);
        assert_eq!(comments.matches(&entry).count(), 1, "entry {}", id);
    }
    assert_eq!(doc.matches("<w:commentReference").count(), 3);
    assert_eq!(comments.matches("<w:comment w:id=").count(), 3);
    // the batch sits immediately before the body's closing tag
    let pos = doc.rfind("</w:body>").unwrap();
    assert!(doc[..pos].ends_with("<w:commentReference w:id=\"3\"/>"));

    let rels = read_part(&out, "word/_rels/document.xml.rels").unwrap();
    assert!(rels.contains("Target=\"comments.xml\""));
}

#[test]
fn messages_are_escaped_in_the_comments_part() {
    let original = make_archive(&[(
        "word/document.xml",
        &doc_xml("<w:p><w:r><w:t>x</w:t></w:r></w:p>"),
    )]);
    let mut writer = DocxWriter::new();
    let issues = vec![issue(1, "a < b & c > d", 1)];
    let out = writer
        .write_annotations("t.docx", &original, &issues)
        .unwrap();
    let comments = read_part(&out, "word/comments.xml").unwrap();
    assert!(comments.contains("a &lt; b &amp; c &gt; d"));
    assert!(!comments.contains("a < b & c > d"));
    assert!(comments.contains("w:author=\"Auditor\""));
    // the clock-supplied timestamp is present in the entry
    assert!(comments.contains("w:date=\""));
}

#[test]
fn empty_issue_list_round_trips_to_identical_sections() {
    // annotating with an empty issue list produces an archive that ingests
    // to identical section content
    let styles = format!(
        "<?xml version=\"1.0\"?><w:styles xmlns:w=\"{}\"><w:style w:styleId=\"Normal\"><w:rPr><w:sz w:val=\"28\"/></w:rPr></w:style></w:styles>",
        W
    );
    let original = make_archive(&[
        (
            "word/document.xml",
            &doc_xml("<w:p><w:r><w:t>alpha</w:t></w:r></w:p><w:p><w:r><w:t>beta</w:t></w:r></w:p>"),
        ),
        ("word/styles.xml", &styles),
    ]);
    let before = DocxParser::new().parse_bytes("t.docx", &original).unwrap();
    let mut writer = DocxWriter::new();
    let out = writer
        .write_annotations("t.docx", &original, &Vec::new())
        .unwrap();
    let after = DocxParser::new().parse_bytes("t.docx", &out).unwrap();
    assert_eq!(before, after);
    assert_eq!(writer.next_comment_id, 1);
    // the output still gained a comments part and its relationship
    assert!(read_part(&out, "word/comments.xml").is_some());
    assert!(read_part(&out, "word/_rels/document.xml.rels").is_some());
}

#[test]
fn ids_stay_unique_across_calls() {
    // the counter is never reused, also across documents
    let original = make_archive(&[(
        "word/document.xml",
        &doc_xml("<w:p><w:r><w:t>x</w:t></w:r></w:p>"),
    )]);
    let mut writer = DocxWriter::new();
    let out1 = writer
        .write_annotations("a.docx", &original, &vec![issue(1, "m", 1), issue(2, "n", 1)])
        .unwrap();
    let out2 = writer
        .write_annotations("b.docx", &original, &vec![issue(3, "o", 1)])
        .unwrap();
    assert_eq!(writer.next_comment_id, 4);
    let doc1 = read_part(&out1, "word/document.xml").unwrap();
    let doc2 = read_part(&out2, "word/document.xml").unwrap();
    assert!(doc1.contains("w:id=\"1\"") && doc1.contains("w:id=\"2\""));
    assert!(doc2.contains("w:id=\"3\""));
    assert!(!doc2.contains("w:id=\"1\""));
}

#[test]
fn missing_document_part_is_a_skippable_no_op() {
    // other patches still run and output is still produced
    let original = make_archive(&[("word/other.xml", "<x/>")]);
    let mut writer = DocxWriter::new();
    let out = writer
        .write_annotations("t.docx", &original, &vec![issue(1, "m", 1)])
        .unwrap();
    assert!(read_part(&out, "word/document.xml").is_none());
    let comments = read_part(&out, "word/comments.xml").unwrap();
    assert!(comments.contains("<w:comment w:id=\"1\""));
    assert_eq!(read_part(&out, "word/other.xml").unwrap(), "<x/>");
}

#[test]
fn existing_comments_part_is_appended_to() {
    let skeleton = format!(
        "<?xml version=\"1.0\"?>\n<w:comments xmlns:w=\"{}\"><w:comment w:id=\"900\" w:author=\"me\"><w:p/></w:comment>\n</w:comments>",
        W
    );
    let original = make_archive(&[
        (
            "word/document.xml",
            &doc_xml("<w:p><w:r><w:t>x</w:t></w:r></w:p>"),
        ),
        ("word/comments.xml", &skeleton),
    ]);
    let mut writer = DocxWriter::new();
    let out = writer
        .write_annotations("t.docx", &original, &vec![issue(1, "fresh", 1)])
        .unwrap();
    let comments = read_part(&out, "word/comments.xml").unwrap();
    assert!(comments.contains("w:id=\"900\""));
    assert!(comments.contains("<w:comment w:id=\"1\""));
}

#[test]
fn relationship_patch_is_idempotent() {
    // a second run adds no duplicate relationship entry
    let original = make_archive(&[(
        "word/document.xml",
        &doc_xml("<w:p><w:r><w:t>x</w:t></w:r></w:p>"),
    )]);
    let mut writer = DocxWriter::new();
    let once = writer
        .write_annotations("t.docx", &original, &Vec::new())
        .unwrap();
    let twice = writer.write_annotations("t.docx", &once, &Vec::new()).unwrap();
    let rels = read_part(&twice, "word/_rels/document.xml.rels").unwrap();
    assert_eq!(rels.matches("Target=\"comments.xml\"").count(), 1);
}

#[test]
fn untouched_parts_stay_byte_identical() {
    let original = make_archive(&[
        (
            "word/document.xml",
            &doc_xml("<w:p><w:r><w:t>x</w:t></w:r></w:p>"),
        ),
        ("word/media/blob.bin", "\u{1}\u{2}raw bytes\u{3}"),
    ]);
    let mut writer = DocxWriter::new();
    let out = writer
        .write_annotations("t.docx", &original, &vec![issue(1, "m", 1)])
        .unwrap();
    assert_eq!(
        read_part(&out, "word/media/blob.bin").unwrap(),
        "\u{1}\u{2}raw bytes\u{3}"
    );
}

#[test]
fn malformed_archive_aborts_the_write() {
    let mut writer = DocxWriter::new();
    let e = writer
        .write_annotations("t.docx", &b"junk".to_vec(), &vec![issue(1, "m", 1)])
        .unwrap_err();
    assert_eq!(e.kind, parser_rs::errors::ErrorKind::MalformedArchive);
    // ids are still consumed, so none is ever reused
    assert_eq!(writer.next_comment_id, 2);
}

#[test]
fn entry_level_annotation_is_deterministic() {
    let entries = vec![parser_rs::archive::ArchiveEntry {
        name: "word/document.xml".to_string(),
        data: doc_xml("<w:p><w:r><w:t>x</w:t></w:r></w:p>").into_bytes(),
    }];
    let issues = vec![issue(7, "m", 1)];
    let a = DocxWriter::annotate_parts(&entries, &issues, 5, "Auditor", "2024-01-01T00:00:00Z")
        .unwrap();
    let b = DocxWriter::annotate_parts(&entries, &issues, 5, "Auditor", "2024-01-01T00:00:00Z")
        .unwrap();
    assert_eq!(a.len(), b.len());
    for (x, y) in a.iter().zip(b.iter()) {
        assert_eq!(x.name, y.name);
        assert_eq!(x.data, y.data);
    }
    let doc = String::from_utf8(a[0].data.clone()).unwrap();
    assert!(doc.contains("<w:commentReference w:id=\"5\"/>"));
}
