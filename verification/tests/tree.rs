//! Outline reconstruction: the flat section list folded into a nested tree.

use parser_rs::layout::{SectionItem, SectionNode};
use parser_rs::layout_modeler::LayoutModeler;
use parser_rs::{DocumentSection, ElementType};

fn sec(id: i32, et: ElementType, text: &str) -> DocumentSection {
    DocumentSection {
        id,
        element_type: et,
        raw_text: text.to_string(),
        formatting: Vec::new(),
        xml_path: format!("document.xml#sec_{}", id),
    }
}

fn titles(node: &SectionNode) -> Vec<String> {
    node.children
        .iter()
        .filter_map(|c| match c {
            SectionItem::Subsection(n) => Some(n.title.clone()),
            SectionItem::Content(_) => None,
        })
        .collect()
}

#[test]
fn two_headings_with_a_paragraph_between() {
    // [Heading(1) "A", Paragraph "p1", Heading(1) "B"] builds a tree whose
    // root has the two heading children A and B; A holds the one content
    // child "p1"; B holds nothing
    let elements = vec![
        sec(1, ElementType::Heading(1), "A"),
        sec(2, ElementType::Paragraph, "p1"),
        sec(3, ElementType::Heading(1), "B"),
    ];
    let tree = LayoutModeler::build_tree(elements);
    assert_eq!(tree.root.level, 0);
    assert_eq!(tree.root.title, "Root");
    assert_eq!(tree.root.children.len(), 2);
    assert_eq!(titles(&tree.root), vec!["A".to_string(), "B".to_string()]);
    match &tree.root.children[0] {
        SectionItem::Subsection(a) => {
            assert_eq!(a.children.len(), 1);
            match &a.children[0] {
                SectionItem::Content(c) => assert_eq!(c.raw_text, "p1"),
                _ => panic!("expected a content leaf under A"),
            }
        }
        _ => panic!("expected subsection A"),
    }
    match &tree.root.children[1] {
        SectionItem::Subsection(b) => assert_eq!(b.children.len(), 0),
        _ => panic!("expected subsection B"),
    }
    assert_eq!(tree.metadata.total_elements, 3);
    assert_eq!(tree.metadata.heading_count, 2);
    assert_eq!(tree.metadata.table_count, 0);
}

#[test]
fn heading_attaches_to_nearest_ancestor_below_its_level() {
    // H1 at level 2, then H2 at level 1: H2 closes H1 and becomes a child
    // of the root, not of H1
    let elements = vec![
        sec(1, ElementType::Heading(2), "H1"),
        sec(2, ElementType::Heading(1), "H2"),
    ];
    let tree = LayoutModeler::build_tree(elements);
    assert_eq!(titles(&tree.root), vec!["H1".to_string(), "H2".to_string()]);
}

#[test]
fn one_heading_closes_several_levels_at_once() {
    // levels 1, 2, 3 nest; a following level-2 heading closes both the
    // level-3 and the level-2 section in one step
    let elements = vec![
        sec(1, ElementType::Heading(1), "a"),
        sec(2, ElementType::Heading(2), "b"),
        sec(3, ElementType::Heading(3), "c"),
        sec(4, ElementType::Heading(2), "d"),
    ];
    let tree = LayoutModeler::build_tree(elements);
    assert_eq!(titles(&tree.root), vec!["a".to_string()]);
    match &tree.root.children[0] {
        SectionItem::Subsection(a) => {
            assert_eq!(titles(a), vec!["b".to_string(), "d".to_string()]);
            match &a.children[0] {
                SectionItem::Subsection(b) => {
                    assert_eq!(titles(b), vec!["c".to_string()]);
                }
                _ => panic!("expected subsection b"),
            }
        }
        _ => panic!("expected subsection a"),
    }
}

#[test]
fn content_goes_under_the_open_top() {
    let elements = vec![
        sec(1, ElementType::Paragraph, "before"),
        sec(2, ElementType::Heading(1), "h"),
        sec(3, ElementType::Table, "t"),
        sec(4, ElementType::Equation, "e"),
    ];
    let tree = LayoutModeler::build_tree(elements);
    // the leading paragraph lands under the root
    match &tree.root.children[0] {
        SectionItem::Content(c) => assert_eq!(c.raw_text, "before"),
        _ => panic!("expected root-level content"),
    }
    match &tree.root.children[1] {
        SectionItem::Subsection(h) => {
            assert_eq!(h.children.len(), 2);
        }
        _ => panic!("expected the heading subsection"),
    }
    assert_eq!(tree.metadata.total_elements, 4);
    assert_eq!(tree.metadata.heading_count, 1);
    assert_eq!(tree.metadata.table_count, 1);
}
