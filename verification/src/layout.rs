//! The outline tree: nested section nodes with content leaves, and the
//! aggregate counters gathered while building it.

use vstd::prelude::*;

use crate::{DocumentSection, SecV};

verus! {

/// Aggregate counters over the flat section list.
#[derive(Debug, PartialEq, Eq, Structural, Clone, Copy)]
pub struct DocumentMetadata {
    pub total_elements: usize,
    pub heading_count: usize,
    pub table_count: usize,
}

/// One node of the outline: a heading (or the synthetic root at level 0)
/// with its ordered children.
#[derive(Debug)]
pub struct SectionNode {
    pub id: i32,
    pub title: String,
    pub level: u8,
    pub xml_path: String,
    pub children: Vec<SectionItem>,
}

/// A child of an outline node: a nested subsection or a content leaf.
#[derive(Debug)]
pub enum SectionItem {
    Subsection(SectionNode),
    Content(DocumentSection),
}

/// The terminal ingestion artifact: the outline tree and its counters.
#[derive(Debug)]
pub struct DocumentTree {
    pub root: SectionNode,
    pub metadata: DocumentMetadata,
}

// ---------------------------------------------------------------------------
// Views.
// ---------------------------------------------------------------------------

#[verifier::ext_equal]
pub struct NodeTV {
    pub id: int,
    pub title: Seq<char>,
    pub level: int,
    pub xml_path: Seq<char>,
    pub children: Seq<ItemV>,
}

#[verifier::ext_equal]
pub enum ItemV {
    Subsection(NodeTV),
    Content(SecV),
}

pub open spec fn item_view(t: SectionItem) -> ItemV
    decreases t,
{
    match t {
        SectionItem::Subsection(n) => ItemV::Subsection(node_view(n)),
        SectionItem::Content(s) => ItemV::Content(s@),
    }
}

pub open spec fn items_view(s: Seq<SectionItem>) -> Seq<ItemV>
    decreases s,
{
    if s.len() == 0 {
        Seq::empty()
    } else {
        seq![item_view(s[0])] + items_view(s.drop_first())
    }
}

pub open spec fn node_view(n: SectionNode) -> NodeTV
    decreases n,
{
    NodeTV {
        id: n.id as int,
        title: n.title@,
        level: n.level as int,
        xml_path: n.xml_path@,
        children: items_view(n.children@),
    }
}

impl View for SectionNode {
    type V = NodeTV;

    open spec fn view(&self) -> NodeTV {
        node_view(*self)
    }
}

pub proof fn lemma_items_view_push(s: Seq<SectionItem>, x: SectionItem)
    ensures
        items_view(s.push(x)) == items_view(s).push(item_view(x)),
    decreases s,
{
    if s.len() == 0 {
        assert(s.push(x).len() == 1);
        assert(s.push(x)[0] == x);
        assert(s.push(x).drop_first() =~= Seq::<SectionItem>::empty());
        assert(items_view(s.push(x)) == seq![item_view(x)] + items_view(
            Seq::<SectionItem>::empty(),
        ));
        assert(items_view(s) =~= Seq::<ItemV>::empty());
        assert(items_view(s.push(x)) =~= items_view(s).push(item_view(x)));
    } else {
        assert(s.push(x).drop_first() =~= s.drop_first().push(x));
        lemma_items_view_push(s.drop_first(), x);
        assert(items_view(s.push(x)) =~= items_view(s).push(item_view(x)));
    }
}

// ---------------------------------------------------------------------------
// The counters.
// ---------------------------------------------------------------------------

/// Number of headings in a section list.
pub open spec fn count_headings(secs: Seq<SecV>) -> int
    decreases secs.len(),
{
    if secs.len() == 0 {
        0int
    } else {
        (if secs[0].element_type is Heading {
            1int
        } else {
            0int
        }) + count_headings(secs.drop_first())
    }
}

/// Number of tables in a section list.
pub open spec fn count_tables(secs: Seq<SecV>) -> int
    decreases secs.len(),
{
    if secs.len() == 0 {
        0int
    } else {
        (if secs[0].element_type is Table {
            1int
        } else {
            0int
        }) + count_tables(secs.drop_first())
    }
}

} // verus!
