//! Paragraph and table extraction: classification of content nodes and the
//! merge of direct overrides, resolved style chain and built-in defaults
//! into final formatting.

use vstd::prelude::*;

use crate::styles::{
    resolve_spec, w_ns, StyleCatalog, StyleV,
};
use crate::textutil::{
    blank, chars_string, contains, contains_sub, dec_digits, dec_string, has_prefix, is_blank,
    is_digit, digit_of, parse_i32, parse_u32, parse_i32_spec, parse_u32_spec, remove_breaks,
    render_fraction, starts_with, str_chars, strip_breaks, u64_digits,
};
use crate::xml::{
    attr_value, first_child_named, has_child_named, text_of_elem, ElemV, NodeV, XmlElem, XmlNode,
};
use crate::{DocumentSection, ElementType, SecV};

verus! {

// ---------------------------------------------------------------------------
// Direct paragraph-level overrides.
// ---------------------------------------------------------------------------

/// What the node itself sets: first-line indent, raw spacing value, and the
/// zero-based outline level.
#[verifier::ext_equal]
pub struct DirectV {
    pub first_line: Option<i32>,
    pub line: Option<i32>,
    pub outline: Option<u32>,
}

pub open spec fn opt_parse_i32(v: Option<Seq<char>>) -> Option<i32> {
    match v {
        Some(s) => parse_i32_spec(s),
        None => None,
    }
}

pub open spec fn opt_parse_u32(v: Option<Seq<char>>) -> Option<u32> {
    match v {
        Some(s) => parse_u32_spec(s),
        None => None,
    }
}

pub open spec fn direct_step(acc: DirectV, n: NodeV) -> DirectV {
    match n {
        NodeV::Elem(c) => {
            if c.name == "ind"@ {
                match opt_parse_i32(attr_value(c, w_ns(), "firstLine"@)) {
                    Some(v) => DirectV { first_line: Some(v), ..acc },
                    None => acc,
                }
            } else if c.name == "spacing"@ {
                match opt_parse_i32(attr_value(c, w_ns(), "line"@)) {
                    Some(v) => DirectV { line: Some(v), ..acc },
                    None => acc,
                }
            } else if c.name == "outlineLvl"@ {
                match opt_parse_u32(attr_value(c, w_ns(), "val"@)) {
                    Some(v) => DirectV { outline: Some(v), ..acc },
                    None => acc,
                }
            } else {
                acc
            }
        },
        _ => acc,
    }
}

pub open spec fn direct_fold(cs: Seq<NodeV>, acc: DirectV) -> DirectV
    decreases cs.len(),
{
    if cs.len() == 0 {
        acc
    } else {
        direct_fold(cs.drop_first(), direct_step(acc, cs[0]))
    }
}

/// Direct overrides of a content node, read from its first `pPr` child.
pub open spec fn direct_of(e: ElemV) -> DirectV {
    match first_child_named(e, "pPr"@) {
        Some(ppr) => direct_fold(
            ppr.children,
            DirectV { first_line: None, line: None, outline: None },
        ),
        None => DirectV { first_line: None, line: None, outline: None },
    }
}

// ---------------------------------------------------------------------------
// First-found-wins run properties.
// ---------------------------------------------------------------------------

/// Font size carried by one run element, if any.
pub open spec fn run_sz(e: ElemV) -> Option<i32> {
    match first_child_named(e, "rPr"@) {
        Some(rpr) => match first_child_named(rpr, "sz"@) {
            Some(s) => opt_parse_i32(attr_value(s, w_ns(), "val"@)),
            None => None,
        },
        None => None,
    }
}

/// Font family carried by one run element: the ascii variant, else the
/// east-Asian one.
pub open spec fn run_family(e: ElemV) -> Option<Seq<char>> {
    match first_child_named(e, "rPr"@) {
        Some(rpr) => match first_child_named(rpr, "rFonts"@) {
            Some(f) => match attr_value(f, w_ns(), "ascii"@) {
                Some(a) => Some(a),
                None => attr_value(f, w_ns(), "eastAsia"@),
            },
            None => None,
        },
        None => None,
    }
}

/// The size set by the first run in document order that carries one.
pub open spec fn scan_sz_nodes(cs: Seq<NodeV>) -> Option<i32>
    decreases cs,
{
    if cs.len() == 0 {
        None
    } else {
        let h = match cs[0] {
            NodeV::Elem(e) => scan_sz_elem(e),
            _ => None,
        };
        if h is Some {
            h
        } else {
            scan_sz_nodes(cs.drop_first())
        }
    }
}

pub open spec fn scan_sz_elem(e: ElemV) -> Option<i32>
    decreases e,
{
    let own = if e.name == "r"@ {
        run_sz(e)
    } else {
        None
    };
    if own is Some {
        own
    } else {
        scan_sz_nodes(e.children)
    }
}

/// The family set by the first run in document order that carries one.
pub open spec fn scan_family_nodes(cs: Seq<NodeV>) -> Option<Seq<char>>
    decreases cs,
{
    if cs.len() == 0 {
        None
    } else {
        let h = match cs[0] {
            NodeV::Elem(e) => scan_family_elem(e),
            _ => None,
        };
        if h is Some {
            h
        } else {
            scan_family_nodes(cs.drop_first())
        }
    }
}

pub open spec fn scan_family_elem(e: ElemV) -> Option<Seq<char>>
    decreases e,
{
    let own = if e.name == "r"@ {
        run_family(e)
    } else {
        None
    };
    if own is Some {
        own
    } else {
        scan_family_nodes(e.children)
    }
}

// ---------------------------------------------------------------------------
// The style cascade: direct value, then style chain, then built-in default.
// ---------------------------------------------------------------------------

pub open spec fn style_sz(r: Option<StyleV>) -> Option<i32> {
    match r {
        Some(s) => s.rprops.sz,
        None => None,
    }
}

pub open spec fn style_family(r: Option<StyleV>) -> Option<Seq<char>> {
    match r {
        Some(s) => match s.rprops.rfonts {
            Some(f) => match f.ascii {
                Some(a) => Some(a),
                None => f.east_asia,
            },
            None => None,
        },
        None => None,
    }
}

pub open spec fn style_line(r: Option<StyleV>) -> Option<i32> {
    match r {
        Some(s) => match s.pprops.spacing {
            Some(sp) => sp.line,
            None => None,
        },
        None => None,
    }
}

pub open spec fn style_first_line(r: Option<StyleV>) -> Option<i32> {
    match r {
        Some(s) => match s.pprops.ind {
            Some(ind) => ind.first_line,
            None => None,
        },
        None => None,
    }
}

/// Half-point font size after the cascade: a direct run value wins, then
/// the style chain, then the built-in 12pt default.
pub open spec fn eff_sz(direct: Option<i32>, style: Option<i32>) -> i32 {
    match direct {
        Some(d) => d,
        None => match style {
            Some(s) => s,
            None => 24,
        },
    }
}

/// Font family after the cascade.
pub open spec fn eff_family(direct: Option<Seq<char>>, style: Option<Seq<char>>) -> Seq<char> {
    match direct {
        Some(d) => d,
        None => match style {
            Some(s) => s,
            None => "Times New Roman"@,
        },
    }
}

/// Raw spacing value after the cascade, if either layer sets one.
pub open spec fn eff_line(direct: Option<i32>, style: Option<i32>) -> Option<i32> {
    match direct {
        Some(d) => Some(d),
        None => style,
    }
}

/// First-line indent after the cascade, if either layer sets one.
pub open spec fn eff_first_line(direct: Option<i32>, style: Option<i32>) -> Option<i32> {
    match direct {
        Some(d) => Some(d),
        None => style,
    }
}

/// Rendering of a half-point size: "12pt", "10.5pt".
pub open spec fn font_size_str(sz: i32) -> Seq<char> {
    dec_string(sz as int, 2) + "pt"@
}

/// Rendering of a raw spacing value. At or above the load-bearing 1000
/// threshold the value is absolute points-times-20; below it, a multiplier
/// in 240ths.
pub open spec fn line_spacing_str(line: i32) -> Seq<char> {
    if line >= 1000 {
        dec_string(line as int, 20) + "pt"@
    } else {
        dec_string(line as int, 240)
    }
}

/// Rendering of a first-line indent in twentieths of a point.
pub open spec fn indent_str(v: i32) -> Seq<char> {
    dec_string(v as int, 20) + "pt"@
}

// ---------------------------------------------------------------------------
// Classification.
// ---------------------------------------------------------------------------

/// The heading naming convention: a style id starting with "Heading" or
/// holding the CJK word for "heading" (U+6807 U+9898).
pub open spec fn is_heading_id(id: Seq<char>) -> bool {
    starts_with(id, "Heading"@) || contains_sub(id, "\u{6807}\u{9898}"@)
}

/// Final heading level: outline level plus one when present, else a digit
/// trailing the style id, else one; clamped to eight bits.
pub open spec fn heading_level(outline: Option<u32>, id: Seq<char>) -> int {
    match outline {
        Some(l) => if l + 1 <= 255 {
            l + 1
        } else {
            255
        },
        None => if id.len() > 0 && is_digit(id.last()) {
            digit_of(id.last())
        } else {
            1
        },
    }
}

/// The style id of a content node, from its paragraph properties, with the
/// canonical "Normal" fallback.
pub open spec fn para_style_id(e: ElemV) -> Seq<char> {
    match first_child_named(e, "pPr"@) {
        Some(ppr) => match first_child_named(ppr, "pStyle"@) {
            Some(ps) => match attr_value(ps, w_ns(), "val"@) {
                Some(v) => v,
                None => "Normal"@,
            },
            None => "Normal"@,
        },
        None => "Normal"@,
    }
}

/// Classification of a paragraph-like node.
pub open spec fn classify(e: ElemV, raw: Seq<char>, style_id: Seq<char>, outline: Option<u32>) -> ElementType {
    if outline is Some || is_heading_id(style_id) {
        ElementType::Heading(heading_level(outline, style_id) as u8)
    } else if has_child_named(e, "tbl"@) {
        ElementType::Table
    } else if contains_sub(raw, "OMML"@) || contains_sub(raw, "Math"@) || contains_sub(
        raw,
        "math"@,
    ) {
        ElementType::Equation
    } else {
        ElementType::Paragraph
    }
}

/// The opaque locator of the section with the given id.
pub open spec fn locator(id: int) -> Seq<char> {
    "document.xml#sec_"@ + dec_digits(id)
}

/// Final formatting map, in insertion order.
pub open spec fn para_formatting(
    sz_str: Seq<char>,
    ls_str: Seq<char>,
    fam: Seq<char>,
    ind: Option<Seq<char>>,
) -> Seq<(Seq<char>, Seq<char>)> {
    let base = seq![
        ("font-size"@, sz_str),
        ("line-spacing"@, ls_str),
        ("font-family"@, fam),
    ];
    match ind {
        Some(v) => base.push(("first-line-indent"@, v)),
        None => base,
    }
}

/// The section extracted from one paragraph-like content node, or nothing
/// when its trimmed text is empty.
pub open spec fn paragraph_section(cat: Seq<StyleV>, e: ElemV, id: int) -> Option<SecV> {
    let raw = strip_breaks(text_of_elem(e));
    if is_blank(raw) {
        None
    } else {
        let style_id = para_style_id(e);
        let direct = direct_of(e);
        let resolved = resolve_spec(cat, style_id);
        let sz = eff_sz(scan_sz_elem(e), style_sz(resolved));
        let fam = eff_family(scan_family_elem(e), style_family(resolved));
        let ls = match eff_line(direct.line, style_line(resolved)) {
            Some(l) => line_spacing_str(l),
            None => "1.15"@,
        };
        let ind = match eff_first_line(direct.first_line, style_first_line(resolved)) {
            Some(f) => Some(indent_str(f)),
            None => None,
        };
        Some(
            SecV {
                id: id,
                element_type: classify(e, raw, style_id, direct.outline),
                raw_text: raw,
                formatting: para_formatting(font_size_str(sz), ls, fam, ind),
                xml_path: locator(id),
            },
        )
    }
}

// ---------------------------------------------------------------------------
// Stated law of the cascade: a directly-set run property always wins over
// the style-chain value, which always wins over the built-in default.
// ---------------------------------------------------------------------------

/// A direct font size always wins; an unset one is filled by the style
/// chain; the built-in default (24 half-points) enters only when both are
/// silent. The family and spacing cascades behave the same way.
pub proof fn lemma_cascade_order(direct: Option<i32>, style: Option<i32>)
    ensures
        direct is Some ==> eff_sz(direct, style) == direct->0,
        direct is None && style is Some ==> eff_sz(direct, style) == style->0,
        direct is None && style is None ==> eff_sz(direct, style) == 24,
        direct is Some ==> eff_line(direct, style) == direct,
        direct is None ==> eff_line(direct, style) == style,
{
}

/// The same order for the font family.
pub proof fn lemma_cascade_order_family(direct: Option<Seq<char>>, style: Option<Seq<char>>)
    ensures
        direct is Some ==> eff_family(direct, style) == direct->0,
        direct is None && style is Some ==> eff_family(direct, style) == style->0,
        direct is None && style is None ==> eff_family(direct, style) == "Times New Roman"@,
{
}

} // verus!

verus! {

// ---------------------------------------------------------------------------
// Table text: cell paragraphs in row-then-cell order.
// ---------------------------------------------------------------------------

/// Non-empty texts of the `p` children of one cell.
pub open spec fn paras_texts(cs: Seq<NodeV>) -> Seq<Seq<char>>
    decreases cs.len(),
{
    if cs.len() == 0 {
        Seq::empty()
    } else {
        (match cs[0] {
            NodeV::Elem(e) => if e.name == "p"@ {
                if strip_breaks(text_of_elem(e)).len() > 0 {
                    seq![strip_breaks(text_of_elem(e))]
                } else {
                    Seq::empty()
                }
            } else {
                Seq::empty()
            },
            _ => Seq::empty(),
        }) + paras_texts(cs.drop_first())
    }
}

/// Texts of all cells (`tc`) of one row, in cell order.
pub open spec fn cells_texts(cs: Seq<NodeV>) -> Seq<Seq<char>>
    decreases cs.len(),
{
    if cs.len() == 0 {
        Seq::empty()
    } else {
        (match cs[0] {
            NodeV::Elem(e) => if e.name == "tc"@ {
                paras_texts(e.children)
            } else {
                Seq::empty()
            },
            _ => Seq::empty(),
        }) + cells_texts(cs.drop_first())
    }
}

/// Texts of all rows (`tr`) of a table, in row order.
pub open spec fn rows_texts(cs: Seq<NodeV>) -> Seq<Seq<char>>
    decreases cs.len(),
{
    if cs.len() == 0 {
        Seq::empty()
    } else {
        (match cs[0] {
            NodeV::Elem(e) => if e.name == "tr"@ {
                cells_texts(e.children)
            } else {
                Seq::empty()
            },
            _ => Seq::empty(),
        }) + rows_texts(cs.drop_first())
    }
}

/// The pieces joined by single line breaks.
pub open spec fn join_nl(ts: Seq<Seq<char>>) -> Seq<char>
    decreases ts.len(),
{
    if ts.len() == 0 {
        Seq::empty()
    } else if ts.len() == 1 {
        ts[0]
    } else {
        ts[0] + seq!['\n'] + join_nl(ts.drop_first())
    }
}

proof fn lemma_join_push(ts: Seq<Seq<char>>, t: Seq<char>)
    ensures
        join_nl(ts.push(t)) == if ts.len() == 0 {
            t
        } else {
            join_nl(ts) + seq!['\n'] + t
        },
    decreases ts.len(),
{
    if ts.len() == 0 {
        assert(ts.push(t).len() == 1);
        assert(ts.push(t)[0] == t);
    } else if ts.len() == 1 {
        assert(ts.push(t)[0] == ts[0]);
        assert(ts.push(t).drop_first() =~= seq![t]);
        assert(join_nl(ts.push(t)) == ts[0] + seq!['\n'] + join_nl(seq![t]));
        assert(join_nl(seq![t]) == t);
    } else {
        assert(ts.push(t)[0] == ts[0]);
        assert(ts.push(t).drop_first() =~= ts.drop_first().push(t));
        lemma_join_push(ts.drop_first(), t);
        assert(join_nl(ts) + seq!['\n'] + t =~= ts[0] + seq!['\n'] + (join_nl(ts.drop_first())
            + seq!['\n'] + t));
    }
}

/// The section extracted from a table node: cell paragraph texts in
/// row-then-cell order joined by line breaks, always classified Table;
/// nothing when that text is blank.
pub open spec fn table_section(e: ElemV, id: int) -> Option<SecV> {
    let text = join_nl(rows_texts(e.children));
    if is_blank(text) {
        None
    } else {
        Some(
            SecV {
                id: id,
                element_type: ElementType::Table,
                raw_text: text,
                formatting: seq![("font-size"@, "12pt"@)],
                xml_path: locator(id),
            },
        )
    }
}

// ---------------------------------------------------------------------------
// The walk over content nodes, in document order.
// ---------------------------------------------------------------------------

/// What one element contributes: a section when it is a non-blank `p` or
/// `tbl` node and the section count still fits the id type.
pub open spec fn emit_for_elem(cat: Seq<StyleV>, e: ElemV, secs: Seq<SecV>) -> Seq<SecV> {
    if e.name == "p"@ && secs.len() < 0x7fff_ffff {
        match paragraph_section(cat, e, secs.len() as int + 1) {
            Some(s) => secs.push(s),
            None => secs,
        }
    } else if e.name == "tbl"@ && secs.len() < 0x7fff_ffff {
        match table_section(e, secs.len() as int + 1) {
            Some(s) => secs.push(s),
            None => secs,
        }
    } else {
        secs
    }
}

/// Walk an element: emit for it, then walk its children in order.
pub open spec fn walk_elem_s(cat: Seq<StyleV>, e: ElemV, secs: Seq<SecV>) -> Seq<SecV>
    decreases e,
{
    walk_nodes_s(cat, e.children, emit_for_elem(cat, e, secs))
}

pub open spec fn walk_nodes_s(cat: Seq<StyleV>, cs: Seq<NodeV>, secs: Seq<SecV>) -> Seq<SecV>
    decreases cs,
{
    if cs.len() == 0 {
        secs
    } else {
        walk_nodes_s(
            cat,
            cs.drop_first(),
            match cs[0] {
                NodeV::Elem(e) => walk_elem_s(cat, e, secs),
                _ => secs,
            },
        )
    }
}

/// All sections of a document, in document order with ids from one.
pub open spec fn extract_all(cat: Seq<StyleV>, root: ElemV) -> Seq<SecV> {
    walk_nodes_s(cat, root.children, Seq::empty())
}

} // verus!

verus! {

// ---------------------------------------------------------------------------
// Executable extraction.
// ---------------------------------------------------------------------------

/// Direct overrides of a content node.
fn parse_direct(e: &XmlElem) -> (r: (Option<i32>, Option<i32>, Option<u32>))
    ensures
        (DirectV { first_line: r.0, line: r.1, outline: r.2 }) == direct_of(e@),
{
    let mut first_line: Option<i32> = None;
    let mut line: Option<i32> = None;
    let mut outline: Option<u32> = None;
    match e.find_child("pPr") {
        None => {},
        Some(ppr) => {
            let n = ppr.child_count();
            let ghost cs = ppr@.children;
            proof {
                assert(cs.skip(0) == cs);
            }
            let mut i: usize = 0;
            while i < n
                invariant
                    0 <= i <= n,
                    n == ppr@.children.len(),
                    cs == ppr@.children,
                    direct_fold(cs, DirectV { first_line: None, line: None, outline: None })
                        == direct_fold(
                        cs.skip(i as int),
                        DirectV { first_line, line, outline },
                    ),
                decreases n - i,
            {
                proof {
                    assert(cs.skip(i as int)[0] == cs[i as int]);
                    assert(cs.skip(i as int).drop_first() =~= cs.skip(i + 1));
                }
                match ppr.child_at(i) {
                    XmlNode::Elem(c) => {
                        if c.named("ind") {
                            match c.attr("http://schemas.openxmlformats.org/wordprocessingml/2006/main", "firstLine") {
                                Some(v) => {
                                    let cv = str_chars(v.as_str());
                                    match parse_i32(&cv) {
                                        Some(x) => {
                                            first_line = Some(x);
                                        },
                                        None => {},
                                    }
                                },
                                None => {},
                            }
                        } else if c.named("spacing") {
                            match c.attr("http://schemas.openxmlformats.org/wordprocessingml/2006/main", "line") {
                                Some(v) => {
                                    let cv = str_chars(v.as_str());
                                    match parse_i32(&cv) {
                                        Some(x) => {
                                            line = Some(x);
                                        },
                                        None => {},
                                    }
                                },
                                None => {},
                            }
                        } else if c.named("outlineLvl") {
                            match c.attr("http://schemas.openxmlformats.org/wordprocessingml/2006/main", "val") {
                                Some(v) => {
                                    let cv = str_chars(v.as_str());
                                    match parse_u32(&cv) {
                                        Some(x) => {
                                            outline = Some(x);
                                        },
                                        None => {},
                                    }
                                },
                                None => {},
                            }
                        }
                    },
                    _ => {},
                }
                i += 1;
            }
            proof {
                assert(cs.skip(n as int).len() == 0);
            }
        },
    }
    (first_line, line, outline)
}

/// Font size of the first run that carries one, in document order.
fn scan_sz(e: &XmlElem) -> (r: Option<i32>)
    ensures
        r == scan_sz_elem(e@),
    decreases *e,
{
    if e.named("r") {
        let own: Option<i32> = match e.find_child("rPr") {
            Some(rpr) => match rpr.find_child("sz") {
                Some(s) => match s.attr("http://schemas.openxmlformats.org/wordprocessingml/2006/main", "val") {
                    Some(v) => {
                        let cv = str_chars(v.as_str());
                        parse_i32(&cv)
                    },
                    None => None,
                },
                None => None,
            },
            None => None,
        };
        if own.is_some() {
            return own;
        }
    }
    let n = e.child_count();
    let ghost cs = e@.children;
    proof {
        assert(cs.skip(0) == cs);
    }
    let mut i: usize = 0;
    while i < n
        invariant
            0 <= i <= n,
            n == e@.children.len(),
            cs == e@.children,
            scan_sz_elem(e@) == scan_sz_nodes(cs.skip(i as int)),
        decreases n - i,
    {
        proof {
            crate::xml::lemma_nodes_view_len(e.children@);
            crate::xml::lemma_nodes_view_index(e.children@, i as int);
            assert(cs.skip(i as int)[0] == cs[i as int]);
            assert(cs.skip(i as int).drop_first() =~= cs.skip(i + 1));
        }
        match &e.children[i] {
            XmlNode::Elem(c) => {
                proof {
                    assert(decreases_to!(*e => e.children));
                    assert(decreases_to!(e.children => e.children@));
                    assert(decreases_to!(e.children@ => e.children@[i as int]));
                    assert(decreases_to!(e.children@[i as int] => *c));
                }
                let h = scan_sz(c);
                if h.is_some() {
                    return h;
                }
            },
            _ => {},
        }
        i += 1;
    }
    proof {
        assert(cs.skip(n as int).len() == 0);
    }
    None
}

/// Font family of the first run that carries one, in document order.
fn scan_family(e: &XmlElem) -> (r: Option<String>)
    ensures
        match r {
            Some(f) => scan_family_elem(e@) == Some(f@),
            None => scan_family_elem(e@) is None,
        },
    decreases *e,
{
    if e.named("r") {
        let own: Option<String> = match e.find_child("rPr") {
            Some(rpr) => match rpr.find_child("rFonts") {
                Some(f) => match f.attr("http://schemas.openxmlformats.org/wordprocessingml/2006/main", "ascii") {
                    Some(a) => Some(a.clone()),
                    None => match f.attr("http://schemas.openxmlformats.org/wordprocessingml/2006/main", "eastAsia") {
                        Some(ea) => Some(ea.clone()),
                        None => None,
                    },
                },
                None => None,
            },
            None => None,
        };
        if own.is_some() {
            return own;
        }
        proof {
            assert(run_family(e@) is None);
        }
    }
    let n = e.child_count();
    let ghost cs = e@.children;
    proof {
        assert(cs.skip(0) == cs);
    }
    let mut i: usize = 0;
    while i < n
        invariant
            0 <= i <= n,
            n == e@.children.len(),
            cs == e@.children,
            scan_family_elem(e@) == scan_family_nodes(cs.skip(i as int)),
        decreases n - i,
    {
        proof {
            crate::xml::lemma_nodes_view_len(e.children@);
            crate::xml::lemma_nodes_view_index(e.children@, i as int);
            assert(cs.skip(i as int)[0] == cs[i as int]);
            assert(cs.skip(i as int).drop_first() =~= cs.skip(i + 1));
        }
        match &e.children[i] {
            XmlNode::Elem(c) => {
                proof {
                    assert(decreases_to!(*e => e.children));
                    assert(decreases_to!(e.children => e.children@));
                    assert(decreases_to!(e.children@ => e.children@[i as int]));
                    assert(decreases_to!(e.children@[i as int] => *c));
                }
                let h = scan_family(c);
                if h.is_some() {
                    return h;
                }
            },
            _ => {},
        }
        i += 1;
    }
    proof {
        assert(cs.skip(n as int).len() == 0);
    }
    None
}

/// Append "pt" to a rendered number.
fn with_pt(v: Vec<char>) -> (r: Vec<char>)
    ensures
        r@ == v@ + "pt"@,
{
    let ghost v0 = v@;
    let mut out = v;
    out.push('p');
    out.push('t');
    proof {
        reveal_strlit("pt");
        assert(out@ =~= v0 + "pt"@);
    }
    out
}

} // verus!

verus! {

/// Extract the section of one paragraph-like content node, or nothing when
/// its trimmed text is empty.
pub fn build_paragraph(cat: &StyleCatalog, e: &XmlElem, id: i32) -> (r: Option<DocumentSection>)
    requires
        1 <= id,
    ensures
        match r {
            Some(s) => paragraph_section(cat@, e@, id as int) == Some(s@),
            None => paragraph_section(cat@, e@, id as int) is None,
        },
{
    let text = e.all_text();
    let raw = remove_breaks(&text);
    if blank(&raw) {
        return None;
    }
    let style_id: String = match e.find_child("pPr") {
        Some(ppr) => match ppr.find_child("pStyle") {
            Some(ps) => match ps.attr("http://schemas.openxmlformats.org/wordprocessingml/2006/main", "val") {
                Some(v) => v.clone(),
                None => String::from_str("Normal"),
            },
            None => String::from_str("Normal"),
        },
        None => String::from_str("Normal"),
    };
    proof {
        assert(style_id@ == para_style_id(e@));
    }
    let (first_line, line, outline) = parse_direct(e);
    let ghost direct = direct_of(e@);
    let resolved = cat.resolve_style(style_id.as_str());
    let ghost rv = resolve_spec(cat@, style_id@);
    proof {
        match &resolved {
            Some(st) => assert(rv == Some(st@)),
            None => assert(rv is None),
        }
    }

    // font size: direct run value, then style chain, then default
    let dsz = scan_sz(e);
    let sz: i32 = match dsz {
        Some(d) => d,
        None => match &resolved {
            Some(st) => match st.run_props.sz {
                Some(s) => s,
                None => 24,
            },
            None => 24,
        },
    };
    proof {
        assert(sz == eff_sz(scan_sz_elem(e@), style_sz(rv)));
    }
    let sz_str: Vec<char> = with_pt(render_fraction(sz, 2));

    // font family
    let dfam = scan_family(e);
    let fam: String = match dfam {
        Some(f) => f,
        None => match &resolved {
            Some(st) => match &st.run_props.rfonts {
                Some(rf) => match &rf.ascii {
                    Some(a) => a.clone(),
                    None => match &rf.east_asia {
                        Some(ea) => ea.clone(),
                        None => String::from_str("Times New Roman"),
                    },
                },
                None => String::from_str("Times New Roman"),
            },
            None => String::from_str("Times New Roman"),
        },
    };
    proof {
        assert(fam@ == eff_family(scan_family_elem(e@), style_family(rv)));
    }

    // line spacing
    let line_eff: Option<i32> = match line {
        Some(l) => Some(l),
        None => match &resolved {
            Some(st) => match &st.paragraph_props.spacing {
                Some(sp) => sp.line,
                None => None,
            },
            None => None,
        },
    };
    proof {
        assert(line_eff == eff_line(direct.line, style_line(rv)));
    }
    let ls: Vec<char> = match line_eff {
        Some(l) => {
            if l >= 1000 {
                with_pt(render_fraction(l, 20))
            } else {
                render_fraction(l, 240)
            }
        },
        None => str_chars("1.15"),
    };

    // first-line indent
    let ind_eff: Option<i32> = match first_line {
        Some(f) => Some(f),
        None => match &resolved {
            Some(st) => match &st.paragraph_props.ind {
                Some(ind) => ind.first_line,
                None => None,
            },
            None => None,
        },
    };
    proof {
        assert(ind_eff == eff_first_line(direct.first_line, style_first_line(rv)));
    }
    let ind_str_o: Option<Vec<char>> = match ind_eff {
        Some(f) => Some(with_pt(render_fraction(f, 20))),
        None => None,
    };

    // classification
    let style_chars = str_chars(style_id.as_str());
    let hword = str_chars("\u{6807}\u{9898}");
    let hpre = str_chars("Heading");
    let heading = outline.is_some() || has_prefix(&style_chars, &hpre) || contains(
        &style_chars,
        &hword,
    );
    let et: ElementType = if heading {
        let lvl: u8 = match outline {
            Some(l) => {
                if l >= 254 {
                    255
                } else {
                    (l + 1) as u8
                }
            },
            None => {
                if style_chars.len() > 0 && crate::textutil::exec_is_digit(
                    style_chars[style_chars.len() - 1],
                ) {
                    crate::textutil::exec_digit_of(style_chars[style_chars.len() - 1]) as u8
                } else {
                    1
                }
            },
        };
        proof {
            assert(lvl as int == heading_level(outline, style_id@));
        }
        ElementType::Heading(lvl)
    } else if e.find_child("tbl").is_some() {
        ElementType::Table
    } else {
        let m1 = str_chars("OMML");
        let m2 = str_chars("Math");
        let m3 = str_chars("math");
        if contains(&raw, &m1) || contains(&raw, &m2) || contains(&raw, &m3) {
            ElementType::Equation
        } else {
            ElementType::Paragraph
        }
    };
    proof {
        assert(et == classify(e@, raw@, style_id@, direct.outline));
    }

    // locator
    let mut loc = str_chars("document.xml#sec_");
    let mut dg = u64_digits(id as u64);
    loc.append(&mut dg);
    let xml_path = chars_string(&loc);
    proof {
        assert(xml_path@ == locator(id as int));
    }

    // formatting map, in insertion order
    let mut formatting: Vec<(String, String)> = Vec::new();
    formatting.push((String::from_str("font-size"), chars_string(&sz_str)));
    formatting.push((String::from_str("line-spacing"), chars_string(&ls)));
    formatting.push((String::from_str("font-family"), fam));
    match &ind_str_o {
        Some(v) => {
            formatting.push((String::from_str("first-line-indent"), chars_string(v)));
        },
        None => {},
    }

    let sec = DocumentSection {
        id,
        element_type: et,
        raw_text: chars_string(&raw),
        formatting,
        xml_path,
    };
    proof {
        let spec_sec = paragraph_section(cat@, e@, id as int).unwrap();
        assert(sec@.formatting =~~= spec_sec.formatting);
        assert(sec@ =~~= spec_sec);
    }
    Some(sec)
}

} // verus!

verus! {

/// View of a vector of character vectors.
pub open spec fn charss_view(v: Seq<Vec<char>>) -> Seq<Seq<char>> {
    Seq::new(v.len(), |i: int| v[i]@)
}

/// Collect the non-empty texts of the `p` children of one cell.
fn collect_cell_paras(tc: &XmlElem, parts: &mut Vec<Vec<char>>)
    ensures
        charss_view(final(parts)@) == charss_view(old(parts)@) + paras_texts(tc@.children),
{
    let n = tc.child_count();
    let ghost cs = tc@.children;
    proof {
        assert(cs.skip(0) == cs);
        assert(charss_view(parts@) + paras_texts(cs.skip(0)) =~= charss_view(old(parts)@)
            + paras_texts(cs));
    }
    let mut i: usize = 0;
    while i < n
        invariant
            0 <= i <= n,
            n == tc@.children.len(),
            cs == tc@.children,
            charss_view(parts@) + paras_texts(cs.skip(i as int)) == charss_view(old(parts)@)
                + paras_texts(cs),
        decreases n - i,
    {
        proof {
            assert(cs.skip(i as int)[0] == cs[i as int]);
            assert(cs.skip(i as int).drop_first() =~= cs.skip(i + 1));
        }
        match tc.child_at(i) {
            XmlNode::Elem(c) => {
                if c.named("p") {
                    let text = c.all_text();
                    let cell = remove_breaks(&text);
                    if cell.len() > 0 {
                        let ghost before = parts@;
                        parts.push(cell);
                        proof {
                            assert(charss_view(parts@) =~= charss_view(before).push(
                                strip_breaks(text_of_elem(cs[i as int]->Elem_0)),
                            ));
                            assert(charss_view(parts@) + paras_texts(cs.skip(i + 1)) =~=
                                charss_view(old(parts)@) + paras_texts(cs));
                        }
                    } else {
                        proof {
                            assert(charss_view(parts@) + paras_texts(cs.skip(i + 1)) =~=
                                charss_view(old(parts)@) + paras_texts(cs));
                        }
                    }
                } else {
                    proof {
                        assert(charss_view(parts@) + paras_texts(cs.skip(i + 1)) =~=
                            charss_view(old(parts)@) + paras_texts(cs));
                    }
                }
            },
            _ => {
                proof {
                    assert(charss_view(parts@) + paras_texts(cs.skip(i + 1)) =~= charss_view(
                        old(parts)@,
                    ) + paras_texts(cs));
                }
            },
        }
        i += 1;
    }
    proof {
        assert(cs.skip(n as int).len() == 0);
        assert(paras_texts(cs.skip(n as int)) =~= Seq::<Seq<char>>::empty());
        assert(charss_view(parts@) =~= charss_view(old(parts)@) + paras_texts(cs));
    }
}

/// Collect the cell texts of one row.
fn collect_row_cells(tr: &XmlElem, parts: &mut Vec<Vec<char>>)
    ensures
        charss_view(final(parts)@) == charss_view(old(parts)@) + cells_texts(tr@.children),
{
    let n = tr.child_count();
    let ghost cs = tr@.children;
    proof {
        assert(cs.skip(0) == cs);
        assert(charss_view(parts@) + cells_texts(cs.skip(0)) =~= charss_view(old(parts)@)
            + cells_texts(cs));
    }
    let mut i: usize = 0;
    while i < n
        invariant
            0 <= i <= n,
            n == tr@.children.len(),
            cs == tr@.children,
            charss_view(parts@) + cells_texts(cs.skip(i as int)) == charss_view(old(parts)@)
                + cells_texts(cs),
        decreases n - i,
    {
        proof {
            assert(cs.skip(i as int)[0] == cs[i as int]);
            assert(cs.skip(i as int).drop_first() =~= cs.skip(i + 1));
        }
        match tr.child_at(i) {
            XmlNode::Elem(c) => {
                if c.named("tc") {
                    collect_cell_paras(c, parts);
                    proof {
                        assert(charss_view(parts@) + cells_texts(cs.skip(i + 1)) =~= charss_view(
                            old(parts)@,
                        ) + cells_texts(cs));
                    }
                } else {
                    proof {
                        assert(charss_view(parts@) + cells_texts(cs.skip(i + 1)) =~= charss_view(
                            old(parts)@,
                        ) + cells_texts(cs));
                    }
                }
            },
            _ => {
                proof {
                    assert(charss_view(parts@) + cells_texts(cs.skip(i + 1)) =~= charss_view(
                        old(parts)@,
                    ) + cells_texts(cs));
                }
            },
        }
        i += 1;
    }
    proof {
        assert(cs.skip(n as int).len() == 0);
        assert(cells_texts(cs.skip(n as int)) =~= Seq::<Seq<char>>::empty());
        assert(charss_view(parts@) =~= charss_view(old(parts)@) + cells_texts(cs));
    }
}

/// Join the collected pieces with single line breaks.
fn join_parts(parts: &Vec<Vec<char>>) -> (r: Vec<char>)
    ensures
        r@ == join_nl(charss_view(parts@)),
{
    let ghost ts = charss_view(parts@);
    let mut out: Vec<char> = Vec::new();
    let mut i: usize = 0;
    proof {
        assert(ts.take(0) =~= Seq::<Seq<char>>::empty());
    }
    while i < parts.len()
        invariant
            0 <= i <= parts@.len(),
            ts == charss_view(parts@),
            ts.len() == parts@.len(),
            out@ == join_nl(ts.take(i as int)),
        decreases parts@.len() - i,
    {
        if i > 0 {
            out.push('\n');
        }
        let mut piece = parts[i].clone();
        out.append(&mut piece);
        proof {
            assert(parts@[i as int]@ == ts[i as int]);
            lemma_join_push(ts.take(i as int), ts[i as int]);
            assert(ts.take(i + 1) =~= ts.take(i as int).push(ts[i as int]));
            assert(out@ =~= join_nl(ts.take(i + 1)));
        }
        i += 1;
    }
    proof {
        assert(ts.take(ts.len() as int) =~= ts);
    }
    out
}

/// Extract the section of a table node: cell paragraphs in row-then-cell
/// order; nothing when the joined text is blank.
pub fn build_table(e: &XmlElem, id: i32) -> (r: Option<DocumentSection>)
    requires
        1 <= id,
    ensures
        match r {
            Some(s) => table_section(e@, id as int) == Some(s@),
            None => table_section(e@, id as int) is None,
        },
{
    let mut parts: Vec<Vec<char>> = Vec::new();
    let n = e.child_count();
    let ghost cs = e@.children;
    proof {
        assert(cs.skip(0) == cs);
        assert(charss_view(parts@) + rows_texts(cs.skip(0)) =~= rows_texts(cs));
    }
    let mut i: usize = 0;
    while i < n
        invariant
            0 <= i <= n,
            n == e@.children.len(),
            cs == e@.children,
            charss_view(parts@) + rows_texts(cs.skip(i as int)) == rows_texts(cs),
        decreases n - i,
    {
        proof {
            assert(cs.skip(i as int)[0] == cs[i as int]);
            assert(cs.skip(i as int).drop_first() =~= cs.skip(i + 1));
        }
        match e.child_at(i) {
            XmlNode::Elem(c) => {
                if c.named("tr") {
                    collect_row_cells(c, &mut parts);
                    proof {
                        assert(charss_view(parts@) + rows_texts(cs.skip(i + 1)) =~= rows_texts(
                            cs,
                        ));
                    }
                } else {
                    proof {
                        assert(charss_view(parts@) + rows_texts(cs.skip(i + 1)) =~= rows_texts(
                            cs,
                        ));
                    }
                }
            },
            _ => {
                proof {
                    assert(charss_view(parts@) + rows_texts(cs.skip(i + 1)) =~= rows_texts(cs));
                }
            },
        }
        i += 1;
    }
    proof {
        assert(cs.skip(n as int).len() == 0);
        assert(rows_texts(cs.skip(n as int)) =~= Seq::<Seq<char>>::empty());
        assert(charss_view(parts@) =~= rows_texts(cs));
    }
    let text = join_parts(&parts);
    if blank(&text) {
        return None;
    }
    let mut loc = str_chars("document.xml#sec_");
    let mut dg = u64_digits(id as u64);
    loc.append(&mut dg);
    let xml_path = chars_string(&loc);
    let mut formatting: Vec<(String, String)> = Vec::new();
    formatting.push((String::from_str("font-size"), String::from_str("12pt")));
    let sec = DocumentSection {
        id,
        element_type: ElementType::Table,
        raw_text: chars_string(&text),
        formatting,
        xml_path,
    };
    proof {
        let spec_sec = table_section(e@, id as int).unwrap();
        assert(sec@.formatting =~~= spec_sec.formatting);
        assert(sec@ =~~= spec_sec);
    }
    Some(sec)
}

} // verus!

verus! {

/// Walk one element: emit its section if it is a content node, then walk
/// its children in document order.
fn walk_elem(cat: &StyleCatalog, e: &XmlElem, secs: Vec<DocumentSection>) -> (r: Vec<
    DocumentSection,
>)
    ensures
        crate::secs_view(r@) == walk_elem_s(cat@, e@, crate::secs_view(secs@)),
    decreases *e,
{
    let ghost secs0 = crate::secs_view(secs@);
    let mut secs = secs;
    if e.named("p") {
        if secs.len() < 0x7fff_ffff {
            let id = (secs.len() + 1) as i32;
            match build_paragraph(cat, e, id) {
                Some(s) => {
                    let ghost before = secs@;
                    secs.push(s);
                    proof {
                        assert(crate::secs_view(secs@) =~= crate::secs_view(before).push(s@));
                    }
                },
                None => {},
            }
        }
    } else if e.named("tbl") {
        if secs.len() < 0x7fff_ffff {
            let id = (secs.len() + 1) as i32;
            match build_table(e, id) {
                Some(s) => {
                    let ghost before = secs@;
                    secs.push(s);
                    proof {
                        assert(crate::secs_view(secs@) =~= crate::secs_view(before).push(s@));
                    }
                },
                None => {},
            }
        }
    }
    proof {
        assert(crate::secs_view(secs@) == emit_for_elem(cat@, e@, secs0));
    }
    let ghost emitted = crate::secs_view(secs@);
    let n = e.child_count();
    let ghost cs = e@.children;
    proof {
        assert(cs.skip(0) == cs);
    }
    let mut i: usize = 0;
    while i < n
        invariant
            0 <= i <= n,
            n == e@.children.len(),
            cs == e@.children,
            walk_nodes_s(cat@, cs.skip(i as int), crate::secs_view(secs@)) == walk_nodes_s(
                cat@,
                cs,
                emitted,
            ),
        decreases n - i,
    {
        proof {
            crate::xml::lemma_nodes_view_len(e.children@);
            crate::xml::lemma_nodes_view_index(e.children@, i as int);
            assert(cs.skip(i as int)[0] == cs[i as int]);
            assert(cs.skip(i as int).drop_first() =~= cs.skip(i + 1));
        }
        match &e.children[i] {
            XmlNode::Elem(c) => {
                proof {
                    assert(decreases_to!(*e => e.children));
                    assert(decreases_to!(e.children => e.children@));
                    assert(decreases_to!(e.children@ => e.children@[i as int]));
                    assert(decreases_to!(e.children@[i as int] => *c));
                }
                secs = walk_elem(cat, c, secs);
            },
            _ => {},
        }
        i += 1;
    }
    proof {
        assert(cs.skip(n as int).len() == 0);
        assert(walk_nodes_s(cat@, cs.skip(n as int), crate::secs_view(secs@)) == crate::secs_view(
            secs@,
        ));
    }
    secs
}

/// Extract the ordered section list of a document from its parsed root
/// element, ids consecutive from one in document order.
pub fn extract_content(cat: &StyleCatalog, root: &XmlElem) -> (r: Vec<DocumentSection>)
    ensures
        crate::secs_view(r@) == extract_all(cat@, root@),
{
    let ghost cs = root@.children;
    let mut secs: Vec<DocumentSection> = Vec::new();
    proof {
        assert(crate::secs_view(secs@) =~= Seq::<SecV>::empty());
        assert(cs.skip(0) == cs);
    }
    let n = root.child_count();
    let mut i: usize = 0;
    while i < n
        invariant
            0 <= i <= n,
            n == root@.children.len(),
            cs == root@.children,
            walk_nodes_s(cat@, cs.skip(i as int), crate::secs_view(secs@)) == walk_nodes_s(
                cat@,
                cs,
                Seq::<SecV>::empty(),
            ),
        decreases n - i,
    {
        proof {
            crate::xml::lemma_nodes_view_len(root.children@);
            crate::xml::lemma_nodes_view_index(root.children@, i as int);
            assert(cs.skip(i as int)[0] == cs[i as int]);
            assert(cs.skip(i as int).drop_first() =~= cs.skip(i + 1));
        }
        match &root.children[i] {
            XmlNode::Elem(c) => {
                secs = walk_elem(cat, c, secs);
            },
            _ => {},
        }
        i += 1;
    }
    proof {
        assert(cs.skip(n as int).len() == 0);
        assert(walk_nodes_s(cat@, cs.skip(n as int), crate::secs_view(secs@)) == crate::secs_view(
            secs@,
        ));
    }
    secs
}

// ---------------------------------------------------------------------------
// Stated laws of the walk.
// ---------------------------------------------------------------------------

/// Ids are consecutive from one, matching traversal order.
pub open spec fn ids_consecutive(secs: Seq<SecV>) -> bool {
    forall|i: int| 0 <= i < secs.len() ==> #[trigger] secs[i].id == i + 1
}

proof fn lemma_walk_nodes_ids(cat: Seq<StyleV>, cs: Seq<NodeV>, secs: Seq<SecV>)
    requires
        ids_consecutive(secs),
    ensures
        ids_consecutive(walk_nodes_s(cat, cs, secs)),
        walk_nodes_s(cat, cs, secs).len() >= secs.len(),
        walk_nodes_s(cat, cs, secs).take(secs.len() as int) == secs,
    decreases cs,
{
    if cs.len() > 0 {
        match cs[0] {
            NodeV::Elem(e) => {
                lemma_walk_elem_ids(cat, e, secs);
                let mid = walk_elem_s(cat, e, secs);
                lemma_walk_nodes_ids(cat, cs.drop_first(), mid);
                let fin = walk_nodes_s(cat, cs.drop_first(), mid);
                assert(fin.take(secs.len() as int) =~= mid.take(secs.len() as int));
            },
            _ => {
                lemma_walk_nodes_ids(cat, cs.drop_first(), secs);
            },
        }
    } else {
        assert(walk_nodes_s(cat, cs, secs).take(secs.len() as int) =~= secs);
    }
}

proof fn lemma_walk_elem_ids(cat: Seq<StyleV>, e: ElemV, secs: Seq<SecV>)
    requires
        ids_consecutive(secs),
    ensures
        ids_consecutive(walk_elem_s(cat, e, secs)),
        walk_elem_s(cat, e, secs).len() >= secs.len(),
        walk_elem_s(cat, e, secs).take(secs.len() as int) == secs,
    decreases e,
{
    let emitted = emit_for_elem(cat, e, secs);
    assert(ids_consecutive(emitted) && emitted.len() >= secs.len() && emitted.take(
        secs.len() as int,
    ) =~= secs) by {
        if e.name == "p"@ && secs.len() < 0x7fff_ffff {
            match paragraph_section(cat, e, secs.len() as int + 1) {
                Some(s) => {
                    assert(s.id == secs.len() + 1);
                    assert(emitted =~= secs.push(s));
                    assert(emitted.take(secs.len() as int) =~= secs);
                },
                None => {},
            }
        } else if e.name == "tbl"@ && secs.len() < 0x7fff_ffff {
            match table_section(e, secs.len() as int + 1) {
                Some(s) => {
                    assert(s.id == secs.len() + 1);
                    assert(emitted =~= secs.push(s));
                    assert(emitted.take(secs.len() as int) =~= secs);
                },
                None => {},
            }
        }
    }
    lemma_walk_nodes_ids(cat, e.children, emitted);
    let fin = walk_nodes_s(cat, e.children, emitted);
    assert(fin.take(secs.len() as int) =~= emitted.take(secs.len() as int));
}

/// Section ids are strictly increasing from one, in traversal order: the
/// i-th extracted section carries id i + 1.
pub proof fn lemma_ids_consecutive(cat: Seq<StyleV>, root: ElemV)
    ensures
        ids_consecutive(extract_all(cat, root)),
{
    lemma_walk_nodes_ids(cat, root.children, Seq::empty());
}

} // verus!

verus! {

/// Number of non-blank content nodes below an element, the element itself
/// included when it is one.
pub open spec fn count_elem(cat: Seq<StyleV>, e: ElemV) -> int
    decreases e,
{
    (if e.name == "p"@ {
        if paragraph_section(cat, e, 1) is Some {
            1int
        } else {
            0int
        }
    } else if e.name == "tbl"@ {
        if table_section(e, 1) is Some {
            1int
        } else {
            0int
        }
    } else {
        0int
    }) + count_nodes(cat, e.children)
}

pub open spec fn count_nodes(cat: Seq<StyleV>, cs: Seq<NodeV>) -> int
    decreases cs,
{
    if cs.len() == 0 {
        0int
    } else {
        (match cs[0] {
            NodeV::Elem(e) => count_elem(cat, e),
            _ => 0int,
        }) + count_nodes(cat, cs.drop_first())
    }
}

proof fn lemma_count_nodes_nonneg(cat: Seq<StyleV>, cs: Seq<NodeV>)
    ensures
        count_nodes(cat, cs) >= 0,
    decreases cs,
{
    if cs.len() > 0 {
        match cs[0] {
            NodeV::Elem(e) => {
                lemma_count_elem_nonneg(cat, e);
            },
            _ => {},
        }
        lemma_count_nodes_nonneg(cat, cs.drop_first());
    }
}

proof fn lemma_count_elem_nonneg(cat: Seq<StyleV>, e: ElemV)
    ensures
        count_elem(cat, e) >= 0,
    decreases e,
{
    lemma_count_nodes_nonneg(cat, e.children);
}

proof fn lemma_walk_nodes_count(cat: Seq<StyleV>, cs: Seq<NodeV>, secs: Seq<SecV>)
    requires
        secs.len() + count_nodes(cat, cs) <= 0x7fff_ffff,
    ensures
        walk_nodes_s(cat, cs, secs).len() == secs.len() + count_nodes(cat, cs),
    decreases cs,
{
    if cs.len() > 0 {
        match cs[0] {
            NodeV::Elem(e) => {
                lemma_count_nodes_nonneg(cat, cs.drop_first());
                lemma_count_elem_nonneg(cat, e);
                lemma_walk_elem_count(cat, e, secs);
                lemma_walk_nodes_count(cat, cs.drop_first(), walk_elem_s(cat, e, secs));
            },
            _ => {
                lemma_walk_nodes_count(cat, cs.drop_first(), secs);
            },
        }
    }
}

proof fn lemma_walk_elem_count(cat: Seq<StyleV>, e: ElemV, secs: Seq<SecV>)
    requires
        secs.len() + count_elem(cat, e) <= 0x7fff_ffff,
    ensures
        walk_elem_s(cat, e, secs).len() == secs.len() + count_elem(cat, e),
    decreases e,
{
    lemma_count_nodes_nonneg(cat, e.children);
    let emitted = emit_for_elem(cat, e, secs);
    assert(emitted.len() == secs.len() + (count_elem(cat, e) - count_nodes(cat, e.children)))
        by {
        if e.name == "p"@ {
            assert(paragraph_section(cat, e, secs.len() as int + 1) is Some
                <==> paragraph_section(cat, e, 1) is Some);
        } else if e.name == "tbl"@ {
            assert(table_section(e, secs.len() as int + 1) is Some <==> table_section(e, 1)
                is Some);
        }
    }
    lemma_walk_nodes_count(cat, e.children, emitted);
}

/// For every document, the section count equals the count of non-blank
/// content nodes; no blank node ever yields a section. The one bound is the
/// id type: the count must fit it.
pub proof fn lemma_section_count(cat: Seq<StyleV>, root: ElemV)
    requires
        count_nodes(cat, root.children) <= 0x7fff_ffff,
    ensures
        extract_all(cat, root).len() == count_nodes(cat, root.children),
{
    lemma_walk_nodes_count(cat, root.children, Seq::empty());
}

/// A blank content node yields no section.
pub proof fn lemma_blank_yields_nothing(cat: Seq<StyleV>, e: ElemV, id: int)
    requires
        is_blank(strip_breaks(text_of_elem(e))),
    ensures
        paragraph_section(cat, e, id) is None,
{
}

} // verus!
