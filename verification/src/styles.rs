//! Style catalog and resolver: parsing of the style-definition part into an
//! id-keyed catalog, and cycle-safe resolution of inheritance chains into an
//! effective style per id.

use vstd::prelude::*;

use crate::textutil::{parse_i32_spec, parse_i32, str_chars, str_eq};
use crate::xml::{attr_value, first_child_named, ElemV, NodeV, XmlElem, XmlNode};

verus! {

/// The main namespace of the wordprocessing markup.
pub open spec fn w_ns() -> Seq<char> {
    "http://schemas.openxmlformats.org/wordprocessingml/2006/main"@
}

/// Line-spacing setting of a paragraph: raw value and rule.
#[derive(Debug)]
pub struct Spacing {
    pub line: Option<i32>,
    pub line_rule: Option<String>,
}

/// Indentation setting of a paragraph.
#[derive(Debug)]
pub struct Indent {
    pub first_line: Option<i32>,
}

/// Paragraph-level properties a style or a node can carry.
#[derive(Debug)]
pub struct ParagraphProperties {
    pub style: Option<String>,
    pub spacing: Option<Spacing>,
    pub ind: Option<Indent>,
}

/// Font families, ascii and east-Asian variants.
#[derive(Debug)]
pub struct RFonts {
    pub ascii: Option<String>,
    pub east_asia: Option<String>,
}

/// Run-level properties: font size in half-points and families.
#[derive(Debug)]
pub struct RunProperties {
    pub sz: Option<i32>,
    pub rfonts: Option<RFonts>,
}

/// One style record of the catalog.
#[derive(Debug)]
pub struct StyleDefinition {
    pub style_id: String,
    pub name: String,
    pub based_on: Option<String>,
    pub paragraph_props: ParagraphProperties,
    pub run_props: RunProperties,
}

// ---------------------------------------------------------------------------
// Views.
// ---------------------------------------------------------------------------

#[verifier::ext_equal]
pub struct SpacingV {
    pub line: Option<i32>,
    pub line_rule: Option<Seq<char>>,
}

#[verifier::ext_equal]
pub struct IndentV {
    pub first_line: Option<i32>,
}

#[verifier::ext_equal]
pub struct PPropsV {
    pub style: Option<Seq<char>>,
    pub spacing: Option<SpacingV>,
    pub ind: Option<IndentV>,
}

#[verifier::ext_equal]
pub struct RFontsV {
    pub ascii: Option<Seq<char>>,
    pub east_asia: Option<Seq<char>>,
}

#[verifier::ext_equal]
pub struct RPropsV {
    pub sz: Option<i32>,
    pub rfonts: Option<RFontsV>,
}

#[verifier::ext_equal]
pub struct StyleV {
    pub style_id: Seq<char>,
    pub name: Seq<char>,
    pub based_on: Option<Seq<char>>,
    pub pprops: PPropsV,
    pub rprops: RPropsV,
}

pub open spec fn opt_str_view(o: Option<String>) -> Option<Seq<char>> {
    match o {
        Some(s) => Some(s@),
        None => None,
    }
}

impl View for Spacing {
    type V = SpacingV;

    open spec fn view(&self) -> SpacingV {
        SpacingV { line: self.line, line_rule: opt_str_view(self.line_rule) }
    }
}

impl View for Indent {
    type V = IndentV;

    open spec fn view(&self) -> IndentV {
        IndentV { first_line: self.first_line }
    }
}

impl View for ParagraphProperties {
    type V = PPropsV;

    open spec fn view(&self) -> PPropsV {
        PPropsV {
            style: opt_str_view(self.style),
            spacing: match self.spacing {
                Some(s) => Some(s@),
                None => None,
            },
            ind: match self.ind {
                Some(d) => Some(d@),
                None => None,
            },
        }
    }
}

impl View for RFonts {
    type V = RFontsV;

    open spec fn view(&self) -> RFontsV {
        RFontsV { ascii: opt_str_view(self.ascii), east_asia: opt_str_view(self.east_asia) }
    }
}

impl View for RunProperties {
    type V = RPropsV;

    open spec fn view(&self) -> RPropsV {
        RPropsV {
            sz: self.sz,
            rfonts: match self.rfonts {
                Some(f) => Some(f@),
                None => None,
            },
        }
    }
}

impl View for StyleDefinition {
    type V = StyleV;

    open spec fn view(&self) -> StyleV {
        StyleV {
            style_id: self.style_id@,
            name: self.name@,
            based_on: opt_str_view(self.based_on),
            pprops: self.paragraph_props@,
            rprops: self.run_props@,
        }
    }
}

// ---------------------------------------------------------------------------
// The catalog: styles in insertion order, later records shadowing earlier
// ones with the same id, as a map insert would.
// ---------------------------------------------------------------------------

pub struct StyleCatalog {
    pub styles: Vec<StyleDefinition>,
}

impl View for StyleCatalog {
    type V = Seq<StyleV>;

    open spec fn view(&self) -> Seq<StyleV> {
        Seq::new(self.styles@.len(), |i: int| self.styles@[i]@)
    }
}

/// The record the catalog holds under `id`: the last one entered.
pub open spec fn cat_lookup(cat: Seq<StyleV>, id: Seq<char>) -> Option<StyleV>
    decreases cat.len(),
{
    if cat.len() == 0 {
        None
    } else if cat.last().style_id == id {
        Some(cat.last())
    } else {
        cat_lookup(cat.drop_last(), id)
    }
}

/// The ids the catalog holds.
pub open spec fn cat_ids(cat: Seq<StyleV>) -> Set<Seq<char>> {
    cat.map(|i: int, s: StyleV| s.style_id).to_set()
}

proof fn lemma_lookup_in_ids(cat: Seq<StyleV>, id: Seq<char>)
    requires
        cat_lookup(cat, id) is Some,
    ensures
        cat_ids(cat).contains(id),
    decreases cat.len(),
{
    broadcast use vstd::set::group_set_axioms;

    let m = cat.map(|i: int, s: StyleV| s.style_id);
    if cat.last().style_id == id {
        assert(m[cat.len() - 1] == id);
        assert(m.contains(id));
        assert(m.to_set().contains(id));
    } else {
        lemma_lookup_in_ids(cat.drop_last(), id);
        let m2 = cat.drop_last().map(|i: int, s: StyleV| s.style_id);
        assert(m2.to_set().contains(id));
        assert(m2.contains(id));
        let w = choose|j: int| 0 <= j < m2.len() && m2[j] == id;
        assert(m[w] == id);
        assert(m.contains(id));
        assert(m.to_set().contains(id));
    }
}

proof fn lemma_cat_ids_finite(cat: Seq<StyleV>)
    ensures
        cat_ids(cat).finite(),
{
    vstd::seq_lib::seq_to_set_is_finite(cat.map(|i: int, s: StyleV| s.style_id));
}

/// The inheritance chain from `id`, most derived first, stopping at an
/// unknown id or at the first id already seen; cycle-safe by construction.
pub open spec fn chain_from(cat: Seq<StyleV>, id: Seq<char>, visited: Set<Seq<char>>) -> Seq<
    StyleV,
>
    decreases cat_ids(cat).difference(visited).len()
        via chain_from_decreases
{
    if visited.contains(id) {
        Seq::empty()
    } else {
        match cat_lookup(cat, id) {
            None => Seq::empty(),
            Some(s) => match s.based_on {
                None => seq![s],
                Some(base) => seq![s] + chain_from(cat, base, visited.insert(id)),
            },
        }
    }
}

#[via_fn]
proof fn chain_from_decreases(cat: Seq<StyleV>, id: Seq<char>, visited: Set<Seq<char>>) {
    lemma_cat_ids_finite(cat);
    if !visited.contains(id) && cat_lookup(cat, id) is Some {
        lemma_lookup_in_ids(cat, id);
        let d = cat_ids(cat).difference(visited);
        let d2 = cat_ids(cat).difference(visited.insert(id));
        assert(d.finite());
        assert(d2 =~= d.remove(id));
        assert(d.contains(id));
        assert(d.remove(id).len() == d.len() - 1);
    }
}

/// The full chain for an id, with nothing visited yet.
pub open spec fn style_chain(cat: Seq<StyleV>, id: Seq<char>) -> Seq<StyleV> {
    chain_from(cat, id, Set::empty())
}

// First-set-wins selection over the chain: a property set by a more derived
// style is never overwritten; an unset one is filled by the nearest ancestor
// that defines it.

pub open spec fn first_pstyle(ch: Seq<StyleV>) -> Option<Seq<char>>
    decreases ch.len(),
{
    if ch.len() == 0 {
        None
    } else if ch[0].pprops.style is Some {
        ch[0].pprops.style
    } else {
        first_pstyle(ch.drop_first())
    }
}

pub open spec fn first_spacing(ch: Seq<StyleV>) -> Option<SpacingV>
    decreases ch.len(),
{
    if ch.len() == 0 {
        None
    } else if ch[0].pprops.spacing is Some {
        ch[0].pprops.spacing
    } else {
        first_spacing(ch.drop_first())
    }
}

pub open spec fn first_ind(ch: Seq<StyleV>) -> Option<IndentV>
    decreases ch.len(),
{
    if ch.len() == 0 {
        None
    } else if ch[0].pprops.ind is Some {
        ch[0].pprops.ind
    } else {
        first_ind(ch.drop_first())
    }
}

pub open spec fn first_sz(ch: Seq<StyleV>) -> Option<i32>
    decreases ch.len(),
{
    if ch.len() == 0 {
        None
    } else if ch[0].rprops.sz is Some {
        ch[0].rprops.sz
    } else {
        first_sz(ch.drop_first())
    }
}

pub open spec fn first_rfonts(ch: Seq<StyleV>) -> Option<RFontsV>
    decreases ch.len(),
{
    if ch.len() == 0 {
        None
    } else if ch[0].rprops.rfonts is Some {
        ch[0].rprops.rfonts
    } else {
        first_rfonts(ch.drop_first())
    }
}

/// The effective style for `id`: nothing for an unknown id, otherwise the
/// head record with every property filled by first-set-wins over the chain.
pub open spec fn resolve_spec(cat: Seq<StyleV>, id: Seq<char>) -> Option<StyleV> {
    let ch = style_chain(cat, id);
    if ch.len() == 0 {
        None
    } else {
        Some(
            StyleV {
                style_id: ch[0].style_id,
                name: ch[0].name,
                based_on: ch[0].based_on,
                pprops: PPropsV {
                    style: first_pstyle(ch),
                    spacing: first_spacing(ch),
                    ind: first_ind(ch),
                },
                rprops: RPropsV { sz: first_sz(ch), rfonts: first_rfonts(ch) },
            },
        )
    }
}

// ---------------------------------------------------------------------------
// Executable catalog.
// ---------------------------------------------------------------------------

fn clone_opt_string(o: &Option<String>) -> (r: Option<String>)
    ensures
        opt_str_view(r) == opt_str_view(*o),
{
    match o {
        Some(s) => Some(s.clone()),
        None => None,
    }
}

fn clone_spacing(o: &Option<Spacing>) -> (r: Option<Spacing>)
    ensures
        (r matches Some(s) && o matches Some(os) && s@ == os@) || (r is None && o is None),
{
    match o {
        Some(s) => Some(Spacing { line: s.line, line_rule: clone_opt_string(&s.line_rule) }),
        None => None,
    }
}

fn clone_indent(o: &Option<Indent>) -> (r: Option<Indent>)
    ensures
        (r matches Some(s) && o matches Some(os) && s@ == os@) || (r is None && o is None),
{
    match o {
        Some(s) => Some(Indent { first_line: s.first_line }),
        None => None,
    }
}

fn clone_rfonts(o: &Option<RFonts>) -> (r: Option<RFonts>)
    ensures
        (r matches Some(s) && o matches Some(os) && s@ == os@) || (r is None && o is None),
{
    match o {
        Some(s) => Some(
            RFonts {
                ascii: clone_opt_string(&s.ascii),
                east_asia: clone_opt_string(&s.east_asia),
            },
        ),
        None => None,
    }
}

impl StyleCatalog {
    /// An empty catalog.
    pub fn new() -> (r: StyleCatalog)
        ensures
            r@ == Seq::<StyleV>::empty(),
    {
        let r = StyleCatalog { styles: Vec::new() };
        proof {
            assert(r@ =~= Seq::<StyleV>::empty());
        }
        r
    }

    /// The record under `id`, if any.
    pub fn get(&self, id: &str) -> (r: Option<&StyleDefinition>)
        ensures
            match r {
                Some(s) => cat_lookup(self@, id@) == Some(s@),
                None => cat_lookup(self@, id@) is None,
            },
    {
        let n = self.styles.len();
        let mut i: usize = n;
        proof {
            assert(self@.take(n as int) =~= self@);
        }
        loop
            invariant
                0 <= i <= n,
                n == self.styles@.len(),
                self@.len() == n,
                cat_lookup(self@, id@) == cat_lookup(self@.take(i as int), id@),
            ensures
                cat_lookup(self@, id@) is None,
            decreases i,
        {
            if i == 0 {
                break;
            }
            i -= 1;
            proof {
                assert(self@.take(i + 1).last() == self@[i as int]);
                assert(self@.take(i + 1).drop_last() =~= self@.take(i as int));
            }
            let s = &self.styles[i];
            if str_eq(s.style_id.as_str(), id) {
                return Some(s);
            }
        }
        None
    }

    /// Walk the inheritance chain for `style_id`, visited ids tracked so a
    /// cycle stops the walk, and merge the chain most-derived-first.
    ///
    /// An unknown id resolves to nothing; a chain that cycles or reaches an
    /// unknown ancestor still yields what has accumulated.
    pub fn resolve_style(&self, style_id: &str) -> (r: Option<StyleDefinition>)
        ensures
            match r {
                Some(s) => resolve_spec(self@, style_id@) == Some(s@),
                None => resolve_spec(self@, style_id@) is None,
            },
    {
        let ghost catv = self@;
        let mut chain: Vec<&StyleDefinition> = Vec::new();
        let ghost chv = Seq::new(chain@.len(), |i: int| chain@[i]@);
        let mut visited: Vec<&str> = Vec::new();
        let mut current: &str = style_id;
        let ghost visited_set = Set::<Seq<char>>::empty();
        proof {
            assert(Seq::new(visited@.len(), |i: int| visited@[i]@).to_set() =~= visited_set);
            lemma_cat_ids_finite(catv);
        }
        loop
            invariant
                catv == self@,
                cat_ids(catv).finite(),
                visited_set == Seq::new(visited@.len(), |i: int| visited@[i]@).to_set(),
                visited_set.finite(),
                style_chain(catv, style_id@) == Seq::new(chain@.len(), |i: int| chain@[i]@)
                    + chain_from(catv, current@, visited_set),
                chain@.len() > 0 ==> style_chain(catv, style_id@).len() > 0,
                chain@.len() == 0 ==> current@ == style_id@ && visited_set == Set::<
                    Seq<char>,
                >::empty(),
            ensures
                style_chain(catv, style_id@) == Seq::new(chain@.len(), |i: int| chain@[i]@),
            decreases cat_ids(catv).difference(visited_set).len() + 1,
        {
            // has this id been visited already? (cycle)
            let ghost vs0 = Seq::new(visited@.len(), |i: int| visited@[i]@);
            let mut seen = false;
            let mut vi: usize = 0;
            while vi < visited.len()
                invariant
                    0 <= vi <= visited@.len(),
                    vs0 == Seq::new(visited@.len(), |i: int| visited@[i]@),
                    seen ==> vs0.contains(current@),
                    !seen ==> forall|j: int| 0 <= j < vi ==> vs0[j] != current@,
                ensures
                    seen ==> vs0.contains(current@),
                    !seen ==> forall|j: int| 0 <= j < vs0.len() ==> vs0[j] != current@,
                decreases visited@.len() - vi,
            {
                if str_eq(visited[vi], current) {
                    seen = true;
                    proof {
                        assert(vs0[vi as int] == current@);
                        assert(vs0.contains(current@));
                    }
                    break;
                }
                vi += 1;
            }
            proof {
                broadcast use vstd::set::group_set_axioms;

                if seen {
                    assert(vs0.contains(current@));
                    assert(visited_set.contains(current@));
                } else {
                    assert(forall|j: int| 0 <= j < vs0.len() ==> vs0[j] != current@);
                    if visited_set.contains(current@) {
                        assert(vs0.to_set().contains(current@));
                        assert(vs0.contains(current@));
                        let w = choose|j: int| 0 <= j < vs0.len() && vs0[j] == current@;
                        assert(false);
                    }
                    assert(!visited_set.contains(current@));
                }
            }
            if seen {
                // cycle: use what has accumulated so far
                break;
            }
            let found = self.get(current);
            match found {
                None => {
                    break;
                },
                Some(s) => {
                    proof {
                        lemma_lookup_in_ids(catv, current@);
                        let d = cat_ids(catv).difference(visited_set);
                        let d2 = cat_ids(catv).difference(visited_set.insert(current@));
                        assert(d2 =~= d.remove(current@));
                        assert(d.contains(current@));
                        assert(d.remove(current@).len() == d.len() - 1);
                    }
                    let ghost old_chain = chain@;
                    let ghost old_visited = visited@;
                    chain.push(s);
                    visited.push(current);
                    proof {
                        visited_set = visited_set.insert(current@);
                        let vs_old = Seq::new(old_visited.len(), |i: int| old_visited[i]@);
                        let vs_new = Seq::new(visited@.len(), |i: int| visited@[i]@);
                        assert(vs_new =~= vs_old.push(current@));
                        vs_old.lemma_push_to_set_commute(current@);
                        assert(vs_new.to_set() =~= vs_old.to_set().insert(current@));
                        let cv_old = Seq::new(old_chain.len(), |i: int| old_chain[i]@);
                        let cv_new = Seq::new(chain@.len(), |i: int| chain@[i]@);
                        assert(cv_new =~= cv_old.push(s@));
                    }
                    match &s.based_on {
                        Some(base) => {
                            current = base.as_str();
                            proof {
                                let cv_new = Seq::new(chain@.len(), |i: int| chain@[i]@);
                                assert(style_chain(catv, style_id@) =~= cv_new + chain_from(
                                    catv,
                                    current@,
                                    visited_set,
                                ));
                            }
                        },
                        None => {
                            proof {
                                let cv_new = Seq::new(chain@.len(), |i: int| chain@[i]@);
                                assert(style_chain(catv, style_id@) =~= cv_new);
                            }
                            break;
                        },
                    }
                },
            }
        }
        // merge the chain, most derived first, first-set-wins
        let ghost ch = style_chain(catv, style_id@);
        if chain.len() == 0 {
            return None;
        }
        let mut m_style: Option<String> = None;
        let mut m_spacing: Option<Spacing> = None;
        let mut m_ind: Option<Indent> = None;
        let mut m_sz: Option<i32> = None;
        let mut m_rfonts: Option<RFonts> = None;
        let mut i: usize = 0;
        proof {
            assert(ch.skip(0) == ch);
        }
        while i < chain.len()
            invariant
                0 <= i <= chain@.len(),
                ch == Seq::new(chain@.len(), |j: int| chain@[j]@),
                first_pstyle(ch) == (if m_style is Some {
                    opt_str_view(m_style)
                } else {
                    first_pstyle(ch.skip(i as int))
                }),
                first_spacing(ch) == (match m_spacing {
                    Some(s) => Some(s@),
                    None => first_spacing(ch.skip(i as int)),
                }),
                first_ind(ch) == (match m_ind {
                    Some(s) => Some(s@),
                    None => first_ind(ch.skip(i as int)),
                }),
                first_sz(ch) == (if m_sz is Some {
                    m_sz
                } else {
                    first_sz(ch.skip(i as int))
                }),
                first_rfonts(ch) == (match m_rfonts {
                    Some(s) => Some(s@),
                    None => first_rfonts(ch.skip(i as int)),
                }),
            decreases chain@.len() - i,
        {
            proof {
                assert(ch.skip(i as int)[0] == ch[i as int]);
                assert(ch.skip(i as int).drop_first() =~= ch.skip(i + 1));
            }
            let s = chain[i];
            if m_style.is_none() {
                m_style = clone_opt_string(&s.paragraph_props.style);
            }
            if m_spacing.is_none() {
                m_spacing = clone_spacing(&s.paragraph_props.spacing);
            }
            if m_ind.is_none() {
                m_ind = clone_indent(&s.paragraph_props.ind);
            }
            if m_sz.is_none() {
                m_sz = s.run_props.sz;
            }
            if m_rfonts.is_none() {
                m_rfonts = clone_rfonts(&s.run_props.rfonts);
            }
            i += 1;
        }
        proof {
            assert(ch.skip(chain@.len() as int).len() == 0);
        }
        let head = chain[0];
        let out = StyleDefinition {
            style_id: head.style_id.clone(),
            name: head.name.clone(),
            based_on: clone_opt_string(&head.based_on),
            paragraph_props: ParagraphProperties { style: m_style, spacing: m_spacing, ind: m_ind },
            run_props: RunProperties { sz: m_sz, rfonts: m_rfonts },
        };
        proof {
            assert(ch[0] == head@);
            assert(out@ =~= resolve_spec(catv, style_id@).unwrap());
        }
        Some(out)
    }
}

// ---------------------------------------------------------------------------
// Parsing the style part.
// ---------------------------------------------------------------------------

pub open spec fn opt_parse_i32(v: Option<Seq<char>>) -> Option<i32> {
    match v {
        Some(s) => parse_i32_spec(s),
        None => None,
    }
}

/// Paragraph properties read from a `pPr` element, later children winning.
pub open spec fn pprops_fold(cs: Seq<NodeV>, acc: PPropsV) -> PPropsV
    decreases cs.len(),
{
    if cs.len() == 0 {
        acc
    } else {
        pprops_fold(cs.drop_first(), pprops_step(acc, cs[0]))
    }
}

pub open spec fn pprops_step(acc: PPropsV, n: NodeV) -> PPropsV {
    match n {
        NodeV::Elem(c) => {
            if c.name == "spacing"@ {
                PPropsV {
                    spacing: Some(
                        SpacingV {
                            line: opt_parse_i32(attr_value(c, w_ns(), "line"@)),
                            line_rule: attr_value(c, w_ns(), "lineRule"@),
                        },
                    ),
                    ..acc
                }
            } else if c.name == "ind"@ {
                PPropsV {
                    ind: Some(IndentV { first_line: opt_parse_i32(attr_value(c, w_ns(), "firstLine"@)) }),
                    ..acc
                }
            } else if c.name == "pStyle"@ {
                match attr_value(c, w_ns(), "val"@) {
                    Some(v) => PPropsV { style: Some(v), ..acc },
                    None => acc,
                }
            } else {
                acc
            }
        },
        _ => acc,
    }
}

pub open spec fn pprops_of(ppr: ElemV) -> PPropsV {
    pprops_fold(
        ppr.children,
        PPropsV { style: None, spacing: None, ind: None },
    )
}

/// Run properties read from an `rPr` element, later children winning.
pub open spec fn rprops_fold(cs: Seq<NodeV>, acc: RPropsV) -> RPropsV
    decreases cs.len(),
{
    if cs.len() == 0 {
        acc
    } else {
        rprops_fold(cs.drop_first(), rprops_step(acc, cs[0]))
    }
}

pub open spec fn rprops_step(acc: RPropsV, n: NodeV) -> RPropsV {
    match n {
        NodeV::Elem(c) => {
            if c.name == "sz"@ {
                match opt_parse_i32(attr_value(c, w_ns(), "val"@)) {
                    Some(v) => RPropsV { sz: Some(v), ..acc },
                    None => acc,
                }
            } else if c.name == "rFonts"@ {
                RPropsV {
                    rfonts: Some(
                        RFontsV {
                            ascii: attr_value(c, w_ns(), "ascii"@),
                            east_asia: attr_value(c, w_ns(), "eastAsia"@),
                        },
                    ),
                    ..acc
                }
            } else {
                acc
            }
        },
        _ => acc,
    }
}

pub open spec fn rprops_of(rpr: ElemV) -> RPropsV {
    rprops_fold(rpr.children, RPropsV { sz: None, rfonts: None })
}

/// The record built from one `style` element carrying the given id.
pub open spec fn style_of_elem(e: ElemV, id: Seq<char>) -> StyleV {
    StyleV {
        style_id: id,
        name: match first_child_named(e, "name"@) {
            Some(n) => match attr_value(n, w_ns(), "val"@) {
                Some(v) => v,
                None => id,
            },
            None => id,
        },
        based_on: match first_child_named(e, "basedOn"@) {
            Some(n) => attr_value(n, w_ns(), "val"@),
            None => None,
        },
        pprops: match first_child_named(e, "pPr"@) {
            Some(p) => pprops_of(p),
            None => PPropsV { style: None, spacing: None, ind: None },
        },
        rprops: match first_child_named(e, "rPr"@) {
            Some(p) => rprops_of(p),
            None => RPropsV { sz: None, rfonts: None },
        },
    }
}

/// The catalog built from the style part's root: every `style` child that
/// carries an id contributes a record, in document order.
pub open spec fn catalog_fold(cs: Seq<NodeV>, acc: Seq<StyleV>) -> Seq<StyleV>
    decreases cs.len(),
{
    if cs.len() == 0 {
        acc
    } else {
        catalog_fold(cs.drop_first(), catalog_step(acc, cs[0]))
    }
}

pub open spec fn catalog_step(acc: Seq<StyleV>, n: NodeV) -> Seq<StyleV> {
    match n {
        NodeV::Elem(c) => {
            if c.name == "style"@ {
                match attr_value(c, w_ns(), "styleId"@) {
                    Some(id) => acc.push(style_of_elem(c, id)),
                    None => acc,
                }
            } else {
                acc
            }
        },
        _ => acc,
    }
}

pub open spec fn catalog_of(root: ElemV) -> Seq<StyleV> {
    catalog_fold(root.children, Seq::empty())
}

fn parse_pprops(ppr: &XmlElem) -> (r: ParagraphProperties)
    ensures
        r@ == pprops_of(ppr@),
{
    let mut style: Option<String> = None;
    let mut spacing: Option<Spacing> = None;
    let mut ind: Option<Indent> = None;
    let n = ppr.child_count();
    let ghost cs = ppr@.children;
    proof {
        assert(cs.skip(0) == cs);
    }
    let mut i: usize = 0;
    while i < n
        invariant
            0 <= i <= n,
            n == ppr@.children.len(),
            cs == ppr@.children,
            pprops_of(ppr@) == pprops_fold(
                cs.skip(i as int),
                PPropsV {
                    style: opt_str_view(style),
                    spacing: match spacing {
                        Some(s) => Some(s@),
                        None => None,
                    },
                    ind: match ind {
                        Some(s) => Some(s@),
                        None => None,
                    },
                },
            ),
        decreases n - i,
    {
        proof {
            assert(cs.skip(i as int)[0] == cs[i as int]);
            assert(cs.skip(i as int).drop_first() =~= cs.skip(i + 1));
        }
        match ppr.child_at(i) {
            XmlNode::Elem(c) => {
                if c.named("spacing") {
                    let line = match c.attr("http://schemas.openxmlformats.org/wordprocessingml/2006/main", "line") {
                        Some(v) => {
                            let cv = str_chars(v.as_str());
                            parse_i32(&cv)
                        },
                        None => None,
                    };
                    let line_rule = match c.attr("http://schemas.openxmlformats.org/wordprocessingml/2006/main", "lineRule") {
                        Some(v) => Some(v.clone()),
                        None => None,
                    };
                    spacing = Some(Spacing { line, line_rule });
                } else if c.named("ind") {
                    let first_line = match c.attr("http://schemas.openxmlformats.org/wordprocessingml/2006/main", "firstLine") {
                        Some(v) => {
                            let cv = str_chars(v.as_str());
                            parse_i32(&cv)
                        },
                        None => None,
                    };
                    ind = Some(Indent { first_line });
                } else if c.named("pStyle") {
                    match c.attr("http://schemas.openxmlformats.org/wordprocessingml/2006/main", "val") {
                        Some(v) => {
                            style = Some(v.clone());
                        },
                        None => {},
                    }
                }
            },
            _ => {},
        }
        i += 1;
    }
    proof {
        assert(cs.skip(n as int).len() == 0);
    }
    ParagraphProperties { style, spacing, ind }
}

fn parse_rprops(rpr: &XmlElem) -> (r: RunProperties)
    ensures
        r@ == rprops_of(rpr@),
{
    let mut sz: Option<i32> = None;
    let mut rfonts: Option<RFonts> = None;
    let n = rpr.child_count();
    let ghost cs = rpr@.children;
    proof {
        assert(cs.skip(0) == cs);
    }
    let mut i: usize = 0;
    while i < n
        invariant
            0 <= i <= n,
            n == rpr@.children.len(),
            cs == rpr@.children,
            rprops_of(rpr@) == rprops_fold(
                cs.skip(i as int),
                RPropsV {
                    sz: sz,
                    rfonts: match rfonts {
                        Some(f) => Some(f@),
                        None => None,
                    },
                },
            ),
        decreases n - i,
    {
        proof {
            assert(cs.skip(i as int)[0] == cs[i as int]);
            assert(cs.skip(i as int).drop_first() =~= cs.skip(i + 1));
        }
        match rpr.child_at(i) {
            XmlNode::Elem(c) => {
                if c.named("sz") {
                    match c.attr("http://schemas.openxmlformats.org/wordprocessingml/2006/main", "val") {
                        Some(v) => {
                            let cv = str_chars(v.as_str());
                            match parse_i32(&cv) {
                                Some(x) => {
                                    sz = Some(x);
                                },
                                None => {},
                            }
                        },
                        None => {},
                    }
                } else if c.named("rFonts") {
                    let ascii = match c.attr("http://schemas.openxmlformats.org/wordprocessingml/2006/main", "ascii") {
                        Some(v) => Some(v.clone()),
                        None => None,
                    };
                    let east_asia = match c.attr("http://schemas.openxmlformats.org/wordprocessingml/2006/main", "eastAsia") {
                        Some(v) => Some(v.clone()),
                        None => None,
                    };
                    rfonts = Some(RFonts { ascii, east_asia });
                }
            },
            _ => {},
        }
        i += 1;
    }
    proof {
        assert(cs.skip(n as int).len() == 0);
    }
    RunProperties { sz, rfonts }
}

/// Build the catalog from the parsed style part.
///
/// Unknown or unsupported properties are ignored; the parse never fails.
pub fn parse_styles_root(root: &XmlElem) -> (r: StyleCatalog)
    ensures
        r@ == catalog_of(root@),
{
    let mut cat = StyleCatalog::new();
    let n = root.child_count();
    let ghost cs = root@.children;
    proof {
        assert(cs.skip(0) == cs);
        assert(cat@ =~= Seq::<StyleV>::empty());
    }
    let mut i: usize = 0;
    while i < n
        invariant
            0 <= i <= n,
            n == root@.children.len(),
            cs == root@.children,
            catalog_of(root@) == catalog_fold(cs.skip(i as int), cat@),
        decreases n - i,
    {
        proof {
            assert(cs.skip(i as int)[0] == cs[i as int]);
            assert(cs.skip(i as int).drop_first() =~= cs.skip(i + 1));
        }
        match root.child_at(i) {
            XmlNode::Elem(c) => {
                if c.named("style") {
                    match c.attr("http://schemas.openxmlformats.org/wordprocessingml/2006/main", "styleId") {
                        Some(idv) => {
                            let style_id = idv.clone();
                            let name = match c.find_child("name") {
                                Some(nm) => match nm.attr("http://schemas.openxmlformats.org/wordprocessingml/2006/main", "val") {
                                    Some(v) => v.clone(),
                                    None => style_id.clone(),
                                },
                                None => style_id.clone(),
                            };
                            let based_on = match c.find_child("basedOn") {
                                Some(b) => match b.attr("http://schemas.openxmlformats.org/wordprocessingml/2006/main", "val") {
                                    Some(v) => Some(v.clone()),
                                    None => None,
                                },
                                None => None,
                            };
                            let paragraph_props = match c.find_child("pPr") {
                                Some(p) => parse_pprops(p),
                                None => ParagraphProperties {
                                    style: None,
                                    spacing: None,
                                    ind: None,
                                },
                            };
                            let run_props = match c.find_child("rPr") {
                                Some(p) => parse_rprops(p),
                                None => RunProperties { sz: None, rfonts: None },
                            };
                            let ghost before = cat@;
                            cat.styles.push(
                                StyleDefinition {
                                    style_id,
                                    name,
                                    based_on,
                                    paragraph_props,
                                    run_props,
                                },
                            );
                            proof {
                                assert(cat@ =~= before.push(style_of_elem(
                                    cs[i as int]->Elem_0,
                                    idv@,
                                )));
                            }
                        },
                        None => {},
                    }
                }
            },
            _ => {},
        }
        i += 1;
    }
    proof {
        assert(cs.skip(n as int).len() == 0);
    }
    cat
}

/// The built-in default style: 12pt, a fallback family, and the standard
/// line spacing, applied whenever resolution yields nothing.
pub fn default_style() -> (r: StyleDefinition)
    ensures
        r@ == default_style_spec(),
{
    StyleDefinition {
        style_id: String::from_str("Default"),
        name: String::from_str("Default"),
        based_on: None,
        paragraph_props: ParagraphProperties {
            style: Some(String::from_str("Normal")),
            spacing: Some(
                Spacing { line: Some(240), line_rule: Some(String::from_str("auto")) },
            ),
            ind: None,
        },
        run_props: RunProperties {
            sz: Some(24),
            rfonts: Some(
                RFonts {
                    ascii: Some(String::from_str("Times New Roman")),
                    east_asia: Some(String::from_str("\u{5B8B}\u{4F53}")),
                },
            ),
        },
    }
}

pub open spec fn default_style_spec() -> StyleV {
    StyleV {
        style_id: "Default"@,
        name: "Default"@,
        based_on: None,
        pprops: PPropsV {
            style: Some("Normal"@),
            spacing: Some(SpacingV { line: Some(240), line_rule: Some("auto"@) }),
            ind: None,
        },
        rprops: RPropsV {
            sz: Some(24),
            rfonts: Some(
                RFontsV { ascii: Some("Times New Roman"@), east_asia: Some("\u{5B8B}\u{4F53}"@) },
            ),
        },
    }
}

// ---------------------------------------------------------------------------
// Stated laws of the resolver.
// ---------------------------------------------------------------------------

/// Resolution is a function of the catalog and the id alone: two
/// resolutions of the same id over the same catalog yield the same result.
pub proof fn lemma_resolve_repeatable(cat: Seq<StyleV>, id: Seq<char>, a: Option<StyleV>, b: Option<StyleV>)
    requires
        a == resolve_spec(cat, id),
        b == resolve_spec(cat, id),
    ensures
        a == b,
{
}

/// Resolving an id the catalog holds always yields a result, also when its
/// inheritance chain cycles: the walk stops at the first revisited id and
/// what has accumulated is used.
pub proof fn lemma_resolve_known_id_yields(cat: Seq<StyleV>, id: Seq<char>)
    requires
        cat_lookup(cat, id) is Some,
    ensures
        resolve_spec(cat, id) is Some,
{
    assert(style_chain(cat, id).len() > 0);
}

} // verus!
