//! In-memory model of a parsed markup part: a tree of elements, text nodes
//! and other (comment or processing-instruction) nodes, with namespace-aware
//! attributes. All queries the extraction stages need are verified here.

use vstd::prelude::*;

use crate::textutil::str_eq;

verus! {

/// One attribute of an element; `ns` is the expanded namespace URI, if any.
#[derive(Debug)]
pub struct XmlAttr {
    pub ns: Option<String>,
    pub name: String,
    pub value: String,
}

/// One child of an element, in document order.
#[derive(Debug)]
pub enum XmlNode {
    Elem(XmlElem),
    Text(String),
    Other,
}

/// An element: local tag name, attributes, and children in document order.
#[derive(Debug)]
pub struct XmlElem {
    pub name: String,
    pub attrs: Vec<XmlAttr>,
    pub children: Vec<XmlNode>,
}

// ---------------------------------------------------------------------------
// Mathematical views.
// ---------------------------------------------------------------------------

#[verifier::ext_equal]
pub struct AttrV {
    pub ns: Option<Seq<char>>,
    pub name: Seq<char>,
    pub value: Seq<char>,
}

#[verifier::ext_equal]
pub enum NodeV {
    Elem(ElemV),
    Text(Seq<char>),
    Other,
}

#[verifier::ext_equal]
pub struct ElemV {
    pub name: Seq<char>,
    pub attrs: Seq<AttrV>,
    pub children: Seq<NodeV>,
}

pub open spec fn attr_view(a: XmlAttr) -> AttrV {
    AttrV {
        ns: match a.ns {
            Some(s) => Some(s@),
            None => None,
        },
        name: a.name@,
        value: a.value@,
    }
}

pub open spec fn node_view(n: XmlNode) -> NodeV
    decreases n,
{
    match n {
        XmlNode::Elem(e) => NodeV::Elem(elem_view(e)),
        XmlNode::Text(s) => NodeV::Text(s@),
        XmlNode::Other => NodeV::Other,
    }
}

pub open spec fn nodes_view(s: Seq<XmlNode>) -> Seq<NodeV>
    decreases s,
{
    if s.len() == 0 {
        Seq::empty()
    } else {
        seq![node_view(s[0])] + nodes_view(s.drop_first())
    }
}

pub open spec fn elem_view(e: XmlElem) -> ElemV
    decreases e,
{
    ElemV {
        name: e.name@,
        attrs: Seq::new(e.attrs@.len(), |i: int| attr_view(e.attrs@[i])),
        children: nodes_view(e.children@),
    }
}

impl View for XmlElem {
    type V = ElemV;

    open spec fn view(&self) -> ElemV {
        elem_view(*self)
    }
}

pub proof fn lemma_nodes_view_len(s: Seq<XmlNode>)
    ensures
        nodes_view(s).len() == s.len(),
    decreases s,
{
    if s.len() > 0 {
        lemma_nodes_view_len(s.drop_first());
    }
}

pub proof fn lemma_nodes_view_push(s: Seq<XmlNode>, x: XmlNode)
    ensures
        nodes_view(s.push(x)) == nodes_view(s).push(node_view(x)),
    decreases s,
{
    if s.len() == 0 {
        assert(s.push(x).len() == 1);
        assert(s.push(x)[0] == x);
        assert(s.push(x).drop_first() =~= Seq::<XmlNode>::empty());
        assert(nodes_view(s.push(x)) == seq![node_view(x)] + nodes_view(
            Seq::<XmlNode>::empty(),
        ));
        assert(nodes_view(Seq::<XmlNode>::empty()) =~= Seq::<NodeV>::empty());
        assert(nodes_view(s) =~= Seq::<NodeV>::empty());
        assert(nodes_view(s.push(x)) =~= nodes_view(s).push(node_view(x)));
    } else {
        assert(s.push(x).drop_first() =~= s.drop_first().push(x));
        lemma_nodes_view_push(s.drop_first(), x);
        assert(nodes_view(s.push(x)) =~= nodes_view(s).push(node_view(x)));
    }
}

pub proof fn lemma_nodes_view_index(s: Seq<XmlNode>, i: int)
    requires
        0 <= i < s.len(),
    ensures
        nodes_view(s).len() == s.len(),
        nodes_view(s)[i] == node_view(s[i]),
    decreases s,
{
    lemma_nodes_view_len(s);
    if i > 0 {
        lemma_nodes_view_index(s.drop_first(), i - 1);
    }
}

// ---------------------------------------------------------------------------
// Spec-level queries.
// ---------------------------------------------------------------------------

/// First element among `cs` whose local name is `name`.
pub open spec fn first_elem_named(cs: Seq<NodeV>, name: Seq<char>) -> Option<ElemV>
    decreases cs.len(),
{
    if cs.len() == 0 {
        None
    } else if cs[0] matches NodeV::Elem(e) && e.name == name {
        Some(cs[0]->Elem_0)
    } else {
        first_elem_named(cs.drop_first(), name)
    }
}

/// First child element of `e` with the given local name.
pub open spec fn first_child_named(e: ElemV, name: Seq<char>) -> Option<ElemV> {
    first_elem_named(e.children, name)
}

pub open spec fn has_child_named(e: ElemV, name: Seq<char>) -> bool {
    first_child_named(e, name) is Some
}

/// Value of the first attribute with the given namespace and local name.
pub open spec fn attr_in(attrs: Seq<AttrV>, ns: Seq<char>, name: Seq<char>) -> Option<Seq<char>>
    decreases attrs.len(),
{
    if attrs.len() == 0 {
        None
    } else if attrs[0].ns == Some(ns) && attrs[0].name == name {
        Some(attrs[0].value)
    } else {
        attr_in(attrs.drop_first(), ns, name)
    }
}

pub open spec fn attr_value(e: ElemV, ns: Seq<char>, name: Seq<char>) -> Option<Seq<char>> {
    attr_in(e.attrs, ns, name)
}

/// All text below the element, concatenated in document order.
pub open spec fn text_of_nodes(cs: Seq<NodeV>) -> Seq<char>
    decreases cs,
{
    if cs.len() == 0 {
        Seq::empty()
    } else {
        (match cs[0] {
            NodeV::Elem(e) => text_of_elem(e),
            NodeV::Text(s) => s,
            NodeV::Other => Seq::empty(),
        }) + text_of_nodes(cs.drop_first())
    }
}

pub open spec fn text_of_elem(e: ElemV) -> Seq<char>
    decreases e,
{
    text_of_nodes(e.children)
}

// ---------------------------------------------------------------------------
// Executable queries.
// ---------------------------------------------------------------------------

impl XmlElem {
    /// Number of children.
    pub fn child_count(&self) -> (r: usize)
        ensures
            r == self@.children.len(),
    {
        proof {
            lemma_nodes_view_len(self.children@);
        }
        self.children.len()
    }

    /// The `i`-th child, as the view sees it.
    pub fn child_at(&self, i: usize) -> (r: &XmlNode)
        requires
            i < self@.children.len(),
        ensures
            node_view(*r) == self@.children[i as int],
    {
        proof {
            lemma_nodes_view_len(self.children@);
            lemma_nodes_view_index(self.children@, i as int);
        }
        &self.children[i]
    }

    /// Whether this element's local name is `name`.
    pub fn named(&self, name: &str) -> (r: bool)
        ensures
            r == (self@.name == name@),
    {
        str_eq(self.name.as_str(), name)
    }

    /// First child element with the given local name.
    pub fn find_child(&self, name: &str) -> (r: Option<&XmlElem>)
        ensures
            match r {
                Some(c) => first_child_named(self@, name@) == Some(c@),
                None => first_child_named(self@, name@) is None,
            },
    {
        let n = self.children.len();
        proof {
            lemma_nodes_view_len(self.children@);
            assert(self@.children.skip(0) == self@.children);
        }
        let mut i: usize = 0;
        while i < n
            invariant
                0 <= i <= n,
                n == self.children@.len(),
                nodes_view(self.children@).len() == n,
                first_elem_named(self@.children, name@) == first_elem_named(
                    self@.children.skip(i as int),
                    name@,
                ),
            decreases n - i,
        {
            proof {
                lemma_nodes_view_index(self.children@, i as int);
                assert(self@.children.skip(i as int)[0] == self@.children[i as int]);
                assert(self@.children.skip(i as int).drop_first() =~= self@.children.skip(i + 1));
            }
            match &self.children[i] {
                XmlNode::Elem(c) => {
                    if str_eq(c.name.as_str(), name) {
                        return Some(c);
                    }
                },
                _ => {},
            }
            i += 1;
        }
        None
    }

    /// Value of the first attribute matching namespace and local name.
    pub fn attr(&self, ns: &str, name: &str) -> (r: Option<&String>)
        ensures
            match r {
                Some(v) => attr_value(self@, ns@, name@) == Some(v@),
                None => attr_value(self@, ns@, name@) is None,
            },
    {
        let n = self.attrs.len();
        let ghost av = Seq::new(self.attrs@.len(), |i: int| attr_view(self.attrs@[i]));
        proof {
            assert(av.skip(0) == av);
        }
        let mut i: usize = 0;
        while i < n
            invariant
                0 <= i <= n,
                n == self.attrs@.len(),
                av == Seq::new(self.attrs@.len(), |j: int| attr_view(self.attrs@[j])),
                av == self@.attrs,
                attr_in(self@.attrs, ns@, name@) == attr_in(av.skip(i as int), ns@, name@),
            decreases n - i,
        {
            proof {
                assert(av.skip(i as int)[0] == av[i as int]);
                assert(av.skip(i as int).drop_first() =~= av.skip(i + 1));
            }
            let a = &self.attrs[i];
            let ns_match = match &a.ns {
                Some(s) => str_eq(s.as_str(), ns),
                None => false,
            };
            if ns_match && str_eq(a.name.as_str(), name) {
                return Some(&a.value);
            }
            i += 1;
        }
        None
    }

    /// All text below this element, in document order.
    pub fn all_text(&self) -> (r: Vec<char>)
        ensures
            r@ == text_of_elem(self@),
    {
        let mut out: Vec<char> = Vec::new();
        self.push_text(&mut out);
        out
    }

    fn push_text(&self, out: &mut Vec<char>)
        ensures
            final(out)@ == old(out)@ + text_of_elem(self@),
        decreases *self,
    {
        let n = self.children.len();
        proof {
            lemma_nodes_view_len(self.children@);
            assert(self@.children.skip(0) == self@.children);
            assert(old(out)@ + text_of_nodes(self@.children.skip(0)) == old(out)@ + text_of_elem(
                self@,
            ));
        }
        let mut i: usize = 0;
        while i < n
            invariant
                0 <= i <= n,
                n == self.children@.len(),
                out@ + text_of_nodes(self@.children.skip(i as int)) == old(out)@ + text_of_elem(
                    self@,
                ),
            decreases n - i,
        {
            proof {
                lemma_nodes_view_index(self.children@, i as int);
                assert(self@.children.skip(i as int)[0] == self@.children[i as int]);
                assert(self@.children.skip(i as int).drop_first() =~= self@.children.skip(i + 1));
            }
            match &self.children[i] {
                XmlNode::Elem(c) => {
                    proof {
                        assert(decreases_to!(*self => self.children));
                        assert(decreases_to!(self.children => self.children@));
                        assert(decreases_to!(self.children@ => self.children@[i as int]));
                        assert(decreases_to!(self.children@[i as int] => *c));
                    }
                    c.push_text(out);
                },
                XmlNode::Text(s) => {
                    let mut cs = crate::textutil::str_chars(s.as_str());
                    out.append(&mut cs);
                },
                XmlNode::Other => {},
            }
            i += 1;
        }
        proof {
            assert(self@.children.skip(n as int).len() == 0);
            assert(out@ =~= old(out)@ + text_of_elem(self@));
        }
    }
}

} // verus!
