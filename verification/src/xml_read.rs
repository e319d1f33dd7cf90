//! Bridge from the markup parser to the library's tree model. The outside
//! parser builds its own node arena; the trusted items below expose one node
//! at a time, and the verified builder copies the whole tree into `XmlElem`.

use vstd::prelude::*;

use crate::xml::{
    attr_view, elem_view, lemma_nodes_view_push, AttrV, ElemV, NodeV, XmlAttr, XmlElem, XmlNode,
};

verus! {

/// Declares the markup parser's document type; it stays opaque.
#[verifier::external_type_specification]
#[verifier::external_body]
pub struct ExDocument<'input>(roxmltree::Document<'input>);

/// Declares the markup parser's node handle; `node_model` names what the
/// subtree under a handle holds.
#[verifier::external_type_specification]
#[verifier::external_body]
pub struct ExNode<'a, 'input: 'a>(roxmltree::Node<'a, 'input>);

/// What parsing a text yields: the model of its root element, or nothing
/// when the text is not well-formed XML. A function of the text alone.
pub uninterp spec fn xml_parse(s: Seq<char>) -> Option<ElemV>;

/// The model of the subtree rooted at one node of a parsed document.
pub uninterp spec fn node_model(n: roxmltree::Node) -> NodeV;

/// Relies on roxmltree::Document::parse: it succeeds exactly on well-formed
/// XML and builds a node tree for it.
#[verifier::external_body]
fn parse_document(s: &str) -> (r: Result<roxmltree::Document<'_>, String>)
    ensures
        r matches Ok(d) ==> xml_parse(s@) matches Some(root) && node_model_of_root(&d) == root,
        r is Err ==> xml_parse(s@) is None,
{
    match roxmltree::Document::parse(s) {
        Ok(d) => Ok(d),
        Err(e) => Err(format!("{}", e)),
    }
}

/// The model of a parsed document's root element.
pub uninterp spec fn node_model_of_root(d: &roxmltree::Document) -> ElemV;

/// Relies on roxmltree::Document::root_element: it returns the document's
/// root element node.
#[verifier::external_body]
fn root_elem<'a, 'input>(d: &'a roxmltree::Document<'input>) -> (n: roxmltree::Node<'a, 'input>)
    ensures
        node_model(n) == NodeV::Elem(node_model_of_root(d)),
{
    d.root_element()
}

/// Relies on roxmltree::Node::is_element.
#[verifier::external_body]
fn node_is_element(n: roxmltree::Node) -> (r: bool)
    ensures
        r == (node_model(n) is Elem),
{
    n.is_element()
}

/// Relies on roxmltree::Node::is_text.
#[verifier::external_body]
fn node_is_text(n: roxmltree::Node) -> (r: bool)
    ensures
        r == (node_model(n) is Text),
{
    n.is_text()
}

/// Relies on roxmltree::Node::tag_name: the local part of an element's name.
#[verifier::external_body]
fn node_tag_name(n: roxmltree::Node) -> (r: String)
    requires
        node_model(n) is Elem,
    ensures
        r@ == node_model(n)->Elem_0.name,
{
    n.tag_name().name().to_string()
}

/// Relies on roxmltree::Node::text: for a text node it returns the content.
#[verifier::external_body]
fn node_text_content(n: roxmltree::Node) -> (r: String)
    requires
        node_model(n) is Text,
    ensures
        r@ == node_model(n)->Text_0,
{
    match n.text() {
        Some(t) => t.to_string(),
        None => String::new(),
    }
}

/// Relies on roxmltree::Node::children: the node's children in document order.
#[verifier::external_body]
fn node_child_count(n: roxmltree::Node) -> (r: usize)
    requires
        node_model(n) is Elem,
    ensures
        r == node_model(n)->Elem_0.children.len(),
{
    n.children().count()
}

/// Relies on roxmltree::Node::children: the i-th child in document order.
#[verifier::external_body]
fn node_child<'a, 'input>(n: roxmltree::Node<'a, 'input>, i: usize) -> (r: roxmltree::Node<
    'a,
    'input,
>)
    requires
        node_model(n) is Elem,
        i < node_model(n)->Elem_0.children.len(),
    ensures
        node_model(r) == node_model(n)->Elem_0.children[i as int],
{
    n.children().nth(i).unwrap()
}

/// Relies on roxmltree::Node::attributes: the element's attribute count.
#[verifier::external_body]
fn node_attr_count(n: roxmltree::Node) -> (r: usize)
    requires
        node_model(n) is Elem,
    ensures
        r == node_model(n)->Elem_0.attrs.len(),
{
    n.attributes().count()
}

/// Relies on roxmltree::Node::attributes: the i-th attribute's expanded
/// namespace, local name and value.
#[verifier::external_body]
fn node_attr_at(n: roxmltree::Node, i: usize) -> (r: XmlAttr)
    requires
        node_model(n) is Elem,
        i < node_model(n)->Elem_0.attrs.len(),
    ensures
        attr_view(r) == node_model(n)->Elem_0.attrs[i as int],
{
    let a = n.attributes().nth(i).unwrap();
    XmlAttr {
        ns: a.namespace().map(|s| s.to_string()),
        name: a.name().to_string(),
        value: a.value().to_string(),
    }
}

/// Copy the subtree at `n` into the library's model.
fn build_elem(n: roxmltree::Node) -> (r: XmlElem)
    requires
        node_model(n) is Elem,
    ensures
        elem_view(r) == node_model(n)->Elem_0,
    decreases node_model(n),
{
    let ghost ev = node_model(n)->Elem_0;
    let name = node_tag_name(n);

    let attr_n = node_attr_count(n);
    let mut attrs: Vec<XmlAttr> = Vec::new();
    let mut i: usize = 0;
    while i < attr_n
        invariant
            0 <= i <= attr_n,
            node_model(n) is Elem,
            ev == node_model(n)->Elem_0,
            attr_n == ev.attrs.len(),
            attrs@.len() == i,
            forall|j: int| 0 <= j < i ==> attr_view(attrs@[j]) == ev.attrs[j],
        decreases attr_n - i,
    {
        attrs.push(node_attr_at(n, i));
        i += 1;
    }

    let child_n = node_child_count(n);
    let mut children: Vec<XmlNode> = Vec::new();
    let mut k: usize = 0;
    while k < child_n
        invariant
            0 <= k <= child_n,
            node_model(n) is Elem,
            ev == node_model(n)->Elem_0,
            child_n == ev.children.len(),
            crate::xml::nodes_view(children@) =~= ev.children.subrange(0, k as int),
        decreases child_n - k,
    {
        let c = node_child(n, k);
        proof {
            assert(decreases_to!(node_model(n) => node_model(n)->Elem_0));
            assert(decreases_to!(node_model(n)->Elem_0 => node_model(n)->Elem_0.children));
            assert(decreases_to!(
                node_model(n)->Elem_0.children => node_model(n)->Elem_0.children[k as int]));
        }
        let node: XmlNode = if node_is_element(c) {
            let sub = build_elem(c);
            XmlNode::Elem(sub)
        } else if node_is_text(c) {
            XmlNode::Text(node_text_content(c))
        } else {
            XmlNode::Other
        };
        proof {
            lemma_nodes_view_push(children@, node);
            assert(crate::xml::node_view(node) == ev.children[k as int]);
            assert(crate::xml::nodes_view(children@.push(node)) =~= ev.children.subrange(
                0,
                k + 1,
            ));
        }
        children.push(node);
        k += 1;
    }

    let out = XmlElem { name, attrs, children };
    proof {
        assert(ev.children.subrange(0, ev.children.len() as int) =~= ev.children);
        assert(elem_view(out) =~= ev);
    }
    out
}

/// Parse a markup text into the library's tree model.
///
/// Succeeds exactly when the text is well-formed XML; the result is the
/// model of the root element.
pub fn parse_xml(s: &str) -> (r: Result<XmlElem, String>)
    ensures
        r matches Ok(e) ==> xml_parse(s@) == Some(e@),
        r is Err ==> xml_parse(s@) is None,
{
    match parse_document(s) {
        Ok(d) => {
            let root = root_elem(&d);
            let e = build_elem(root);
            Ok(e)
        },
        Err(msg) => Err(msg),
    }
}

} // verus!
