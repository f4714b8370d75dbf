//! The trusted boundary to the outside HTML parser. Text becomes the
//! codec's own document tree and the tree becomes text again only here;
//! what the parser and the printer yield for given input is named, not
//! written out, and everything downstream is verified against those names.

use vstd::prelude::*;

use crate::dom::{Attribute, Dom, ElementKind, SourceCharacter, TagSpan};

verus! {

#[verifier::external_type_specification]
#[verifier::external_body]
pub struct ExLithtmlNode<'s>(lithtml::Node<'s>);

#[verifier::external_type_specification]
#[verifier::external_body]
pub struct ExLithtmlElement<'s>(lithtml::Element<'s>);

/// The tree the outside parser yields for this text, if it parses: a
/// function of the text alone. The text must be valid UTF-8, or parsing is
/// refused.
pub uninterp spec fn html_parse_of(text: Seq<u8>) -> Option<Dom>;

/// The text the outside printer writes for this list of root nodes: a
/// function of the nodes alone. Attributes are printed sorted by name, so
/// the order they are held in does not reach the output.
pub uninterp spec fn html_text_of(nodes: Seq<crate::dom::DomNode>) -> Seq<u8>;

/// Relies on lithtml's `Dom::parse`: a deterministic parse of the text,
/// lifted into the codec's own tree with attributes sorted by name.
#[verifier::external_body]
pub(crate) fn parse_html(text: &Vec<u8>) -> (r: Option<Dom>)
    ensures
        r == html_parse_of(text@),
{
    let s = match core::str::from_utf8(text) {
        Ok(s) => s,
        Err(_) => return None,
    };
    match lithtml::Dom::parse(s) {
        Ok(d) => Some(Dom { children: lift_nodes(&d.children) }),
        Err(_) => None,
    }
}

/// Relies on lithtml's `Display` for `Dom`: a deterministic print of the
/// tree, with attributes written in sorted order whatever order they are
/// held in.
#[verifier::external_body]
pub(crate) fn print_html(dom: &Dom) -> (r: Vec<u8>)
    ensures
        r@ == html_text_of(dom.children@),
{
    let lowered = lithtml::Dom {
        tree_type: lithtml::DomVariant::Document,
        children: dom.children.iter().map(lower_node).collect(),
        warnings: vec![],
    };
    lowered.to_string().into_bytes()
}

/// Relies on lithtml's public node layout: copies each parsed node into the
/// codec's tree, one for one.
#[verifier::external_body]
fn lift_nodes(nodes: &[lithtml::Node]) -> (r: Vec<crate::dom::DomNode>) {
    nodes.iter().map(lift_node).collect()
}

/// Relies on lithtml's public node layout: copies one parsed node, variant
/// for variant.
#[verifier::external_body]
fn lift_node(node: &lithtml::Node) -> (r: crate::dom::DomNode) {
    match node {
        lithtml::Node::Element(el) => crate::dom::DomNode::DomElement(lift_element(el)),
        lithtml::Node::Text(t) => crate::dom::DomNode::Text(t.as_bytes().to_vec()),
        lithtml::Node::Comment(c) => crate::dom::DomNode::Comment(c.as_bytes().to_vec()),
    }
}

/// Relies on lithtml's public element layout: copies name, kind, classes,
/// span and children, attributes ordered by name as the printer itself
/// orders them.
#[verifier::external_body]
fn lift_element(el: &lithtml::Element) -> (r: crate::dom::DomElement) {
    crate::dom::DomElement {
        name: el.name.as_bytes().to_vec(),
        kind: match el.variant {
            lithtml::ElementVariant::Normal => ElementKind::Normal,
            lithtml::ElementVariant::Void => ElementKind::Void,
        },
        attributes: lift_attrs(el),
        classes: el.classes.iter().map(|c| c.as_bytes().to_vec()).collect(),
        children: lift_nodes(&el.children),
        span: lift_span(el),
    }
}

/// Relies on lithtml's public attribute map: copies each entry, sorted by
/// name.
#[verifier::external_body]
fn lift_attrs(el: &lithtml::Element) -> (r: Vec<Attribute>) {
    let ordered: std::collections::BTreeMap<_, _> = el.attributes.iter().collect();
    ordered.into_iter().map(|(k, v)| Attribute {
        name: k.as_bytes().to_vec(),
        value: v.as_ref().map(|v| v.as_bytes().to_vec()),
    }).collect()
}

/// Relies on lithtml's public span fields: copies the four positions.
#[verifier::external_body]
fn lift_span(el: &lithtml::Element) -> (r: TagSpan) {
    TagSpan {
        start: SourceCharacter {
            line: el.source_span.start_line,
            column: el.source_span.start_column,
        },
        end: SourceCharacter { line: el.source_span.end_line, column: el.source_span.end_column },
    }
}

/// Relies on lithtml's public node layout: copies one of the codec's nodes
/// back into the parser's shape, variant for variant. The codec's byte
/// strings are ASCII, so the lossy copy is one for one.
#[verifier::external_body]
fn lower_node(node: &crate::dom::DomNode) -> (r: lithtml::Node<'static>) {
    let own = |v: &Vec<u8>| std::borrow::Cow::Owned(String::from_utf8_lossy(v).into_owned());
    match node {
        crate::dom::DomNode::DomElement(el) => lithtml::Node::Element(lower_element(el)),
        crate::dom::DomNode::Text(t) => lithtml::Node::Text(own(t)),
        crate::dom::DomNode::Comment(c) => lithtml::Node::Comment(own(c)),
    }
}

/// Relies on lithtml's public element layout: copies name, kind, classes
/// and children back; the span text is not part of what the printer reads.
#[verifier::external_body]
fn lower_element(el: &crate::dom::DomElement) -> (r: lithtml::Element<'static>) {
    let own = |v: &Vec<u8>| std::borrow::Cow::Owned(String::from_utf8_lossy(v).into_owned());
    lithtml::Element {
        name: own(&el.name),
        variant: match el.kind {
            ElementKind::Normal => lithtml::ElementVariant::Normal,
            ElementKind::Void => lithtml::ElementVariant::Void,
        },
        attributes: el.attributes.iter().map(|a| (own(&a.name), a.value.as_ref().map(|v| own(v)))).collect(),
        classes: el.classes.iter().map(|c| own(c)).collect(),
        children: el.children.iter().map(lower_node).collect(),
        ..lithtml::Element::default()
    }
}

} // verus!
