//! Reading the structured sub-header: the accumulated text is handed to an
//! external XML tree parser, and the resulting element is moved field by
//! field into the library's own tree type. Nothing is promised of the
//! resulting tree beyond what the library later does with it.
use crate::attr::XmlAttr;
use crate::data::XmlTree;
use vstd::prelude::*;

verus! {

#[verifier::external_type_specification]
#[verifier::external_body]
pub struct ExElement(xmltree::Element);

/// Relies on xmltree::Element::parse: reads one XML element tree from the
/// text, or fails.
#[verifier::external_body]
fn parse_xml_element(text: &[u8]) -> (r: Option<xmltree::Element>) {
    xmltree::Element::parse(text).ok()
}

/// Relies on the public fields of xmltree::Element: name, attributes and
/// children, and on Element::get_text for the concatenated text content;
/// each is moved one for one into the library's tree.
#[verifier::external_body]
fn tree_of_element(e: &xmltree::Element) -> (r: XmlTree) {
    let mut attributes = XmlAttr::new();
    for (k, v) in &e.attributes {
        attributes.insert(k.clone().into_bytes(), v.clone().into_bytes());
    }
    XmlTree {
        name: e.name.clone().into_bytes(),
        attributes,
        text: e.get_text().map(|t| t.into_owned().into_bytes()),
        children: e.children.iter().filter_map(|n| n.as_element()).map(
            |c| tree_of_element(c),
        ).collect(),
    }
}

/// Parse the structured sub-header text into the library's tree type, if it
/// is a well-formed element tree.
pub fn parse_xml_tree(text: &[u8]) -> (r: Option<XmlTree>) {
    match parse_xml_element(text) {
        Some(e) => Some(tree_of_element(&e)),
        None => None,
    }
}

} // verus!
