//! The flat view of a well-formed XML document: its elements in document
//! order, each reduced to a tag name and a text value. Well-formedness
//! checking and tree traversal are the XML library's work; everything after
//! the flat element stream is this crate's own, verified logic.

use vstd::prelude::*;

verus! {

/// One XML element, reduced to what the reconstructors read: its tag name
/// and its immediate text content (empty if the element has none).
pub struct Element {
    pub tag: String,
    pub text: String,
}

impl View for Element {
    type V = (Seq<char>, Seq<char>);

    open spec fn view(&self) -> (Seq<char>, Seq<char>) {
        (self.tag@, self.text@)
    }
}

/// The views of a sequence of elements.
pub open spec fn elems_view(els: Seq<Element>) -> Seq<(Seq<char>, Seq<char>)> {
    els.map_values(|e: Element| e@)
}

/// The elements of the well-formed XML document `xml`, at or below its root
/// element, in document order, each as (tag name, text content or empty):
/// what `parse_flat_elements` returns when parsing succeeds. Parsing is
/// deterministic, so this is a function of the document text alone.
pub uninterp spec fn elements_of(xml: Seq<char>) -> Seq<(Seq<char>, Seq<char>)>;

/// Whether `xml` is a well-formed XML document: exactly the texts that
/// `parse_flat_elements` accepts. Like `elements_of`, a function of the
/// document text alone, since parsing is deterministic.
pub uninterp spec fn xml_well_formed(xml: Seq<char>) -> bool;

#[verifier::external_type_specification]
#[verifier::external_body]
pub struct ExXmlError(roxmltree::Error);

/// Relies on roxmltree::Document::parse for XML well-formedness checking and
/// on Node::descendants for document-order traversal: parsing is
/// deterministic, succeeding exactly on the well-formed documents; on
/// success, the result lists every element at or below the root element, in
/// document order, as (tag name, text content or empty); on a document that
/// is not well-formed, the XML library's error is returned.
#[verifier::external_body]
pub(crate) fn parse_flat_elements(xml: &str) -> (r: Result<Vec<Element>, roxmltree::Error>)
    ensures
        r is Ok <==> xml_well_formed(xml@),
        r matches Ok(els) ==> elems_view(els@) == elements_of(xml@),
{
    let doc = roxmltree::Document::parse(xml)?;
    let mut els = Vec::new();
    for node in doc.root_element().descendants() {
        if node.is_element() {
            let tag = node.tag_name().name().to_string();
            let text = node.text().unwrap_or("").to_string();
            els.push(Element { tag, text });
        }
    }
    Ok(els)
}

} // verus!
