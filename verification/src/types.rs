//! The error taxonomy and the common shape of a query: a request payload to
//! send upstream, and a parser from the response XML to structured records.

use vstd::prelude::*;

use crate::xml_source::{elements_of, xml_well_formed};

verus! {

/// The one error this crate reports: the XML text handed to a query's
/// `parse` was not well-formed. The XML library's error is carried along
/// verbatim, not swallowed.
#[derive(Debug)]
pub enum ParserError {
    XmlParse(roxmltree::Error),
}

/// A query against the reporting interface: it builds the outbound request
/// payload and parses the response XML into its structured output.
pub trait Parser {
    type Output;

    /// What a successful parse must return, given the flat element stream of
    /// the response document.
    spec fn good_output(&self, els: Seq<(Seq<char>, Seq<char>)>, out: Self::Output) -> bool;

    /// The request payload this query sends upstream.
    spec fn spec_request(&self) -> Seq<char>;

    fn request_xml(&self) -> (r: String)
        ensures
            r@ == self.spec_request(),
    ;

    fn parse(&self, xml: &str) -> (r: Result<Self::Output, ParserError>)
        ensures
            r is Ok <==> xml_well_formed(xml@),
            r matches Ok(out) ==> self.good_output(elements_of(xml@), out),
            r matches Err(e) ==> e is XmlParse,
    ;
}

} // verus!
