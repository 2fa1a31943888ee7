//! Start and end tags of XML events named after a binary XML name.

use crate::name::BinXmlName;
use quick_xml::events::{BytesEnd, BytesStart};
use vstd::prelude::*;

verus! {

#[verifier::external_type_specification]
#[verifier::external_body]
pub struct ExBytesStart<'a>(BytesStart<'a>);

#[verifier::external_type_specification]
#[verifier::external_body]
pub struct ExBytesEnd<'a>(BytesEnd<'a>);

/// What `quick_xml::events::BytesStart::new` makes of a name.
pub uninterp spec fn xml_start_tag(name: Seq<char>) -> BytesStart<'static>;

/// What `quick_xml::events::BytesEnd::new` makes of a name.
pub uninterp spec fn xml_end_tag(name: Seq<char>) -> BytesEnd<'static>;

/// `quick_xml::events::BytesStart::new`: a start tag with the given name and
/// no attributes (a function of the name alone).
#[verifier::external_body]
fn new_start_tag<'a>(name: &'a str) -> (t: BytesStart<'a>)
    ensures
        t == xml_start_tag(name@),
{
    BytesStart::new(name)
}

/// `quick_xml::events::BytesEnd::new`: an end tag with the given name (a
/// function of the name alone).
#[verifier::external_body]
fn new_end_tag<'a>(name: &'a str) -> (t: BytesEnd<'a>)
    ensures
        t == xml_end_tag(name@),
{
    BytesEnd::new(name)
}

impl<'a> From<&'a BinXmlName> for BytesStart<'a> {
    fn from(name: &'a BinXmlName) -> (t: BytesStart<'a>) {
        new_start_tag(name.as_str())
    }
}

impl<'a> vstd::std_specs::convert::FromSpecImpl<&'a BinXmlName> for BytesStart<'a> {
    open spec fn obeys_from_spec() -> bool {
        true
    }

    open spec fn from_spec(name: &'a BinXmlName) -> BytesStart<'a> {
        xml_start_tag(name@)
    }
}

impl<'a> From<&'a BinXmlName> for BytesEnd<'a> {
    fn from(name: &'a BinXmlName) -> (t: BytesEnd<'a>) {
        new_end_tag(name.as_str())
    }
}

impl<'a> vstd::std_specs::convert::FromSpecImpl<&'a BinXmlName> for BytesEnd<'a> {
    open spec fn obeys_from_spec() -> bool {
        true
    }

    open spec fn from_spec(name: &'a BinXmlName) -> BytesEnd<'a> {
        xml_end_tag(name@)
    }
}

} // verus!
