//! Rendered XML fragments that the model itself stores or embeds: the
//! generated `_meta` document of a package and the rendered form of a
//! protocol error document.

use vstd::prelude::*;

verus! {

/// The rendered `<status>` error document with the given code attribute and
/// summary child; a function of the two strings alone.
pub uninterp spec fn status_xml_of(code: Seq<char>, summary: Seq<char>) -> Seq<char>;

/// The rendered `<package>` metadata document generated for a package; a
/// function of the two names alone.
pub uninterp spec fn meta_xml_of(project: Seq<char>, package: Seq<char>) -> Seq<u8>;

/// Relies on xml_builder::XMLElement (new, add_attribute, add_child,
/// add_text, render): the `<status code="..."><summary>...</summary></status>`
/// document rendered without sorting, indentation or line breaks, which
/// depends on the code and summary strings alone.
#[verifier::external_body]
pub fn render_status_xml(code: &str, summary: &str) -> (r: String)
    ensures
        r@ == status_xml_of(code@, summary@),
{
    let mut xml = xml_builder::XMLElement::new("status");
    xml.add_attribute("code", code);
    let mut summary_xml = xml_builder::XMLElement::new("summary");
    summary_xml.add_text(summary.to_owned()).unwrap();
    xml.add_child(summary_xml).unwrap();
    let mut out: Vec<u8> = Vec::new();
    xml.render(&mut out, false, false, false, true).unwrap();
    String::from_utf8(out).unwrap()
}

/// Relies on xml_builder::XMLElement (new, add_attribute, add_child, render):
/// the `<package>` document carrying the two names and empty title and
/// description children, rendered without sorting, indentation or line
/// breaks; it depends on the two names alone.
#[verifier::external_body]
pub fn render_package_meta(project: &str, package: &str) -> (r: Vec<u8>)
    ensures
        r@ == meta_xml_of(project@, package@),
{
    let mut xml = xml_builder::XMLElement::new("package");
    xml.add_attribute("name", project);
    xml.add_attribute("project", package);
    xml.add_child(xml_builder::XMLElement::new("title")).unwrap();
    xml.add_child(xml_builder::XMLElement::new("description")).unwrap();
    let mut out: Vec<u8> = Vec::new();
    xml.render(&mut out, false, false, false, true).unwrap();
    out
}

} // verus!
