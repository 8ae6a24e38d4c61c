use vstd::prelude::*;
use crate::players::Players;
use crate::report::{extract_report, report_of, song_views, ErrV, ExtractError, Song, SongV};
use crate::xml::{Attr, XmlElem, XmlV};

verus! {

#[verifier::external_type_specification]
#[verifier::external_body]
pub struct ExNode<'a, 'input: 'a>(roxmltree::Node<'a, 'input>);

/// The element tree of `s` when `s` is a well-formed XML document: the root
/// element with, per element, its local tag name, its attributes in document
/// order, its text, and its element children in document order. A function of
/// the text alone.
pub uninterp spec fn xml_doc_of(s: Seq<char>) -> Option<XmlV>;

/// Relies on roxmltree::Node: `elem_of` copies the local tag name, the
/// attributes in document order, the node's text, and the element children
/// (depth first) out of the parsed document; text and comment nodes are not
/// elements and are kept only through `Node::text`.
#[verifier::external_body]
fn elem_of(n: &roxmltree::Node<'_, '_>) -> XmlElem {
    XmlElem {
        tag: n.tag_name().name().to_string(),
        attrs: n.attributes().map(
            |a| Attr { name: a.name().to_string(), value: a.value().to_string() },
        ).collect(),
        text: n.text().map(|t| t.to_string()),
        children: n.children().filter(|c| c.is_element()).map(|c| elem_of(&c)).collect(),
    }
}

/// Relies on roxmltree::Document::parse, a deterministic function of the
/// text that succeeds exactly on well-formed XML, and on
/// roxmltree::Document::root_element, which returns the document's single
/// root element; `elem_of` then copies that element's tree.
#[verifier::external_body]
fn parse_xml(text: &str) -> (r: Result<XmlElem, String>)
    ensures
        match r {
            Ok(t) => xml_doc_of(text@) == Some(t@),
            Err(_) => xml_doc_of(text@) is None,
        },
{
    match roxmltree::Document::parse(text) {
        Ok(doc) => Ok(elem_of(&doc.root_element())),
        Err(e) => Err(e.to_string()),
    }
}

/// Builds the report from the statistics document text: parses the XML and
/// extracts the retained songs against the player directory. A document that
/// is not well-formed XML is the one condition reported as MalformedXml.
pub fn build_report(xml_text: &str, players: &Players) -> (r: Result<Vec<Song>, ExtractError>)
    ensures
        match xml_doc_of(xml_text@) {
            Some(doc) => match r {
                Ok(v) => report_of(doc, players@) == Ok::<Seq<SongV>, ErrV>(song_views(v@)),
                Err(e) => report_of(doc, players@) == Err::<Seq<SongV>, ErrV>(e@),
            },
            None => r matches Err(e) && e@ is MalformedXml,
        },
{
    match parse_xml(xml_text) {
        Ok(root) => extract_report(&root, players),
        Err(msg) => Err(ExtractError::MalformedXml(msg)),
    }
}

} // verus!
