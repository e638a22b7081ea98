//! The token stream the parser consumes: element-open (with attributes),
//! element-close, and text events, in document order.
//!
//! Tokenization itself is done by the `xml` crate; `tokenize_xml` is the
//! trusted bridge. What a given document tokenizes to is named by the
//! uninterpreted function `xml_tokens_of`, a function of the document text
//! alone; `None` stands for a malformed document.

use vstd::prelude::*;

use xml::reader::{EventReader, XmlEvent};

verus! {

/// One attribute of an element-open token, by local name.
#[derive(Debug)]
pub struct Attr {
    pub name: String,
    pub value: String,
}

/// One event of the document's token stream.
#[derive(Debug)]
pub enum Token {
    Open { name: String, attrs: Vec<Attr> },
    Close { name: String },
    Text { content: String },
}

/// The token stream of a document, or `None` when the document is malformed.
pub uninterp spec fn xml_tokens_of(text: Seq<char>) -> Option<Seq<Token>>;

/// Relies on the `xml` crate's `EventReader`: it turns a document into start
/// element, end element and character events (a deterministic function of the
/// text), or reports a syntax error, after which the scan is abandoned.
/// Element and attribute names are taken by local name.
#[verifier::external_body]
pub(crate) fn tokenize_xml(data: &str) -> (r: Option<Vec<Token>>)
    ensures
        match r {
            Some(v) => xml_tokens_of(data@) == Some(v@),
            None => xml_tokens_of(data@) == None::<Seq<Token>>,
        },
{
    let mut out = Vec::new();
    for e in EventReader::from_str(data) {
        match e {
            Ok(XmlEvent::StartElement { name, attributes, .. }) => {
                let attrs = attributes.into_iter().map(|a| Attr { name: a.name.local_name, value: a.value }).collect();
                out.push(Token::Open { name: name.local_name, attrs });
            },
            Ok(XmlEvent::EndElement { name }) => out.push(Token::Close { name: name.local_name }),
            Ok(XmlEvent::Characters(content)) => out.push(Token::Text { content }),
            Err(_) => return None,
            _ => {},
        }
    }
    Some(out)
}

} // verus!
