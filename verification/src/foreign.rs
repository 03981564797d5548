//! The boundary to the outside parsers and encoders. Every function here
//! either is a trusted wrapper around one outside call, or gives the outside
//! call's result a name that the rest of the library's contracts use.

use vstd::prelude::*;

verus! {

use crate::json::{JsonValue, JsonV};
use crate::xml::{XmlElement, XmlElemV, XmlNode};
use base64::Engine;
use kiss_xml::dom::Node;

#[verifier::external_type_specification]
#[verifier::external_body]
pub struct ExSerdeValue(serde_json::Value);

#[verifier::external_type_specification]
#[verifier::external_body]
pub struct ExKissElement(kiss_xml::dom::Element);

/// What a JSON document parses to: the parsed tree, or the parser's message.
pub uninterp spec fn parsed_json(bytes: Seq<u8>) -> Result<JsonV, Seq<char>>;

/// What a parsed JSON value holds, as this library's model.
pub uninterp spec fn serde_view(v: serde_json::Value) -> JsonV;

/// Relies on `serde_json::from_slice::<Value>`: parses a byte slice as one
/// JSON document; the result and the error message depend on the bytes alone.
#[verifier::external_body]
fn serde_parse(bytes: &[u8]) -> (r: Result<serde_json::Value, String>)
    ensures
        match r {
            Ok(v) => parsed_json(bytes@) == Ok::<JsonV, Seq<char>>(serde_view(v)),
            Err(m) => parsed_json(bytes@) == Err::<JsonV, Seq<char>>(m@),
        },
{
    serde_json::from_slice(bytes).map_err(|e| e.to_string())
}

/// Relies on `serde_json::Value`'s accessors: maps each variant of the parsed
/// tree to this library's model, keeping numbers as the text `serde_json`
/// renders them with and object members in the parser's (sorted) order.
#[verifier::external_body]
fn conv_json(v: &serde_json::Value) -> (r: JsonValue)
    ensures
        r@ == serde_view(*v),
{
    match v {
        serde_json::Value::Null => JsonValue::Null,
        serde_json::Value::Bool(b) => JsonValue::Bool(*b),
        serde_json::Value::Number(n) => JsonValue::Number {
            text: n.to_string(),
            integer: n.is_i64() || n.is_u64(),
        },
        serde_json::Value::String(s) => JsonValue::Str(s.clone()),
        serde_json::Value::Array(a) => JsonValue::Array(a.iter().map(conv_json).collect()),
        serde_json::Value::Object(o) => JsonValue::Object(
            o.iter().map(|(k, val)| (k.clone(), conv_json(val))).collect(),
        ),
    }
}

/// Parses a byte slice as one JSON document.
pub fn parse_json(bytes: &[u8]) -> (r: Result<JsonValue, String>)
    ensures
        match r {
            Ok(j) => parsed_json(bytes@) == Ok::<JsonV, Seq<char>>(j@),
            Err(m) => parsed_json(bytes@) == Err::<JsonV, Seq<char>>(m@),
        },
{
    match serde_parse(bytes) {
        Ok(v) => Ok(conv_json(&v)),
        Err(m) => Err(m),
    }
}

/// What an XML document parses to: the root element with attributes in the
/// parser's canonical (sorted) order, or the parser's message.
pub uninterp spec fn parsed_xml(bytes: Seq<u8>) -> Result<XmlElemV, Seq<char>>;

/// What a parsed XML element holds, as this library's model, attributes
/// sorted by name.
pub uninterp spec fn kiss_view(e: kiss_xml::dom::Element) -> XmlElemV;

/// Relies on `kiss_xml::parse_str` (on the lossy UTF-8 decoding of the
/// bytes): parses one XML document; the result and the error message depend
/// on the bytes alone.
#[verifier::external_body]
fn kiss_parse(bytes: &[u8]) -> (r: Result<kiss_xml::dom::Element, String>)
    ensures
        match r {
            Ok(e) => parsed_xml(bytes@) == Ok::<XmlElemV, Seq<char>>(kiss_view(e)),
            Err(m) => parsed_xml(bytes@) == Err::<XmlElemV, Seq<char>>(m@),
        },
{
    match kiss_xml::parse_str(String::from_utf8_lossy(bytes)) {
        Ok(dom) => Ok(dom.root_element().clone()),
        Err(e) => Err(e.to_string()),
    }
}

/// Relies on `kiss_xml::dom::Element`'s accessors and its `Display` form:
/// maps the element tree to this library's model. The attribute map is
/// handed over in iteration order; `canonical` below sorts it.
#[verifier::external_body]
fn conv_xml(e: &kiss_xml::dom::Element) -> (r: XmlElement)
    ensures
        crate::xml::canon_elem(r@) == kiss_view(*e),
{
    XmlElement {
        name: e.name(),
        namespace: e.namespace(),
        attrs: e.attributes().iter().map(|(k, v)| (k.clone(), v.clone())).collect(),
        children: e.children().map(|n| if n.is_element() {
            XmlNode::Element(conv_xml(n.as_element().unwrap()))
        } else if n.is_comment() {
            XmlNode::Comment(n.text())
        } else {
            XmlNode::Text(n.text())
        }).collect(),
        rendered: e.to_string(),
    }
}

/// Parses a byte slice as one XML document, returning the root element in
/// canonical form.
pub fn parse_xml(bytes: &[u8]) -> (r: Result<XmlElement, String>)
    ensures
        match r {
            Ok(e) => parsed_xml(bytes@) == Ok::<XmlElemV, Seq<char>>(e@),
            Err(m) => parsed_xml(bytes@) == Err::<XmlElemV, Seq<char>>(m@),
        },
{
    match kiss_parse(bytes) {
        Ok(e) => {
            let raw = conv_xml(&e);
            Ok(crate::xml::canonicalize(&raw))
        },
        Err(m) => Err(m),
    }
}

/// How the quoting escaper renders a piece of text: bare when nothing needs
/// quoting, else single- or double-quoted with escapes.
pub uninterp spec fn escaped_of(s: Seq<char>) -> Seq<char>;

/// Relies on `snailquote::escape`: the result depends on the characters
/// alone; a string with nothing to quote comes back unchanged.
#[verifier::external_body]
pub fn escape_text(s: &str) -> (r: String)
    ensures
        r@ == escaped_of(s@),
{
    snailquote::escape(s).to_string()
}

/// What the unescaper reconstructs from quoted text, when it can.
pub uninterp spec fn unescaped_of(s: Seq<char>) -> Option<Seq<char>>;

/// Relies on `snailquote::unescape`: the result depends on the characters
/// alone.
#[verifier::external_body]
pub fn unescape_text(s: &str) -> (r: Option<String>)
    ensures
        match r {
            Some(t) => unescaped_of(s@) == Some(t@),
            None => unescaped_of(s@) is None,
        },
{
    snailquote::unescape(s).ok()
}

/// The standard base64 rendering of a byte sequence.
pub uninterp spec fn base64_of(bytes: Seq<u8>) -> Seq<char>;

/// Relies on `base64::engine::general_purpose::STANDARD.encode`: the padded
/// standard-alphabet encoding, a function of the bytes alone.
#[verifier::external_body]
pub fn base64_encode(bytes: &[u8]) -> (r: String)
    ensures
        r@ == base64_of(bytes@),
{
    base64::engine::general_purpose::STANDARD.encode(bytes)
}

/// Whether a regular expression pattern is rejected, and with what message.
pub uninterp spec fn regex_compile_err(pattern: Seq<char>) -> Option<Seq<char>>;

/// Whether a valid pattern matches a whole text.
pub uninterp spec fn regex_accepts(pattern: Seq<char>, text: Seq<char>) -> bool;

/// Relies on `regex::Regex::new` and `regex::Regex::find`: compiling a
/// pattern and searching a text both depend on their arguments alone. A text
/// is accepted when the leftmost-first match spans the whole of it.
#[verifier::external_body]
pub fn regex_is_match(pattern: &str, text: &str) -> (r: Result<bool, String>)
    ensures
        match regex_compile_err(pattern@) {
            None => r == Ok::<bool, String>(regex_accepts(pattern@, text@)),
            Some(e) => r matches Err(m) && m@ == e,
        },
{
    match regex::Regex::new(pattern) {
        Ok(re) => Ok(
            match re.find(text) {
                Some(m) => m.start() == 0 && m.end() == text.len(),
                None => false,
            },
        ),
        Err(e) => Err(e.to_string()),
    }
}

/// The lossy UTF-8 decoding of a byte sequence.
pub uninterp spec fn utf8_lossy_of(bytes: Seq<u8>) -> Seq<char>;

/// Relies on `String::from_utf8_lossy`: a function of the bytes alone; valid
/// UTF-8 decodes to exactly its characters.
#[verifier::external_body]
pub fn utf8_lossy(bytes: &[u8]) -> (r: String)
    ensures
        r@ == utf8_lossy_of(bytes@),
{
    String::from_utf8_lossy(bytes).to_string()
}

/// The uppercase form of a piece of text.
pub uninterp spec fn upper_of(s: Seq<char>) -> Seq<char>;

/// Relies on `str::to_uppercase`: the result depends on the characters alone.
#[verifier::external_body]
pub fn to_upper(s: &str) -> (r: String)
    ensures
        r@ == upper_of(s@),
{
    s.to_uppercase()
}

/// The lowercase form of a piece of text.
pub uninterp spec fn lower_of(s: Seq<char>) -> Seq<char>;

/// Relies on `str::to_lowercase`: the result depends on the characters alone.
#[verifier::external_body]
pub fn to_lower(s: &str) -> (r: String)
    ensures
        r@ == lower_of(s@),
{
    s.to_lowercase()
}

} // verus!
