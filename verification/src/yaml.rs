//! The parsed shape of one specification layer.
//!
//! A layer file is YAML. Only its two top levels matter to the merge: the
//! root must be a mapping, and each top-level value that is itself a mapping
//! contributes its inner key/value pairs. Inner values are carried through
//! opaquely as `serde_json::Value`.
use vstd::prelude::*;

verus! {

/// Declares serde_json::Value to the verifier; a value of it is carried
/// through the merge opaquely.
#[verifier::external_type_specification]
#[verifier::external_body]
pub struct ExJsonValue(serde_json::Value);

/// The value under one top-level key of a layer document.
pub enum Node {
    /// A mapping: its entries are what the merge copies.
    Section(Vec<(Vec<u8>, serde_json::Value)>),
    /// Anything else; ignored by the merge.
    Leaf(serde_json::Value),
}

/// One whole layer document.
pub enum Document {
    /// A mapping at the root, with its top-level entries.
    Mapping(Vec<(Vec<u8>, Node)>),
    /// A root that is not a mapping; contributes nothing to the merge.
    Other,
}

/// What parsing a byte text as YAML yields: `None` for malformed input,
/// otherwise the two-level document shape above. The result depends on the
/// text alone.
pub uninterp spec fn yaml_doc_of(text: Seq<u8>) -> Option<Document>;

/// Relies on serde_yml::from_slice deserializing YAML into a
/// serde_json::Value: parsing is deterministic in the input text, a mapping
/// root becomes Value::Object, and the conversion below moves each entry
/// one-for-one into the two-level Document shape.
#[verifier::external_body]
pub(crate) fn parse_yaml(text: &Vec<u8>) -> (r: Option<Document>)
    ensures
        r == yaml_doc_of(text@),
{
    match serde_yml::from_slice::<serde_json::Value>(text.as_slice()) {
        Err(_) => None,
        Ok(serde_json::Value::Object(m)) => Some(Document::Mapping(
            m.into_iter().map(|(k, v)| (k.into_bytes(), match v {
                serde_json::Value::Object(im) => Node::Section(
                    im.into_iter().map(|(k2, v2)| (k2.into_bytes(), v2)).collect(),
                ),
                leaf => Node::Leaf(leaf),
            })).collect(),
        )),
        Ok(_) => Some(Document::Other),
    }
}

/// Relies on serde_json::Value's derived Clone: the copy is structurally
/// identical to the original, so it stands for the same abstract value.
pub assume_specification[ <serde_json::Value as Clone>::clone ](v: &serde_json::Value) -> (r:
    serde_json::Value)
    ensures
        r == *v,
;

/// What a value holds when it is a string: its bytes. Depends on the value
/// alone.
pub uninterp spec fn json_str_of(v: serde_json::Value) -> Option<Seq<u8>>;

/// Relies on serde_json::Value::as_str: Some exactly for Value::String,
/// returning its contents.
#[verifier::external_body]
pub(crate) fn value_as_str(v: &serde_json::Value) -> (r: Option<Vec<u8>>)
    ensures
        (r is Some) == (json_str_of(*v) is Some),
        r matches Some(b) ==> json_str_of(*v) matches Some(s) && b@ == s,
{
    v.as_str().map(|s| s.as_bytes().to_vec())
}

/// What a value holds when it is a list of strings: their bytes in order.
/// Depends on the value alone.
pub uninterp spec fn json_str_list_of(v: serde_json::Value) -> Option<Seq<Seq<u8>>>;

/// Relies on serde_json::Value::as_array and Value::as_str: Some exactly
/// when the value is an array whose items are all strings, yielding their
/// contents in array order.
#[verifier::external_body]
pub(crate) fn value_as_str_list(v: &serde_json::Value) -> (r: Option<Vec<Vec<u8>>>)
    ensures
        (r is Some) == (json_str_list_of(*v) is Some),
        r matches Some(l) ==> json_str_list_of(*v) matches Some(m) && l@.map_values(
            |x: Vec<u8>| x@,
        ) == m,
{
    let arr = match v.as_array() {
        None => return None,
        Some(a) => a,
    };
    let mut out: Vec<Vec<u8>> = Vec::new();
    for item in arr {
        match item.as_str() {
            Some(s) => out.push(s.as_bytes().to_vec()),
            None => return None,
        }
    }
    Some(out)
}

} // verus!
