//! A parsed JSON document, held as far as the checks read it: the top level,
//! the array's elements, and each object field's kind of value.
use serde_json::Value;
use vstd::prelude::*;

verus! {

/// The value of one object field.
pub enum FieldValue {
    Null,
    Number,
    Str(String),
    /// A boolean, array or object, with its compact JSON text.
    Other(String),
}

/// One element of the top-level array.
pub enum Element {
    /// An object, with its fields in the order in which the text gives them.
    Record(Vec<(String, FieldValue)>),
    /// Any value that is not an object.
    NonObject,
}

/// A whole JSON document.
pub enum Document {
    /// The top level is an array.
    Records(Vec<Element>),
    /// The top level is anything else.
    NotArray,
}

pub enum FieldModel {
    Null,
    Number,
    Str(Seq<char>),
    Other(Seq<char>),
}

pub enum ElementModel {
    Record(Seq<(Seq<char>, FieldModel)>),
    NonObject,
}

pub enum DocumentModel {
    Records(Seq<ElementModel>),
    NotArray,
}

impl View for FieldValue {
    type V = FieldModel;

    open spec fn view(&self) -> FieldModel {
        match self {
            FieldValue::Null => FieldModel::Null,
            FieldValue::Number => FieldModel::Number,
            FieldValue::Str(s) => FieldModel::Str(s@),
            FieldValue::Other(t) => FieldModel::Other(t@),
        }
    }
}

pub open spec fn fields_view(fs: Seq<(String, FieldValue)>) -> Seq<(Seq<char>, FieldModel)> {
    fs.map_values(|p: (String, FieldValue)| (p.0@, p.1@))
}

impl View for Element {
    type V = ElementModel;

    open spec fn view(&self) -> ElementModel {
        match self {
            Element::Record(fs) => ElementModel::Record(fields_view(fs@)),
            Element::NonObject => ElementModel::NonObject,
        }
    }
}

impl View for Document {
    type V = DocumentModel;

    open spec fn view(&self) -> DocumentModel {
        match self {
            Document::Records(es) => DocumentModel::Records(es@.map_values(|e: Element| e@)),
            Document::NotArray => DocumentModel::NotArray,
        }
    }
}

/// The document that the text denotes, or `None` where the text is not valid JSON.
pub uninterp spec fn json_parse(text: Seq<char>) -> Option<DocumentModel>;

/// Relies on serde_json::from_str into a `serde_json::Value`, whose objects keep
/// the order of their fields, and on `Display` of `Value` for the compact text of
/// booleans, arrays and objects; the error's message is kept.
#[verifier::external_body]
pub(crate) fn parse_json(text: &str) -> (r: Result<Document, String>)
    ensures
        match r {
            Ok(d) => json_parse(text@) == Some(d@),
            Err(_) => json_parse(text@) is None,
        },
{
    let v: Value = serde_json::from_str(text).map_err(|e| e.to_string())?;
    let Value::Array(items) = v else { return Ok(Document::NotArray) };
    Ok(Document::Records(items.into_iter().map(|x| match x {
        Value::Object(m) => Element::Record(m.into_iter().map(|(k, f)| (k, match f {
            Value::Null => FieldValue::Null,
            Value::Number(_) => FieldValue::Number,
            Value::String(s) => FieldValue::Str(s),
            other => FieldValue::Other(other.to_string()),
        })).collect()),
        _ => Element::NonObject,
    }).collect()))
}

} // verus!
