//! Reading documents in JSON, a member at a time.
use vstd::prelude::*;

verus! {

/// What a document holds under a key.
#[derive(Debug)]
pub enum JsonField {
    /// It is no document.
    Unreadable,
    /// It is no object, or one without the key.
    Missing,
    Text(String),
    Flag(bool),
    /// A number as a text, and as an unsigned integer where it is one.
    Number { text: String, value: Option<u64> },
    /// The texts of a list; nothing in the place of what is no text.
    List(Vec<Option<String>>),
    /// Nothing or an object, as a document.
    Other(String),
}

/// What a document holds under a key, as texts.
pub enum Field {
    Unreadable,
    Missing,
    Text(Seq<char>),
    Flag(bool),
    Number { text: Seq<char>, value: Option<u64> },
    List(Seq<Option<Seq<char>>>),
    Other(Seq<char>),
}

impl View for JsonField {
    type V = Field;

    open spec fn view(&self) -> Field {
        match self {
            JsonField::Unreadable => Field::Unreadable,
            JsonField::Missing => Field::Missing,
            JsonField::Text(s) => Field::Text(s@),
            JsonField::Flag(b) => Field::Flag(*b),
            JsonField::Number { text, value } => Field::Number { text: text@, value: *value },
            JsonField::List(v) => Field::List(option_texts(v@)),
            JsonField::Other(s) => Field::Other(s@),
        }
    }
}

/// A list of optional texts.
pub open spec fn option_texts(v: Seq<Option<String>>) -> Seq<Option<Seq<char>>> {
    Seq::new(v.len(), |i: int| crate::text::text_of(v[i]))
}

/// What a document holds under a key.
pub uninterp spec fn member(text: Seq<char>, key: Seq<char>) -> Field;

/// `serde_json::from_str` into a `Value` and `Value::get`: what a document holds
/// under a key. It depends on the document and the key alone.
#[verifier::external_body]
pub(crate) fn json_field(text: &str, key: &str) -> (r: JsonField)
    ensures
        r@ == member(text@, key@),
{
    let Ok(document) = serde_json::from_str::<serde_json::Value>(text) else {
        return JsonField::Unreadable;
    };
    match document.get(key) {
        None => JsonField::Missing,
        Some(serde_json::Value::String(s)) => JsonField::Text(s.clone()),
        Some(serde_json::Value::Bool(b)) => JsonField::Flag(*b),
        Some(serde_json::Value::Number(n)) => JsonField::Number { text: n.to_string(), value: n.as_u64() },
        Some(serde_json::Value::Array(a)) => {
            JsonField::List(a.iter().map(|x| x.as_str().map(|s| s.to_string())).collect())
        },
        Some(other) => JsonField::Other(other.to_string()),
    }
}

/// The items of a list, each as a document; nothing where the document is no
/// list; an error text where it is no document.
pub uninterp spec fn items(text: Seq<char>) -> Result<Option<Seq<Seq<char>>>, Seq<char>>;

/// The items of a list as texts.
pub open spec fn items_of(r: Result<Option<Vec<String>>, String>) -> Result<Option<Seq<Seq<char>>>, Seq<char>> {
    match r {
        Ok(Some(v)) => Ok(Some(crate::text::strings(v@))),
        Ok(None) => Ok(None),
        Err(e) => Err(e@),
    }
}

/// `serde_json::from_str` into a `Value` and `Value::as_array`: the items of a
/// list, each written as a document again. It depends on the document alone.
#[verifier::external_body]
pub(crate) fn json_items(text: &str) -> (r: Result<Option<Vec<String>>, String>)
    ensures
        items_of(r) == items(text@),
{
    let document: serde_json::Value = serde_json::from_str(text).map_err(|e| e.to_string())?;
    Ok(document.as_array().map(|a| a.iter().map(|x| x.to_string()).collect()))
}

} // verus!
