//! JSON documents as plain values, as rustdoc writes them, with the lookups the extractors
//! make: an object's field, a string's text, an array's elements.

use vstd::prelude::*;

verus! {

/// A JSON value. Objects keep their entries in document order, each key once.
pub enum Json {
    Null,
    Bool(bool),
    /// A number, by its JSON text.
    Number(String),
    Str(String),
    Array(Vec<Json>),
    Object(Vec<(String, Json)>),
}

#[verifier::external_type_specification]
#[verifier::external_body]
pub struct ExSerdeValue(serde_json::Value);

/// The compact JSON text of a value, as `serde_json` prints a `Value`.
pub uninterp spec fn json_text(j: Json) -> Seq<char>;

/// The `serde_json` value a `Json` stands for, entry for entry; a number whose text is not
/// a JSON number stands as that text.
#[verifier::external_body]
fn to_serde(j: &Json) -> serde_json::Value {
    match j {
        Json::Null => serde_json::Value::Null,
        Json::Bool(b) => serde_json::Value::Bool(*b),
        Json::Number(t) => match t.parse::<serde_json::Number>() {
            Ok(n) => serde_json::Value::Number(n),
            Err(_) => serde_json::Value::String(t.clone()),
        },
        Json::Str(s) => serde_json::Value::String(s.clone()),
        Json::Array(v) => serde_json::Value::Array(v.iter().map(to_serde).collect()),
        Json::Object(es) => serde_json::Value::Object(es.iter().map(|(k, v)| (k.clone(), to_serde(v))).collect()),
    }
}

/// `serde_json::Value`'s `Display`, the compact JSON text: it depends on the value alone.
#[verifier::external_body]
pub(crate) fn compact(j: &Json) -> (r: String)
    ensures
        r@ == json_text(*j),
{
    to_serde(j).to_string()
}

/// The value of the first entry with the key.
pub open spec fn lookup(es: Seq<(String, Json)>, key: Seq<char>) -> Option<Json>
    decreases es.len(),
{
    if es.len() == 0 {
        None
    } else if es[0].0@ == key {
        Some(es[0].1)
    } else {
        lookup(es.skip(1), key)
    }
}

/// A field of an object; nothing for any other value.
pub open spec fn get(j: Json, key: Seq<char>) -> Option<Json> {
    match j {
        Json::Object(es) => lookup(es@, key),
        _ => None,
    }
}

/// A field of a value that may be absent.
pub open spec fn field(o: Option<Json>, key: Seq<char>) -> Option<Json> {
    match o {
        Some(j) => get(j, key),
        None => None,
    }
}

/// The entries of an object.
pub open spec fn entries(o: Option<Json>) -> Option<Seq<(String, Json)>> {
    match o {
        Some(Json::Object(es)) => Some(es@),
        _ => None,
    }
}

/// The elements of an array.
pub open spec fn elements(o: Option<Json>) -> Option<Seq<Json>> {
    match o {
        Some(Json::Array(v)) => Some(v@),
        _ => None,
    }
}

/// The text of a string.
pub open spec fn text(o: Option<Json>) -> Option<Seq<char>> {
    match o {
        Some(Json::Str(s)) => Some(s@),
        _ => None,
    }
}

/// A value unless it is absent or `null`.
pub open spec fn non_null(o: Option<Json>) -> Option<Json> {
    match o {
        Some(Json::Null) => None,
        _ => o,
    }
}

/// The text of a string, and the compact JSON text of any other value.
pub open spec fn plain_text(j: Json) -> Seq<char> {
    match j {
        Json::Str(s) => s@,
        _ => json_text(j),
    }
}

/// The value of the first entry with the key.
pub fn lookup_exec<'a>(es: &'a Vec<(String, Json)>, key: &str) -> (r: Option<&'a Json>)
    ensures
        match r {
            Some(v) => lookup(es@, key@) == Some(*v),
            None => lookup(es@, key@) is None,
        },
{
    let mut i: usize = 0;
    assert(es@.skip(0) =~= es@);
    while i < es.len()
        invariant
            i <= es.len(),
            lookup(es@, key@) == lookup(es@.skip(i as int), key@),
        decreases es.len() - i,
    {
        assert(es@.skip(i as int)[0] == es@[i as int]);
        if crate::text::str_eq(es[i].0.as_str(), key) {
            return Some(&es[i].1);
        }
        assert(es@.skip(i as int).skip(1) =~= es@.skip(i + 1));
        i += 1;
    }
    None
}

/// A field of an object.
pub fn get_exec<'a>(j: &'a Json, key: &str) -> (r: Option<&'a Json>)
    ensures
        match r {
            Some(v) => get(*j, key@) == Some(*v),
            None => get(*j, key@) is None,
        },
{
    match j {
        Json::Object(es) => lookup_exec(es, key),
        _ => None,
    }
}

/// A field of a value that may be absent.
pub fn field_exec<'a>(o: Option<&'a Json>, key: &str) -> (r: Option<&'a Json>)
    ensures
        match r {
            Some(v) => field(
                match o {
                    Some(x) => Some(*x),
                    None => None,
                },
                key@,
            ) == Some(*v),
            None => field(
                match o {
                    Some(x) => Some(*x),
                    None => None,
                },
                key@,
            ) is None,
        },
{
    match o {
        Some(j) => get_exec(j, key),
        None => None,
    }
}

/// The text of a string or of any other value.
pub fn plain_text_exec(j: &Json) -> (r: String)
    ensures
        r@ == plain_text(*j),
{
    match j {
        Json::Str(s) => crate::text::string_of(&crate::text::chars_of(s.as_str())),
        _ => compact(j),
    }
}

/// Whether a parsed document looks like rustdoc JSON: an object with `format_version`,
/// `root` and `index` fields.
pub fn is_rustdoc(root: &Json) -> (r: bool)
    ensures
        r == (get(*root, "format_version"@) is Some && get(*root, "root"@) is Some && get(
            *root,
            "index"@,
        ) is Some),
{
    get_exec(root, "format_version").is_some() && get_exec(root, "root").is_some() && get_exec(
        root,
        "index",
    ).is_some()
}

} // verus!
