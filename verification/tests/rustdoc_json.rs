use std::fmt;

use serde::de::{Deserializer, MapAccess, Visitor};
use serde_json::Value;

use zc::json_value::{is_rustdoc, plain_text_exec, Json};
use zc::traitmap::extract as extract_traits;
use zc::values::{extract as extract_values, IndexRow};

/// A parsed JSON value as the library's plain value, entries in the parser's order.
fn plain(v: &Value) -> Json {
    match v {
        Value::Null => Json::Null,
        Value::Bool(b) => Json::Bool(*b),
        Value::Number(n) => Json::Number(n.to_string()),
        Value::String(s) => Json::Str(s.clone()),
        Value::Array(a) => Json::Array(a.iter().map(plain).collect()),
        Value::Object(m) => Json::Object(m.iter().map(|(k, v)| (k.clone(), plain(v))).collect()),
    }
}

fn parse(text: &str) -> Json {
    plain(&serde_json::from_str::<Value>(text).expect("test documents are valid JSON"))
}

/// Reads the entries of the top-level object's field named by the visitor, in document order.
struct OrderedVisitor(&'static str);

impl<'de> Visitor<'de> for OrderedVisitor {
    type Value = Vec<(String, Value)>;

    fn expecting(&self, formatter: &mut fmt::Formatter<'_>) -> fmt::Result {
        formatter.write_str("a JSON object")
    }

    fn visit_map<M: MapAccess<'de>>(self, mut map: M) -> Result<Self::Value, M::Error> {
        let mut found = Vec::new();
        while let Some(key) = map.next_key::<String>()? {
            if key == self.0 {
                let inner: InnerEntries = map.next_value()?;
                found = inner.0;
            } else {
                map.next_value::<Value>()?;
            }
        }
        Ok(found)
    }
}

struct InnerEntries(Vec<(String, Value)>);

struct InnerVisitor;

impl<'de> Visitor<'de> for InnerVisitor {
    type Value = InnerEntries;

    fn expecting(&self, formatter: &mut fmt::Formatter<'_>) -> fmt::Result {
        formatter.write_str("a JSON object")
    }

    fn visit_map<M: MapAccess<'de>>(self, mut map: M) -> Result<Self::Value, M::Error> {
        let mut entries = Vec::new();
        while let Some(entry) = map.next_entry::<String, Value>()? {
            entries.push(entry);
        }
        Ok(InnerEntries(entries))
    }
}

impl<'de> serde::Deserialize<'de> for InnerEntries {
    fn deserialize<D: Deserializer<'de>>(deserializer: D) -> Result<Self, D::Error> {
        deserializer.deserialize_map(InnerVisitor)
    }
}

/// The entries of the document's field `key`, in document order, as plain values.
fn entries_of(text: &str, key: &'static str) -> Vec<(String, Json)> {
    let mut de = serde_json::Deserializer::from_str(text);
    let entries = (&mut de).deserialize_map(OrderedVisitor(key)).expect("test documents are valid JSON");
    entries.iter().map(|(k, v)| (k.clone(), plain(v))).collect()
}

#[test]
fn extracts_only_concrete_trait_impl_members_and_sorts_rows() {
    let json = r#"{
        "index": {
            "impl-z": {"inner": {"impl": {
                "trait": {"path": "core::fmt::Display"},
                "for": {"resolved_path": {"path": "demo::Widget"}},
                "items": [12, "11", "missing"]
            }}},
            "11": {"name": "fmt"},
            "12": {"name": "Output"},
            "impl-inherent": {"inner": {"impl": {
                "trait": null,
                "for": {"resolved_path": {"path": "demo::Widget"}},
                "items": ["13"]
            }}},
            "13": {"name": "new"},
            "impl-blanket": {"inner": {"impl": {
                "trait": {"path": "core::convert::Into"},
                "for": {"borrowed_ref": {"type": {"generic": "T"}}},
                "items": ["14"]
            }}},
            "14": {"name": "into"}
        }
    }"#;

    assert_eq!(
        extract_traits(&parse(json)),
        vec![
            (
                "Widget".into(),
                "Output".into(),
                "core::fmt::Display".into()
            ),
            ("Widget".into(), "fmt".into(), "core::fmt::Display".into()),
        ]
    );
}

#[test]
fn a_document_without_an_index_object_has_no_trait_rows() {
    assert_eq!(extract_traits(&parse(r#"{"index": []}"#)), Vec::new());
    assert_eq!(extract_traits(&parse(r#"[1, 2]"#)), Vec::new());
}

#[test]
fn extracts_public_values_and_docs_in_path_order() {
    let json = r#"{
        "paths": {
            "9": {"path": ["demo", "SECOND"]},
            "2": {"path": ["demo", "FIRST"]},
            "7": {"path": ["demo", "PRIVATE"]}
        },
        "index": {
            "2": {
                "visibility": "public",
                "docs": "first docs",
                "inner": {"constant": {
                    "type": {"primitive": "u64"},
                    "const": {"value": "2", "expr": "1 + 1"}
                }}
            },
            "7": {
                "visibility": "crate",
                "docs": "hidden",
                "inner": {"constant": {
                    "type": {"primitive": "u8"}, "const": {"value": "1"}
                }}
            },
            "9": {
                "visibility": "public",
                "docs": "",
                "inner": {"static": {
                    "type": {"resolved_path": {"name": "Widget"}}, "expr": "make()"
                }}
            }
        }
    }"#;

    let index = entries_of(json, "index");
    let paths = entries_of(json, "paths");
    let rows = extract_values(&index, &paths, "demo-crate");
    assert_eq!(rows.len(), 3);
    match &rows[0] {
        IndexRow::Value(row) => {
            assert_eq!(row.path, "demo::SECOND");
            assert_eq!(row.ty, "Widget");
            assert_eq!(row.value, "make()");
        }
        IndexRow::Doc(_) => panic!("the first path should produce a value row"),
    }
    match &rows[1] {
        IndexRow::Value(row) => {
            assert_eq!(row.path, "demo::FIRST");
            assert_eq!(row.ty, "u64");
            assert_eq!(row.value, "2");
        }
        IndexRow::Doc(_) => panic!("the second path should produce a value row first"),
    }
    match &rows[2] {
        IndexRow::Doc(row) => {
            assert_eq!(row.path, "demo::FIRST");
            assert_eq!(row.docs, "Zmlyc3QgZG9jcw==");
        }
        IndexRow::Value(_) => panic!("the item should produce its documentation row second"),
    }
}

#[test]
fn an_unnamed_type_is_shown_as_its_json_and_a_missing_value_as_a_question_mark() {
    let index = entries_of(
        r#"{"index": {"1": {"visibility": "public", "inner": {"constant": {
            "type": {"borrowed_ref": {"lifetime": null}}, "const": {"value": null}
        }}}}}"#,
        "index",
    );
    let paths = entries_of(r#"{"paths": {"1": {"path": ["demo", "C"]}}}"#, "paths");
    let rows = extract_values(&index, &paths, "demo");
    assert_eq!(rows.len(), 1);
    match &rows[0] {
        IndexRow::Value(row) => {
            assert_eq!(row.ty, r#"{"borrowed_ref":{"lifetime":null}}"#);
            assert_eq!(row.value, "?");
        }
        IndexRow::Doc(_) => panic!("a constant without docs has only a value row"),
    }
}

#[test]
fn plain_text_is_a_string_itself_and_else_compact_json() {
    assert_eq!(plain_text_exec(&Json::Str("a \"b\"".into())), "a \"b\"");
    assert_eq!(plain_text_exec(&Json::Number("12".into())), "12");
    assert_eq!(plain_text_exec(&parse(r#"{"a": [1, "x"], "b": null}"#)), r#"{"a":[1,"x"],"b":null}"#);
}

#[test]
fn rustdoc_documents_have_a_format_version_root_and_index() {
    assert!(is_rustdoc(&parse(r#"{"format_version": 1, "root": 0, "index": {}}"#)));
    assert!(!is_rustdoc(&parse(r#"{"format_version": 1, "index": {}}"#)));
}
