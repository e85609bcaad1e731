use oakum::config::{schema, schema_json, TOOL_VERSION_PATTERN, VERSIONING_DESCRIPTION};
use oakum::documents::DocValue;
use oakum::json_text::pretty_json;

fn at<'a>(v: &'a DocValue, path: &[&str]) -> &'a DocValue {
    path.iter().fold(v, |v, key| v.get(key).unwrap_or_else(|| panic!("{key} in {path:?}")))
}

fn keys(v: &DocValue) -> Vec<&str> {
    match v {
        DocValue::Table(es) => es.iter().map(|(k, _)| k.as_str()).collect(),
        other => panic!("expected a table, got {other:?}"),
    }
}

fn texts(v: &DocValue) -> Vec<&str> {
    match v {
        DocValue::List(items) => items.iter().map(|i| i.text().expect("text").as_str()).collect(),
        other => panic!("expected a list, got {other:?}"),
    }
}

fn as_json(v: &DocValue) -> serde_json::Value {
    match v {
        DocValue::Text(s) => serde_json::Value::String(s.clone()),
        DocValue::Flag(b) => serde_json::Value::Bool(*b),
        DocValue::Other(raw) => serde_json::from_str(raw).expect("number"),
        DocValue::List(items) => serde_json::Value::Array(items.iter().map(as_json).collect()),
        DocValue::Table(es) => {
            serde_json::Value::Object(es.iter().map(|(k, v)| (k.clone(), as_json(v))).collect())
        }
    }
}

#[test]
fn schema_refuses_unknown_keys_and_requires_tool_version() {
    let schema = schema();
    assert!(matches!(at(&schema, &["additionalProperties"]), DocValue::Flag(false)));
    assert_eq!(texts(at(&schema, &["required"])), ["tool-version"]);
    assert_eq!(
        at(&schema, &["properties", "tool-version", "pattern"]).text().map(String::as_str),
        Some(TOOL_VERSION_PATTERN)
    );
    let mut names = keys(at(&schema, &["properties"]));
    names.sort_unstable();
    assert_eq!(
        names,
        [
            "change-files",
            "commit-message",
            "conventional-commits",
            "exclude",
            "include",
            "packages",
            "pr-status",
            "private-packages",
            "tag-format",
            "template",
            "title",
            "tool-version",
            "versioning",
        ]
    );
    let pkg = at(&schema, &["properties", "packages", "additionalProperties"]);
    assert!(matches!(at(pkg, &["additionalProperties"]), DocValue::Flag(false)));
    assert!(at(pkg, &["properties", "versioning"]).get("default").is_none());
    assert_eq!(texts(at(pkg, &["properties", "resolves-dependencies-at", "enum"])), ["build"]);
    assert!(matches!(at(pkg, &["properties", "publish-command", "minLength"]), DocValue::Other(n) if n == "1"));
    let private_default = at(&schema, &["properties", "private-packages", "default"]);
    assert_eq!(as_json(private_default), serde_json::from_str::<serde_json::Value>(r#"{"version": false, "tag": false}"#).unwrap());
    assert!(matches!(at(&schema, &["properties", "include", "default"]), DocValue::List(l) if l.is_empty()));
    assert!(matches!(at(&schema, &["properties", "exclude", "default"]), DocValue::List(l) if l.is_empty()));
    assert!(matches!(at(&schema, &["then"]), DocValue::Flag(false)));
    for key in ["tag-format", "commit-message", "title", "template"] {
        let DocValue::List(forms) = at(&schema, &["properties", key, "oneOf"]) else {
            panic!("{key} oneOf");
        };
        let file_form = &forms[1];
        assert!(matches!(at(file_form, &["additionalProperties"]), DocValue::Flag(false)), "{key}");
        assert_eq!(texts(at(file_form, &["required"])), ["file"], "{key}");
        assert!(matches!(at(file_form, &["properties", "file", "minLength"]), DocValue::Other(n) if n == "1"), "{key}");
        assert_eq!(
            at(file_form, &["properties", "file", "pattern"]).text().map(String::as_str),
            Some(r".*\S.*"),
            "{key}"
        );
    }
}

#[test]
fn schema_lists_the_enum_words() {
    let schema = schema();
    assert_eq!(texts(at(&schema, &["properties", "versioning", "enum"])), ["zero-major", "semver"]);
    assert_eq!(texts(at(&schema, &["properties", "pr-status", "enum"])), ["comment", "summary", "both", "none"]);
    assert_eq!(
        texts(at(
            &schema,
            &["properties", "packages", "additionalProperties", "properties", "extra-files", "items", "properties", "format", "enum"]
        )),
        ["json"]
    );
}

#[test]
fn schema_versioning_description_states_graduation() {
    let schema = schema();
    let description = at(&schema, &["properties", "versioning", "description"]).text().expect("description");
    assert_eq!(description, VERSIONING_DESCRIPTION);
    assert!(description.contains("1.0.0"), "{description}");
}

#[test]
fn schema_json_keeps_short_scalar_arrays_inline() {
    let body = schema_json();
    assert!(body.contains("\"required\": [\"change-files\", \"conventional-commits\"]"), "{body}");
    assert!(body.ends_with("}\n"), "{body}");
}

#[test]
fn schema_json_round_trips_to_schema() {
    let body = schema_json();
    let parsed: serde_json::Value = serde_json::from_str(&body).expect("schema_json is JSON");
    assert_eq!(parsed, as_json(&schema()));
    assert!(body.ends_with('\n'));
}

#[test]
fn pretty_json_indents_nested_values_and_keeps_scalar_lists_inline() {
    let doc = DocValue::Table(vec![
        ("a".to_string(), DocValue::List(vec![DocValue::Text("x\"y".to_string()), DocValue::Flag(true)])),
        ("b".to_string(), DocValue::Table(vec![("c".to_string(), DocValue::Other("1".to_string()))])),
        ("d".to_string(), DocValue::List(vec![DocValue::Table(Vec::new())])),
        ("e".to_string(), DocValue::List(Vec::new())),
    ]);
    assert_eq!(
        pretty_json(&doc),
        "{\n  \"a\": [\"x\\\"y\", true],\n  \"b\": {\n    \"c\": 1\n  },\n  \"d\": [\n    {}\n  ],\n  \"e\": []\n}\n"
    );
}
