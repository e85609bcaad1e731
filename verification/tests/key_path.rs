use oakum::key_path::{self, KeyEntry};

/// One path segment, quoted exactly when TOML requires it.
fn segment(key: &toml_edit::Key) -> String {
    key.default_repr()
        .as_raw()
        .as_str()
        .map_or_else(|| key.get().to_owned(), ToOwned::to_owned)
}

fn entry(key: &toml_edit::Key, tables: Vec<Vec<KeyEntry>>) -> KeyEntry {
    KeyEntry {
        segment: segment(key),
        span: key.span().map(|span| (span.start, span.end)),
        tables,
    }
}

fn table_keys(table: &toml_edit::Table) -> Vec<KeyEntry> {
    let mut out = Vec::new();
    for (name, item) in table {
        if let Some(key) = table.key(name) {
            out.push(entry(key, item_tables(item)));
        }
    }
    out
}

fn inline_keys(inline: &toml_edit::InlineTable) -> Vec<KeyEntry> {
    let mut out = Vec::new();
    for (name, value) in inline {
        if let Some(key) = inline.key(name) {
            out.push(entry(key, value_tables(value)));
        }
    }
    out
}

fn value_tables(value: &toml_edit::Value) -> Vec<Vec<KeyEntry>> {
    if let Some(nested) = value.as_inline_table() {
        return vec![inline_keys(nested)];
    }
    if let Some(array) = value.as_array() {
        return array
            .iter()
            .filter_map(toml_edit::Value::as_inline_table)
            .map(inline_keys)
            .collect();
    }
    Vec::new()
}

fn item_tables(item: &toml_edit::Item) -> Vec<Vec<KeyEntry>> {
    if let Some(child) = item.as_table() {
        return vec![table_keys(child)];
    }
    if let Some(array) = item.as_array_of_tables() {
        return array.iter().map(table_keys).collect();
    }
    match item.as_value() {
        Some(value) => value_tables(value),
        None => Vec::new(),
    }
}

/// The document's keys as a span-preserving read found them, then the walk.
fn qualified_key(text: &str, offset: usize) -> Option<String> {
    let document: toml_edit::Document<String> = text.parse().ok()?;
    key_path::qualified_key(&table_keys(document.as_table()), offset)
}

/// Direct walker cases as `(document, offset, text under the offset,
/// expected path)`. The third column is asserted against the document so a
/// miscounted offset fails naming itself instead of testing a stray byte.
#[test]
fn offsets_resolve_to_the_path_toml_resolved() {
    let cases: &[(&str, usize, &str, Option<&str>)] = &[
        // Top-level key.
        ("a = 1\nnope = 2\n", 6, "nope", Some("nope")),
        // The span covers the whole key, not only its first byte.
        ("a = 1\nnope = 2\n", 8, "pe", Some("nope")),
        // Nested table header scopes the key.
        ("[a.b]\nnope = 1\n", 6, "nope", Some("a.b.nope")),
        // Dotted key: the last segment names the full path; the first
        // names only itself.
        ("a.b.nope = 1\n", 4, "nope", Some("a.b.nope")),
        ("a.b.nope = 1\n", 0, "a", Some("a")),
        // Array of tables: either element, including the first of two.
        (
            "[[x]]\nnope = 1\n\n[[x]]\nnope = 2\n",
            6,
            "nope",
            Some("x.nope"),
        ),
        (
            "[[x]]\nnope = 1\n\n[[x]]\nnope = 2\n",
            22,
            "nope",
            Some("x.nope"),
        ),
        // Inline table members, at any depth.
        ("t = { a = 1, nope = 2 }\n", 13, "nope", Some("t.nope")),
        ("t = { u = { nope = 1 } }\n", 12, "nope", Some("t.u.nope")),
        // Inline array of tables, at a table's top level and inside an
        // inline table.
        ("t = [{ nope = 1 }]\n", 7, "nope", Some("t.nope")),
        ("t = { u = [{ nope = 1 }] }\n", 13, "nope", Some("t.u.nope")),
        // Quoted segments keep their quotes, in a header and inside an
        // inline table.
        (
            "[t.\"a.b\"]\nnope = 1\n",
            10,
            "nope",
            Some("t.\"a.b\".nope"),
        ),
        (
            "t = { \"a.b\" = { nope = 1 } }\n",
            16,
            "nope",
            Some("t.\"a.b\".nope"),
        ),
        (
            "[t.\"@s/p\"]\nnope = 1\n",
            11,
            "nope",
            Some("t.\"@s/p\".nope"),
        ),
        // Quotes that TOML does not require are dropped.
        ("[t.\"a\"]\nnope = 1\n", 8, "nope", Some("t.a.nope")),
        // A table header's own key.
        ("[t]\nnope = 1\n", 1, "t", Some("t")),
        // Inside a value, not a key.
        ("a = 1\n", 4, "1", None),
        ("t = { a = 1 }\n", 10, "1", None),
        // End of document, and past it.
        ("a = 1\n", 6, "", None),
        ("a = 1\n", 100, "", None),
        // Not TOML: no path rather than a guess.
        ("a = \n", 0, "a", None),
    ];
    let mut mismatches = Vec::new();
    for (document, offset, under, expected) in cases {
        assert!(
            document.get(*offset..).unwrap_or("").starts_with(under),
            "offset {offset} of {document:?} is not on {under:?}"
        );
        let actual = qualified_key(document, *offset);
        if actual.as_deref() != *expected {
            mismatches.push(format!(
                "offset {offset} ({under:?}) of {document:?}: got {actual:?}, expected {expected:?}"
            ));
        }
    }
    assert!(mismatches.is_empty(), "{}", mismatches.join("\n"));
}

#[test]
fn the_walk_takes_the_first_key_in_document_order() {
    let keys = vec![
        KeyEntry {
            segment: String::from("a"),
            span: Some((0, 1)),
            tables: vec![vec![KeyEntry {
                segment: String::from("b"),
                span: Some((5, 6)),
                tables: Vec::new(),
            }]],
        },
        KeyEntry {
            segment: String::from("c"),
            span: Some((5, 6)),
            tables: Vec::new(),
        },
    ];
    assert_eq!(key_path::qualified_key(&keys, 5).as_deref(), Some("a.b"));
    assert_eq!(key_path::qualified_key(&keys, 0).as_deref(), Some("a"));
    assert_eq!(key_path::qualified_key(&keys, 3), None);
}

/// The refusal the reader gives an unknown key found at the first
/// occurrence of `needle` (plus `skip` bytes), as the TOML deserializer
/// reports it: `unknown field`, with the list of expected keys.
fn unknown_at(text: &str, needle: &str, skip: usize, field: &str) -> String {
    let at = text.find(needle).unwrap_or_else(|| panic!("{needle}")) + skip;
    oakum::config::read_refusal(
        text,
        &format!("unknown field `{field}`, expected one of `tool-version`, `change-files`"),
        Some(at),
    )
    .message()
}

#[test]
fn unknown_key_is_an_error() {
    let err = unknown_at("tool-version = \"0.0.0\"\ngit-user = \"x\"\n", "git-user", 0, "git-user");
    assert!(err.contains("unknown configuration key `git-user`"), "{err}");
    assert!(!err.contains("expected one of"), "{err}");
}

#[test]
fn snake_case_key_is_unknown() {
    let err = unknown_at("tool-version = \"0.0.0\"\nchange_files = false\n", "change_files", 0, "change_files");
    assert!(err.contains("unknown configuration key `change_files`"), "{err}");
    assert!(!err.contains("expected one of"), "{err}");
}

#[test]
fn a_key_scoped_into_a_table_is_named_with_its_table() {
    let text = "tool-version = \"0.0.0\"\n\n[private-packages]\nversion = true\n\ncommit-message = \"chore: release\"\n";
    let err = unknown_at(text, "commit-message", 0, "commit-message");
    assert!(err.contains("unknown configuration key `private-packages.commit-message`"), "{err}");
}

#[test]
fn a_dotted_key_inside_a_table_is_not_named_with_a_path_the_document_lacks() {
    let text = "tool-version = \"0.0.0\"\n\n[private-packages]\nnope.deeper = true\n";
    let err = unknown_at(text, "nope", 0, "nope");
    assert!(err.contains("unknown configuration key"), "{err}");
    assert!(!err.contains("private-packages.nope.deeper"), "a path the document does not hold must not be printed: {err}");
}

#[test]
fn a_bracketed_line_in_a_string_does_not_invent_a_table() {
    let text = "tool-version = \"0.0.0\"\ncommit-message = \"\"\"\n[private-packages]\n\"\"\"\nversion = true\n\n[private-packages]\ntag = true\n";
    let err = unknown_at(text, "\nversion = true", 1, "version");
    assert!(err.contains("unknown configuration key `version`"), "{err}");
    assert!(!err.contains("private-packages"), "{err}");
}

#[test]
fn a_header_with_a_trailing_comment_is_still_the_keys_table() {
    let text = "tool-version = \"0.0.0\"\n\n[private-packages]\nversion = true\n\n[packages.core] # a comment\nversion = \"x\"\n";
    let err = unknown_at(text, "version = \"x\"", 0, "version");
    assert!(err.contains("unknown configuration key `packages.core.version`"), "{err}");
}

#[test]
fn a_key_inside_a_nested_inline_table_is_named_in_full() {
    let shallow = unknown_at(
        "tool-version = \"0.0.0\"\nprivate-packages = { version = true, bogus = 1 }\n",
        "bogus",
        0,
        "bogus",
    );
    assert!(shallow.contains("unknown configuration key `private-packages.bogus`"), "{shallow}");

    let nested = unknown_at(
        "tool-version = \"0.0.0\"\npackages = { core = { publish = true } }\n",
        "publish",
        0,
        "publish",
    );
    assert!(nested.contains("unknown configuration key `packages.core.publish`"), "{nested}");
}

#[test]
fn a_key_under_an_array_of_tables_is_named_in_any_element() {
    let one = unknown_at(
        "tool-version = \"0.0.0\"\n\n[[packages.demo.extra-files]]\nnope = 1\n",
        "nope",
        0,
        "nope",
    );
    assert!(one.contains("unknown configuration key `packages.demo.extra-files.nope`"), "{one}");

    let first_of_two = unknown_at(
        "tool-version = \"0.0.0\"\n\n[[packages.demo.extra-files]]\nnope = 1\n\n[[packages.demo.extra-files]]\nfile = \"b\"\n",
        "nope",
        0,
        "nope",
    );
    assert!(first_of_two.contains("unknown configuration key `packages.demo.extra-files.nope`"), "{first_of_two}");
}

#[test]
fn an_inline_array_of_tables_names_its_key_too() {
    let err = unknown_at(
        "tool-version = \"0.0.0\"\n\n[packages.demo]\nextra-files = [{ path = \"a.json\", format = \"json\", key = \"version\", nope = 1 }]\n",
        "nope",
        0,
        "nope",
    );
    assert!(err.contains("unknown configuration key `packages.demo.extra-files.nope`"), "{err}");

    let nested = unknown_at(
        "tool-version = \"0.0.0\"\npackages = { core = { extra-files = [{ nope = 1 }] } }\n",
        "nope",
        0,
        "nope",
    );
    assert!(nested.contains("unknown configuration key `packages.core.extra-files.nope`"), "{nested}");
}

#[test]
fn a_quoted_segment_inside_an_inline_table_is_printed_quoted() {
    let err = unknown_at(
        "tool-version = \"0.0.0\"\npackages = { \"lodash.merge\" = { nope = 1 } }\n",
        "nope",
        0,
        "nope",
    );
    assert!(err.contains("unknown configuration key `packages.\"lodash.merge\".nope`"), "{err}");
}

#[test]
fn a_segment_that_needs_quoting_is_printed_quoted() {
    for (name, expected) in [
        ("lodash.merge", "packages.\"lodash.merge\".nope"),
        ("@scope/pkg", "packages.\"@scope/pkg\".nope"),
    ] {
        let text = format!("tool-version = \"0.0.0\"\n\n[packages.\"{name}\"]\nnope = 1\n");
        let err = unknown_at(&text, "nope", 0, "nope");
        assert!(err.contains(&format!("unknown configuration key `{expected}`")), "{name}: {err}");
    }
}

#[test]
fn a_quoted_or_spaced_header_is_named_as_resolved() {
    for typed in ["[packages.\"core\"]", "[ packages . core ]"] {
        let text = format!("tool-version = \"0.0.0\"\n\n{typed}\nbogus = 1\n");
        let err = unknown_at(&text, "bogus", 0, "bogus");
        assert!(err.contains("unknown configuration key `packages.core.bogus`"), "{typed}: {err}");
    }
}
