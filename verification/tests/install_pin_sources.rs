use oakum::documents::DocValue;
use oakum::install_pin::{
    exclude_paths, is_excluded, is_yaml, manifest_pin, member_manifests, members_paths,
    merge_pin, mise_pin, normalized_rel_path, package_json_pin, path_in, verify_pins,
    workflow_pins, FoundPin, MemberManifests,
};
use oakum::outcome::CliError;
use oakum::versions::parse_version;

fn json_doc(v: &serde_json::Value) -> DocValue {
    match v {
        serde_json::Value::String(s) => DocValue::Text(s.clone()),
        serde_json::Value::Bool(b) => DocValue::Flag(*b),
        serde_json::Value::Array(items) => DocValue::List(items.iter().map(json_doc).collect()),
        serde_json::Value::Object(map) => DocValue::Table(
            map.iter()
                .map(|(k, v)| (k.clone(), json_doc(v)))
                .collect(),
        ),
        other => DocValue::Other(other.to_string()),
    }
}

fn toml_doc(v: &toml::Value) -> DocValue {
    match v {
        toml::Value::String(s) => DocValue::Text(s.clone()),
        toml::Value::Boolean(b) => DocValue::Flag(*b),
        toml::Value::Array(items) => DocValue::List(items.iter().map(toml_doc).collect()),
        toml::Value::Table(map) => DocValue::Table(
            map.iter()
                .map(|(k, v)| (k.clone(), toml_doc(v)))
                .collect(),
        ),
        other => DocValue::Other(other.to_string()),
    }
}

fn json(text: &str) -> DocValue {
    json_doc(&serde_json::from_str::<serde_json::Value>(text).unwrap())
}

fn toml_text(text: &str) -> DocValue {
    toml_doc(&toml::from_str::<toml::Value>(text).unwrap())
}

fn pin(source: &str, version: &str) -> FoundPin {
    FoundPin {
        source: source.to_string(),
        version: parse_version(version).unwrap(),
    }
}

#[test]
fn package_json_later_section_cannot_hide_an_inexact_pin() {
    let doc = json(r#"{"dependencies":{"oakum":"0.0.0"},"devDependencies":{"oakum":"latest"}}"#);
    let err = package_json_pin(&doc).unwrap_err();
    assert!(err.contains("latest"), "{err}");
}

#[test]
fn package_json_peer_section_cannot_hide_an_inexact_pin() {
    let doc = json(r#"{"dependencies":{"oakum":"0.0.0"},"peerDependencies":{"oakum":"latest"}}"#);
    let err = package_json_pin(&doc).unwrap_err();
    assert!(err.contains("latest"), "{err}");
}

#[test]
fn package_json_range_is_not_an_exact_pin() {
    let doc = json(r#"{"devDependencies":{"oakum":"^0.1.0"}}"#);
    let err = package_json_pin(&doc).unwrap_err();
    assert!(err.contains("not an exact version"), "{err}");
    assert!(err.contains("^0.1.0"), "{err}");
}

#[test]
fn package_json_exact_pin_is_collected() {
    let doc = json(r#"{"devDependencies":{"oakum":"0.4.2"}}"#);
    let found = package_json_pin(&doc).unwrap().unwrap();
    assert_eq!(found.source, "package.json");
    assert_eq!(found.version.text(), "0.4.2");
}

#[test]
fn package_json_conflicting_exact_versions_are_unverified() {
    let doc = json(r#"{"dependencies":{"oakum":"0.0.0"},"devDependencies":{"oakum":"1.0.0"}}"#);
    let err = package_json_pin(&doc).unwrap_err();
    assert_eq!(
        err,
        "unverified: `package.json` pins oakum as both `0.0.0` and `1.0.0`"
    );
}

#[test]
fn package_json_non_string_pin_is_unverified() {
    let doc = json(r#"{"devDependencies":{"oakum":{"version":"0.0.0"}}}"#);
    let err = package_json_pin(&doc).unwrap_err();
    assert!(err.contains("non-string"), "{err}");
}

#[test]
fn package_json_optional_section_inexact_pin_is_unverified() {
    let doc = json(r#"{"optionalDependencies":{"oakum":"latest"}}"#);
    let err = package_json_pin(&doc).unwrap_err();
    assert!(err.contains("latest"), "{err}");
}

#[test]
fn package_json_non_object_root_is_unverified() {
    let err = package_json_pin(&json("[]")).unwrap_err();
    assert!(err.contains("not a JSON object"), "{err}");
}

#[test]
fn package_json_non_object_section_is_unverified() {
    let doc = json(r#"{"devDependencies":"oakum@latest"}"#);
    let err = package_json_pin(&doc).unwrap_err();
    assert_eq!(
        err,
        "unverified: `package.json` `devDependencies` is not an object"
    );
}

#[test]
fn package_json_without_oakum_has_no_pin() {
    let doc = json(r#"{"dependencies":{"left-pad":"1.0.0"}}"#);
    assert!(package_json_pin(&doc).unwrap().is_none());
}

#[test]
fn mise_exact_pin_is_collected() {
    let doc = toml_text("[tools]\noakum = \"0.4.2\"\n");
    let found = mise_pin(".mise.toml", &doc).unwrap().unwrap();
    assert_eq!(found.source, ".mise.toml");
    assert_eq!(found.version.text(), "0.4.2");
}

#[test]
fn mise_cargo_backend_and_table_form_are_pins() {
    let doc = toml_text("[tools]\n\"cargo:oakum\" = { version = \"0.1.0\" }\n");
    let found = mise_pin("mise.toml", &doc).unwrap().unwrap();
    assert_eq!(found.source, "mise.toml");
    assert_eq!(found.version.text(), "0.1.0");
}

#[test]
fn mise_latest_is_unverified() {
    let doc = toml_text("[tools]\noakum = \"latest\"\n");
    let err = mise_pin(".mise.toml", &doc).unwrap_err();
    assert_eq!(
        err,
        "unverified: `.mise.toml` pins oakum as `latest`, which is not an exact version"
    );
}

#[test]
fn mise_conflicting_files_are_unverified() {
    let first = mise_pin(".mise.toml", &toml_text("[tools]\noakum = \"0.1.0\"\n"))
        .unwrap()
        .unwrap();
    let second = mise_pin("mise.toml", &toml_text("[tools]\noakum = \"0.2.0\"\n"))
        .unwrap()
        .unwrap();
    let err = merge_pin(Some(first), second).unwrap_err();
    assert_eq!(
        err,
        "unverified: `.mise.toml` pins oakum as `0.1.0` but `mise.toml` pins `0.2.0`"
    );
}

#[test]
fn mise_tools_that_is_not_a_table_is_unverified() {
    let doc = toml_text("tools = \"oakum@latest\"\n");
    let err = mise_pin(".mise.toml", &doc).unwrap_err();
    assert!(err.contains("not a table"), "{err}");
}

#[test]
fn mise_table_without_a_version_is_unverified() {
    let doc = toml_text("[tools]\noakum = { backend = \"cargo\" }\n");
    let err = mise_pin("mise.toml", &doc).unwrap_err();
    assert_eq!(
        err,
        "unverified: `mise.toml` pins `oakum` with a value that is not an exact version"
    );
}

#[test]
fn mise_other_tools_are_not_pins() {
    let doc = toml_text("[tools]\nnode = \"20\"\n");
    assert!(mise_pin(".mise.toml", &doc).unwrap().is_none());
}

#[test]
fn workspace_member_named_oakum_is_a_pin() {
    let root = toml_text("[workspace]\nmembers = [\"crates/oakum\"]\n");
    let ws = root.get("workspace").unwrap();
    let members = members_paths(ws).unwrap().unwrap();
    assert_eq!(members, vec!["crates/oakum".to_string()]);
    let path = match member_manifests(&members[0]).unwrap() {
        MemberManifests::Literal(p) => p,
        other => panic!("expected a literal path, got {other:?}"),
    };
    assert_eq!(path, "crates/oakum/Cargo.toml");
    let manifest =
        toml_text("[package]\nname = \"oakum\"\nversion = \"0.4.2\"\nedition = \"2021\"\n");
    let found = manifest_pin(&manifest, &path, &root).unwrap().unwrap();
    assert_eq!(found.source, "crates/oakum/Cargo.toml");
    assert_eq!(found.version.text(), "0.4.2");
}

#[test]
fn workspace_inherited_oakum_version_is_a_pin() {
    let root = toml_text(
        "[workspace]\nmembers = [\"crates/oakum\"]\n\n[workspace.package]\nversion = \"1.2.3\"\n",
    );
    let manifest =
        toml_text("[package]\nname = \"oakum\"\nversion.workspace = true\nedition = \"2021\"\n");
    let found = manifest_pin(&manifest, "crates/oakum/Cargo.toml", &root)
        .unwrap()
        .unwrap();
    assert_eq!(found.version.text(), "1.2.3");
}

#[test]
fn workspace_without_oakum_package_yields_no_pin() {
    let root = toml_text("[workspace]\nmembers = [\"crates/demo\"]\n");
    let manifest =
        toml_text("[package]\nname = \"demo\"\nversion = \"0.1.0\"\nedition = \"2021\"\n");
    assert!(manifest_pin(&manifest, "crates/demo/Cargo.toml", &root)
        .unwrap()
        .is_none());
}

#[test]
fn root_package_named_oakum_is_a_pin() {
    let root = toml_text(
        "[package]\nname = \"oakum\"\nversion = \"0.9.0\"\nedition = \"2021\"\n\n[workspace]\n",
    );
    let found = manifest_pin(&root, "Cargo.toml", &root).unwrap().unwrap();
    assert_eq!(found.source, "Cargo.toml");
    assert_eq!(found.version.text(), "0.9.0");
}

#[test]
fn workspace_path_table_member_is_a_pin() {
    let root = toml_text("[workspace]\nmembers = [{ path = \"crates/oakum\" }]\n");
    let members = members_paths(root.get("workspace").unwrap())
        .unwrap()
        .unwrap();
    assert_eq!(members, vec!["crates/oakum".to_string()]);
}

#[test]
fn workspace_glob_member_finds_oakum() {
    assert_eq!(
        member_manifests("crates/*").unwrap(),
        MemberManifests::Children("crates".to_string())
    );
    assert_eq!(
        path_in(&path_in("crates", "oakum"), "Cargo.toml"),
        "crates/oakum/Cargo.toml"
    );
}

#[test]
fn workspace_inherited_version_without_workspace_package_is_unverified() {
    let root = toml_text("[workspace]\nmembers = [\"crates/oakum\"]\n");
    let manifest =
        toml_text("[package]\nname = \"oakum\"\nversion.workspace = true\nedition = \"2021\"\n");
    let err = manifest_pin(&manifest, "crates/oakum/Cargo.toml", &root).unwrap_err();
    assert_eq!(
        err,
        "unverified: `crates/oakum/Cargo.toml` inherits `version` but `[workspace.package].version` is missing"
    );
}

#[test]
fn conflicting_workspace_oakum_versions_are_unverified() {
    let err = merge_pin(
        Some(pin("crates/a/Cargo.toml", "0.1.0")),
        pin("crates/b/Cargo.toml", "0.2.0"),
    )
    .unwrap_err();
    assert!(err.contains("0.1.0"), "{err}");
    assert!(err.contains("0.2.0"), "{err}");
}

#[test]
fn a_second_pin_of_the_same_version_keeps_the_first() {
    let kept = merge_pin(
        Some(pin("crates/a/Cargo.toml", "0.1.0")),
        pin("crates/b/Cargo.toml", "0.1.0"),
    )
    .unwrap()
    .unwrap();
    assert_eq!(kept.source, "crates/a/Cargo.toml");
}

#[test]
fn excluded_glob_member_is_not_a_workspace_pin() {
    let root = toml_text("[workspace]\nmembers = [\"crates/*\"]\nexclude = [\"crates/oakum\"]\n");
    let excluded: Vec<String> = exclude_paths(root.get("workspace").unwrap())
        .unwrap()
        .iter()
        .map(|rel| normalized_rel_path(rel))
        .collect();
    assert!(is_excluded(&excluded, "crates/oakum"));
    assert!(!is_excluded(&excluded, "crates/keep"));
}

#[test]
fn exclude_dot_slash_spelling_matches_glob_member() {
    assert_eq!(normalized_rel_path("./crates/oakum"), "crates/oakum");
    assert_eq!(normalized_rel_path("crates/../crates/./oakum/"), "crates/oakum");
    assert_eq!(normalized_rel_path("../.."), "");
}

#[test]
fn unsupported_members_glob_is_unverified() {
    let err = member_manifests("crates/oaku?").unwrap_err();
    assert!(err.contains("unsupported"), "{err}");
    assert!(err.contains("crates/oaku?"), "{err}");
    assert!(member_manifests("*").is_err());
}

#[test]
fn workspace_members_not_an_array_is_unverified() {
    let root = toml_text("[workspace]\nmembers = \"crates/oakum\"\n");
    let err = members_paths(root.get("workspace").unwrap()).unwrap_err();
    assert!(err.contains("not an array"), "{err}");
}

#[test]
fn only_yaml_files_are_workflows() {
    assert!(is_yaml("release.yml"));
    assert!(is_yaml("ci.YAML"));
    assert!(!is_yaml("notes.md"));
    assert!(!is_yaml(".yml"));
    assert!(!is_yaml("yml"));
}

#[test]
fn inexact_pin_is_unverified_even_when_another_pin_matches() {
    let err = workflow_pins(
        ".github/workflows/ci.yml",
        "run: cargo binstall --no-confirm oakum@latest\n",
    )
    .unwrap_err();
    assert_eq!(
        err,
        "unverified: `.github/workflows/ci.yml` pins oakum as `latest`, which is not an exact version"
    );
}

#[test]
fn an_unversioned_workflow_install_names_the_file() {
    let err = workflow_pins(".github/workflows/ci.yml", "run: cargo binstall oakum\n").unwrap_err();
    assert_eq!(
        err,
        "unverified: `.github/workflows/ci.yml` installs oakum without a version"
    );
}

#[test]
fn workflow_pins_carry_their_file() {
    let pins = workflow_pins(
        ".github/workflows/release.yml",
        "run: cargo binstall --no-confirm oakum@0.0.0\n",
    )
    .unwrap();
    assert_eq!(pins.len(), 1);
    assert_eq!(pins[0].source, ".github/workflows/release.yml");
    assert_eq!(pins[0].version.text(), "0.0.0");
}

#[test]
fn no_pin_at_all_is_unverified_and_suggests_one() {
    let expected = parse_version("1.2.3").unwrap();
    match verify_pins(&Vec::new(), &expected) {
        Err(CliError::Unverified { detail }) => {
            assert!(detail.starts_with("unverified: no oakum install pin"), "{detail}");
            assert!(detail.ends_with("`cargo binstall --no-confirm oakum@1.2.3`"), "{detail}");
        }
        other => panic!("expected unverified, got {other:?}"),
    }
}

#[test]
fn matching_pins_verify() {
    let expected = parse_version("1.2.3").unwrap();
    let pins = vec![pin("package.json", "1.2.3"), pin(".mise.toml", "1.2.3")];
    assert!(verify_pins(&pins, &expected).is_ok());
}

#[test]
fn mismatched_pins_are_listed_with_their_files() {
    let expected = parse_version("1.2.3").unwrap();
    let pins = vec![
        pin("package.json", "1.2.3"),
        pin(".github/workflows/release.yml", "1.0.0"),
        pin("mise.toml", "2.0.0"),
    ];
    match verify_pins(&pins, &expected) {
        Err(CliError::Unverified { detail }) => assert_eq!(
            detail,
            "unverified: install pin is 1.0.0 (.github/workflows/release.yml), 2.0.0 (mise.toml) but `tool-version` is `1.2.3`"
        ),
        other => panic!("expected unverified, got {other:?}"),
    }
}
