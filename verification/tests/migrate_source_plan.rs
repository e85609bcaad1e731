use oakum::migrate::ReleaseTool;
use oakum::migrate_source_plan::{
    bumpy_outcome, bumpy_releases, changesets_outcome, changesets_releases, no_before_plan,
    package_id_for_manifest_path, parse_knope_dry_run, parse_knope_version_payload,
    paths_equal_or_suffix, primary_plan_tool, releases_to_fingerprint, BumpyRelease,
    ChangesetsRelease, Fingerprint, SourceBeforePlan,
};
use oakum::plan::{Ecosystem, Package, PackageId, Workspace};
use oakum::versions::parse_version;

fn cargo_ws(name: &str, version: &str) -> Workspace {
    let pkg = Package::new(
        PackageId::new(Ecosystem::Cargo, name),
        parse_version(version).unwrap(),
        true,
    );
    Workspace::new(vec![pkg])
}

fn cargo_pkg(name: &str, version: &str, dir: &str) -> Package {
    Package::new(
        PackageId::new(Ecosystem::Cargo, name),
        parse_version(version).unwrap(),
        true,
    )
    .with_manifest_dir(dir.to_string())
}

fn text_field(v: &serde_json::Value, key: &str) -> Option<String> {
    v.get(key).and_then(|x| x.as_str()).map(|s| s.to_string())
}

fn bumpy_from_json(json: &str) -> Vec<BumpyRelease> {
    let parsed: serde_json::Value = serde_json::from_str(json).unwrap();
    parsed["releases"]
        .as_array()
        .unwrap()
        .iter()
        .map(|r| BumpyRelease {
            name: text_field(r, "name").unwrap(),
            old_version: text_field(r, "oldVersion").unwrap(),
            new_version: text_field(r, "newVersion").unwrap(),
            release_type: text_field(r, "type"),
        })
        .collect()
}

fn changesets_from_json(json: &str) -> Vec<ChangesetsRelease> {
    let parsed: serde_json::Value = serde_json::from_str(json).unwrap();
    parsed["releases"]
        .as_array()
        .unwrap()
        .iter()
        .map(|r| ChangesetsRelease {
            name: text_field(r, "name").unwrap(),
            release_type: text_field(r, "type").unwrap(),
            old_version: text_field(r, "oldVersion"),
            new_version: text_field(r, "newVersion"),
        })
        .collect()
}

fn versions_of(fp: &Fingerprint, name: &str) -> Option<(String, String)> {
    fp.get(&PackageId::new(Ecosystem::Cargo, name))
        .map(|(a, b)| (a.text(), b.text()))
}

fn pair(a: &str, b: &str) -> Option<(String, String)> {
    Some((a.to_string(), b.to_string()))
}

#[test]
fn bumpy_json_parses_releases() {
    let ws = cargo_ws("core", "0.1.0");
    let json = r#"{
      "releases": [
        {"name": "core", "type": "minor", "oldVersion": "0.1.0", "newVersion": "0.2.0"}
      ],
      "packageNames": ["core"]
    }"#;
    let triples = bumpy_releases(&bumpy_from_json(json));
    let fp = releases_to_fingerprint(&triples, &ws, "bumpy").unwrap();
    assert_eq!(versions_of(&fp, "core"), pair("0.1.0", "0.2.0"));
}

#[test]
fn changesets_json_skips_none() {
    let ws = cargo_ws("core", "1.0.0");
    let json = r#"{
      "releases": [
        {"name": "other", "type": "none"},
        {"name": "core", "type": "patch", "oldVersion": "1.0.0", "newVersion": "1.0.1"}
      ]
    }"#;
    let triples = changesets_releases(&changesets_from_json(json));
    let fp = releases_to_fingerprint(&triples, &ws, "changesets").unwrap();
    assert_eq!(fp.len(), 1);
}

#[test]
fn knope_dry_run_root_manifest() {
    let ws = cargo_ws("core", "0.1.0");
    let text = "Would add the following to Cargo.toml: 0.1.1\nWould delete: .changeset/x.md\n";
    let fp = parse_knope_dry_run(text, &ws).unwrap();
    assert_eq!(versions_of(&fp, "core"), pair("0.1.0", "0.1.1"));
}

#[test]
fn knope_dry_run_accepts_version_assignment() {
    let ws = cargo_ws("core", "0.1.0");
    let text = "Would add the following to Cargo.toml: version = 0.1.1\n";
    let fp = parse_knope_dry_run(text, &ws).unwrap();
    assert_eq!(versions_of(&fp, "core"), pair("0.1.0", "0.1.1"));
}

#[test]
fn knope_path_does_not_suffix_match_sibling_names() {
    let core = cargo_pkg("core", "0.1.0", "core");
    let notcore = cargo_pkg("notcore", "0.2.0", "notcore");
    let ws = Workspace::new(vec![core, notcore]);
    let text = "Would add the following to notcore/Cargo.toml: 0.2.1\n";
    let fp = parse_knope_dry_run(text, &ws).unwrap();
    assert_eq!(fp.len(), 1);
    assert!(versions_of(&fp, "notcore").is_some());
    assert!(versions_of(&fp, "core").is_none());
}

#[test]
fn knope_bare_manifest_rejects_when_no_root_package() {
    let left = cargo_pkg("app", "0.1.0", "app");
    let right = cargo_pkg("aaa", "0.1.0", "aaa");
    let ws = Workspace::new(vec![left, right]);
    let text = "Would add the following to Cargo.toml: 0.1.1\n";
    let err = parse_knope_dry_run(text, &ws).unwrap_err();
    assert!(err.contains("Cargo.toml"), "{err}");
}

#[test]
fn primary_prefers_knope() {
    assert_eq!(primary_plan_tool(true, true, true), Some(ReleaseTool::Knope));
    assert_eq!(primary_plan_tool(false, true, true), Some(ReleaseTool::Bumpy));
    assert_eq!(
        primary_plan_tool(false, false, true),
        Some(ReleaseTool::Changesets)
    );
    assert_eq!(primary_plan_tool(false, false, false), None);
}

#[test]
fn knope_payload_takes_the_first_token_without_quotes_or_separators() {
    assert_eq!(
        parse_knope_version_payload("version = \"1.2.3\"").unwrap().text(),
        "1.2.3"
    );
    assert_eq!(
        parse_knope_version_payload("1.2.4, other = 2").unwrap().text(),
        "1.2.4"
    );
    assert_eq!(
        parse_knope_version_payload(" 2.0.0; extra").unwrap().text(),
        "2.0.0"
    );
    assert!(parse_knope_version_payload("not-a-version").is_err());
}

#[test]
fn knope_refuses_an_unparseable_version() {
    let ws = cargo_ws("core", "0.1.0");
    let text = "Would add the following to Cargo.toml: soon\n";
    let err = parse_knope_dry_run(text, &ws).unwrap_err();
    assert!(err.starts_with("knope dry-run version `soon`: "), "{err}");
}

#[test]
fn knope_ignores_lines_about_other_files() {
    let ws = cargo_ws("core", "0.1.0");
    let text = "Would add the following to CHANGELOG.md: ## 0.1.1\nnothing here\n";
    let fp = parse_knope_dry_run(text, &ws).unwrap();
    assert_eq!(fp.len(), 0);
}

#[test]
fn a_release_naming_no_package_is_refused() {
    let ws = cargo_ws("core", "0.1.0");
    let triples = vec![(
        "ghost".to_string(),
        "0.1.0".to_string(),
        "0.2.0".to_string(),
    )];
    let err = releases_to_fingerprint(&triples, &ws, "bumpy").unwrap_err();
    assert_eq!(err, "bumpy release `ghost` matches no workspace package");
}

#[test]
fn a_bad_old_version_is_refused_with_the_tool_and_name() {
    let ws = cargo_ws("core", "0.1.0");
    let triples = vec![(
        "core".to_string(),
        "zero".to_string(),
        "0.2.0".to_string(),
    )];
    let err = releases_to_fingerprint(&triples, &ws, "changesets").unwrap_err();
    assert!(
        err.starts_with("changesets oldVersion `zero` for `core`: "),
        "{err}"
    );
}

#[test]
fn the_last_release_of_a_package_wins() {
    let ws = cargo_ws("core", "0.1.0");
    let triples = vec![
        ("core".to_string(), "0.1.0".to_string(), "0.2.0".to_string()),
        ("core".to_string(), "0.1.0".to_string(), "0.3.0".to_string()),
    ];
    let fp = releases_to_fingerprint(&triples, &ws, "bumpy").unwrap();
    assert_eq!(fp.len(), 1);
    assert_eq!(versions_of(&fp, "core"), pair("0.1.0", "0.3.0"));
}

#[test]
fn bumpy_releases_drop_type_none() {
    let rs = vec![
        BumpyRelease {
            name: "a".to_string(),
            old_version: "1.0.0".to_string(),
            new_version: "1.0.0".to_string(),
            release_type: Some("none".to_string()),
        },
        BumpyRelease {
            name: "b".to_string(),
            old_version: "1.0.0".to_string(),
            new_version: "1.1.0".to_string(),
            release_type: None,
        },
    ];
    let out = bumpy_releases(&rs);
    assert_eq!(
        out,
        vec![("b".to_string(), "1.0.0".to_string(), "1.1.0".to_string())]
    );
}

#[test]
fn changesets_releases_need_both_versions() {
    let rs = vec![ChangesetsRelease {
        name: "a".to_string(),
        release_type: "patch".to_string(),
        old_version: Some("1.0.0".to_string()),
        new_version: None,
    }];
    assert!(changesets_releases(&rs).is_empty());
}

#[test]
fn manifest_paths_match_exactly_or_as_a_directory_suffix() {
    let chars = |s: &str| s.chars().collect::<Vec<char>>();
    assert!(paths_equal_or_suffix(&chars("Cargo.toml"), &chars("Cargo.toml")));
    assert!(paths_equal_or_suffix(
        &chars("/repo/crates/core/Cargo.toml"),
        &chars("crates/core/Cargo.toml")
    ));
    assert!(!paths_equal_or_suffix(
        &chars("crates/core/Cargo.toml"),
        &chars("Cargo.toml")
    ));
    assert!(!paths_equal_or_suffix(
        &chars("notcore/Cargo.toml"),
        &chars("core/Cargo.toml")
    ));
}

#[test]
fn a_windows_path_names_its_package() {
    let ws = Workspace::new(vec![cargo_pkg("core", "0.1.0", "crates/core")]);
    let id = package_id_for_manifest_path("crates\\core\\Cargo.toml", &ws).unwrap();
    assert_eq!(id.name, "core");
}

#[test]
fn a_tool_without_a_before_plan_says_so() {
    match no_before_plan(ReleaseTool::ReleasePlz) {
        SourceBeforePlan::Unavailable { tool, reason } => {
            assert_eq!(tool, ReleaseTool::ReleasePlz);
            assert!(reason.ends_with(" has no migrate before-plan command"));
        }
        other => panic!("expected Unavailable, got {other:?}"),
    }
}

#[test]
fn a_failed_changeset_run_is_not_a_plan_even_with_output() {
    let fp = Fingerprint::new();
    match changesets_outcome(false, "2", "  boom \n", Ok(Ok(fp))) {
        SourceBeforePlan::Unavailable { tool, reason } => {
            assert_eq!(tool, ReleaseTool::Changesets);
            assert_eq!(reason, "`changeset status` exited 2: boom");
        }
        other => panic!("expected Unavailable, got {other:?}"),
    }
}

#[test]
fn a_missing_changeset_output_file_names_the_read_error() {
    match changesets_outcome(true, "0", "", Err("gone".to_string())) {
        SourceBeforePlan::Unavailable { reason, .. } => {
            assert_eq!(reason, "changeset did not write `--output` file (gone)");
        }
        other => panic!("expected Unavailable, got {other:?}"),
    }
}

#[test]
fn bumpy_exit_one_with_nothing_pending_is_still_a_plan() {
    match bumpy_outcome(false, "1", "", Ok(Fingerprint::new())) {
        SourceBeforePlan::Available { tool, fingerprint } => {
            assert_eq!(tool, ReleaseTool::Bumpy);
            assert_eq!(fingerprint.len(), 0);
        }
        other => panic!("expected Available, got {other:?}"),
    }
}

#[test]
fn bumpy_failing_with_pending_releases_is_not_evidence() {
    let ws = cargo_ws("core", "0.1.0");
    let triples = vec![("core".to_string(), "0.1.0".to_string(), "0.2.0".to_string())];
    let fp = releases_to_fingerprint(&triples, &ws, "bumpy").unwrap();
    match bumpy_outcome(false, "1", "", Ok(fp)) {
        SourceBeforePlan::Unavailable { reason, .. } => {
            assert_eq!(reason, "`bumpy status --json` exited 1 with pending releases");
        }
        other => panic!("expected Unavailable, got {other:?}"),
    }
}

#[test]
fn a_bumpy_parse_failure_carries_stderr() {
    match bumpy_outcome(true, "0", "warn\n", Err("bumpy JSON: bad".to_string())) {
        SourceBeforePlan::Unavailable { reason, .. } => {
            assert_eq!(reason, "bumpy JSON: bad; stderr: warn");
        }
        other => panic!("expected Unavailable, got {other:?}"),
    }
}
