use oakum::version_plan::{
    cargo_lock_path, cargo_workspace_toml_path, inheritor_verdict, lock_path_for, needs_github,
    strip_bom, workspace_version_step,
};
use oakum::versions::parse_version;
use oakum::plan::{Ecosystem, PackageId};
use oakum::write_set::{overlap_refusal, overlapping_path, PlannedWrite};

fn v(s: &str) -> oakum::versions::SemVer {
    parse_version(s).unwrap()
}

#[test]
fn a_plan_needs_github_only_when_it_changes_something() {
    let same = PlannedWrite::new("a".to_string(), "x".to_string(), "x".to_string());
    let changed = PlannedWrite::new("b".to_string(), "x".to_string(), "y".to_string());
    let created = PlannedWrite::create("c".to_string(), String::new());
    assert!(!needs_github(&vec![same.clone()], 0));
    assert!(needs_github(&vec![same.clone()], 1));
    assert!(needs_github(&vec![same.clone(), changed], 0));
    assert!(needs_github(&vec![created], 0));
}

#[test]
fn every_inheritor_must_move_to_the_same_version() {
    assert!(inheritor_verdict("core", Some(v("1.1.0")), &v("1.1.0")).is_ok());
    assert_eq!(
        inheritor_verdict("cli", Some(v("2.0.0")), &v("1.1.0")).unwrap_err(),
        "cli inherits [workspace.package].version but the plan needs 2.0.0; another inheritor needs 1.1.0"
    );
    assert_eq!(
        inheritor_verdict("cli", None, &v("1.1.0")).unwrap_err(),
        "cli inherits [workspace.package].version and is not in the plan; writing 1.1.0 would change it without a changeset"
    );
}

#[test]
fn the_shared_version_moves_only_from_where_the_plan_starts() {
    assert_eq!(workspace_version_step(None, &v("1.0.0"), &v("1.1.0")), Ok(true));
    assert_eq!(
        workspace_version_step(Some("1.1.0".to_string()), &v("1.0.0"), &v("1.1.0")),
        Ok(false)
    );
    assert_eq!(
        workspace_version_step(Some("1.0.0".to_string()), &v("1.0.0"), &v("1.1.0")),
        Ok(true)
    );
    assert_eq!(
        workspace_version_step(Some("0.9.0".to_string()), &v("1.0.0"), &v("1.1.0")),
        Err("[workspace.package].version is already 0.9.0; cannot also set 1.1.0".to_string())
    );
}

#[test]
fn workspace_files_sit_at_the_cargo_root() {
    assert_eq!(cargo_lock_path(Some(String::new())), Some("Cargo.lock".to_string()));
    assert_eq!(cargo_lock_path(Some("rust".to_string())), Some("rust/Cargo.lock".to_string()));
    assert_eq!(cargo_lock_path(None), None);
    assert_eq!(cargo_workspace_toml_path(Some("rust".to_string())), Ok("rust/Cargo.toml".to_string()));
    assert!(cargo_workspace_toml_path(None).unwrap_err().contains("no cargo workspace root is set"));
    assert_eq!(lock_path_for(false, None), Ok(None));
    assert!(lock_path_for(true, None).unwrap_err().contains("Cargo.lock cannot be retargeted"));
    assert_eq!(lock_path_for(true, Some(String::new())), Ok(Some("Cargo.lock".to_string())));
}

#[test]
fn supplied_notes_lose_their_byte_order_marks() {
    assert_eq!(strip_bom("\u{FEFF}\u{FEFF}notes\u{FEFF}"), "notes\u{FEFF}");
    assert_eq!(strip_bom("notes"), "notes");
}

#[test]
fn a_path_both_written_and_deleted_is_refused() {
    let writes = vec![
        PlannedWrite::new("a".to_string(), "x".to_string(), "y".to_string()),
        PlannedWrite::new(".changeset/x.md".to_string(), "x".to_string(), "y".to_string()),
    ];
    let deletes = vec![".changeset/y.md".to_string(), ".changeset/x.md".to_string()];
    assert_eq!(overlapping_path(&writes, &deletes), Some(".changeset/x.md".to_string()));
    assert_eq!(overlapping_path(&writes, &vec!["b".to_string()]), None);
    assert_eq!(
        overlap_refusal(".changeset/x.md"),
        "write-set path appears in both writes and deletes: .changeset/x.md"
    );
}

fn member(ecosystem: oakum::plan::Ecosystem, name: &str, path: &str, deps: &[&str], extra: &[&str]) -> oakum::version_plan::MemberManifest {
    oakum::version_plan::MemberManifest {
        id: oakum::plan::PackageId::new(ecosystem, name),
        path: path.to_string(),
        depends_on: deps.iter().map(|d| oakum::plan::PackageId::new(ecosystem, d)).collect(),
        extra_files: extra.iter().map(|f| f.to_string()).collect(),
    }
}

#[test]
fn version_writes_only_what_it_owns() {
    let members = vec![
        member(Ecosystem::Cargo, "oakum", "crates/oakum/Cargo.toml", &["core"], &["/.agent-plugin/plugin.json"]),
        member(Ecosystem::Cargo, "core", "crates/core/Cargo.toml", &[], &["core.json"]),
        member(Ecosystem::Cargo, "app", "crates/app/Cargo.toml", &["core"], &[]),
        member(Ecosystem::Npm, "web", "web/package.json", &[], &["web.json"]),
    ];
    let bumped = vec![PackageId::new(Ecosystem::Cargo, "core")];
    let consumed = vec!["brave-fox.md".to_string(), "commits".to_string()];
    let w = oakum::version_plan::version_writes(&members, &bumped, &consumed);
    assert_eq!(
        w.manifests,
        vec![
            ("crates/oakum/Cargo.toml".to_string(), false, true),
            ("crates/core/Cargo.toml".to_string(), true, false),
            ("crates/app/Cargo.toml".to_string(), false, true),
        ]
    );
    assert!(w.lockfile);
    assert_eq!(w.extra_files, vec!["core.json".to_string()]);
    assert!(!w.config_pin);
    assert_eq!(w.deletes, vec![".changeset/brave-fox.md".to_string()]);

    let oakum_bumped = vec![PackageId::new(Ecosystem::Cargo, "oakum")];
    let w = oakum::version_plan::version_writes(&members, &oakum_bumped, &Vec::new());
    assert!(w.config_pin);
    assert_eq!(w.manifests, vec![("crates/oakum/Cargo.toml".to_string(), true, false)]);
    assert_eq!(w.extra_files, vec!["/.agent-plugin/plugin.json".to_string()]);

    let npm_only = vec![PackageId::new(Ecosystem::Npm, "web")];
    let w = oakum::version_plan::version_writes(&members, &npm_only, &Vec::new());
    assert!(!w.lockfile && !w.config_pin);

    let nothing = oakum::version_plan::version_writes(&members, &Vec::new(), &Vec::new());
    assert!(nothing.manifests.is_empty() && nothing.extra_files.is_empty() && !nothing.lockfile);
}
