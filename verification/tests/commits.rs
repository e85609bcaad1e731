use oakum::commits::{
    aggregate, bump_level_for, contributions_from_message, contributions_from_paths,
    intent_of_commit, message_intent, to_bump_file, CommitContribution, ConventionalCommit, MessageIntent,
};
use oakum::versions::{parse_version, SemVer};
use oakum::plan::{BumpLevel, Ecosystem, Package, PackageId, Workspace};

fn workspace(names: &[&str]) -> Workspace {
    Workspace::new(
        names
            .iter()
            .map(|name| Package::new(PackageId::new(Ecosystem::Cargo, name), version("0.1.0"), true))
            .collect(),
    )
}

fn shared_workspace() -> Workspace {
    Workspace::new(vec![
        Package::new(PackageId::new(Ecosystem::Cargo, "shared"), version("0.1.0"), true),
        Package::new(PackageId::new(Ecosystem::Npm, "shared"), version("0.1.0"), true),
    ])
}

fn contribution(package: &str, level: BumpLevel, summary: &str) -> CommitContribution {
    CommitContribution::new(String::from(package), level, String::from(summary)).expect("contrib")
}

#[test]
fn feat_scope_is_minor() {
    let ws = workspace(&["demo"]);
    let got = contributions_from_message("feat(demo): add thing\n", &ws).expect("ok");
    assert_eq!(got.len(), 1);
    assert_eq!(got[0].level(), BumpLevel::Minor);
    assert_eq!(got[0].package(), "demo");
}

#[test]
fn breaking_is_major() {
    let ws = workspace(&["demo"]);
    let got = contributions_from_message("feat(demo)!: break it\n", &ws).expect("ok");
    assert_eq!(got[0].level(), BumpLevel::Major);
}

#[test]
fn breaking_change_footer_is_major() {
    let ws = workspace(&["demo"]);
    let msg = "feat(demo): x\n\nBREAKING CHANGE: api\n";
    let got = contributions_from_message(msg, &ws).expect("ok");
    assert_eq!(got.len(), 1);
    assert_eq!(got[0].level(), BumpLevel::Major);
}

#[test]
fn fix_is_patch() {
    let ws = workspace(&["demo"]);
    let got = contributions_from_message("fix(demo): bug\n", &ws).expect("ok");
    assert_eq!(got[0].level(), BumpLevel::Patch);
}

#[test]
fn feat_case_insensitive() {
    let ws = workspace(&["demo"]);
    let got = contributions_from_message("Feat(demo): caps\n", &ws).expect("ok");
    assert_eq!(got[0].level(), BumpLevel::Minor);
}

#[test]
fn unknown_scope_is_path_fallback_with_level() {
    let ws = workspace(&["demo"]);
    let intent = message_intent("feat(other): x\n", &ws).expect("ok");
    match intent {
        MessageIntent::PathFallback { level, .. } => assert_eq!(level, BumpLevel::Minor),
        MessageIntent::Contributions(_) => panic!("expected path fallback"),
    }
    assert!(contributions_from_message("feat(other): x\n", &ws)
        .expect("ok")
        .is_empty());
}

#[test]
fn ambiguous_scope_is_error() {
    let ws = shared_workspace();
    let err = message_intent("feat(shared): x\n", &ws).expect_err("ambiguous");
    assert!(err.contains("more than one"), "{err}");
    let err = contributions_from_message("feat(shared): x\n", &ws).expect_err("ambiguous");
    assert!(err.contains("more than one"), "{err}");
}

#[test]
fn unscoped_conventional_is_path_fallback_with_level() {
    let ws = workspace(&["demo"]);
    let intent = message_intent("feat: no scope\n", &ws).expect("ok");
    match intent {
        MessageIntent::PathFallback { level, .. } => assert_eq!(level, BumpLevel::Minor),
        MessageIntent::Contributions(_) => panic!("expected path fallback"),
    }
    assert!(contributions_from_message("feat: no scope\n", &ws)
        .expect("ok")
        .is_empty());
}

#[test]
fn unscoped_breaking_is_path_fallback_major() {
    let ws = workspace(&["demo"]);
    let intent = message_intent("feat!: break\n", &ws).expect("ok");
    match intent {
        MessageIntent::PathFallback { level, .. } => assert_eq!(level, BumpLevel::Major),
        MessageIntent::Contributions(_) => panic!("expected path fallback"),
    }
}

#[test]
fn aggregate_highest_wins() {
    let contribs = [
        contribution("demo", BumpLevel::Patch, "a"),
        contribution("demo", BumpLevel::Minor, "b"),
    ];
    let agg = aggregate(&contribs);
    assert_eq!(agg.entries(), &[(String::from("demo"), BumpLevel::Minor)]);
    assert!(agg.note().contains("demo: a"));
    assert!(agg.note().contains("demo: b"));
}

#[test]
fn paths_map_to_package_dir() {
    let dirs = [(String::from("core"), String::from("crates/core"))];
    let files = [String::from("crates/core/src/lib.rs")];
    let got = contributions_from_paths(&files, &dirs, BumpLevel::Patch, "touch");
    assert_eq!(got.len(), 1);
    assert_eq!(got[0].package(), "core");
}

#[test]
fn nested_package_wins_longest_prefix() {
    let dirs = [
        (String::from("app"), String::from("crates/app")),
        (String::from("app-core"), String::from("crates/app/core")),
    ];
    let files = [String::from("crates/app/core/src/lib.rs")];
    let got = contributions_from_paths(&files, &dirs, BumpLevel::Minor, "nested");
    assert_eq!(got.len(), 1);
    assert_eq!(got[0].package(), "app-core");
    assert_eq!(got[0].level(), BumpLevel::Minor);
}

#[test]
fn root_package_does_not_steal_nested_paths() {
    let dirs = [
        (String::from("root"), String::new()),
        (String::from("core"), String::from("crates/core")),
    ];
    let files = [String::from("crates/core/src/lib.rs")];
    let got = contributions_from_paths(&files, &dirs, BumpLevel::Patch, "nested");
    assert_eq!(got.len(), 1);
    assert_eq!(got[0].package(), "core");
}

#[test]
fn colocated_packages_at_same_prefix_both_attribute() {
    let dirs = [
        (String::from("oakum"), String::from("crates/oakum")),
        (String::from("@oakoss/oakum"), String::from("crates/oakum")),
    ];
    let files = [String::from("crates/oakum/src/lib.rs")];
    let got = contributions_from_paths(&files, &dirs, BumpLevel::Minor, "polyglot");
    let mut names: Vec<&str> = got.iter().map(CommitContribution::package).collect();
    names.sort_unstable();
    assert_eq!(names, vec!["@oakoss/oakum", "oakum"]);
    assert!(got.iter().all(|c| c.level() == BumpLevel::Minor));
}

#[test]
fn to_bump_file_resolves_package_ids() {
    let ws = workspace(&["demo"]);
    let intent = aggregate(&[contribution("demo", BumpLevel::Minor, "add thing")]);
    let file = to_bump_file(&intent, &ws, String::from("commits")).expect("bump file");
    assert_eq!(file.id, "commits");
    assert_eq!(file.entries.len(), 1);
    assert_eq!(file.entries[0].0.name, "demo");
    assert_eq!(file.entries[0].1, BumpLevel::Minor);
    assert!(file.note.contains("demo: add thing"));
}

#[test]
fn to_bump_file_missing_package_errors() {
    let ws = workspace(&["demo"]);
    let intent = aggregate(&[contribution("ghost", BumpLevel::Patch, "x")]);
    let err = to_bump_file(&intent, &ws, String::from("commits")).expect_err("missing");
    assert!(err.contains("not in the workspace"), "{err}");
}

#[test]
fn to_bump_file_ambiguous_package_errors() {
    let ws = shared_workspace();
    let intent = aggregate(&[contribution("shared", BumpLevel::Minor, "x")]);
    let err = to_bump_file(&intent, &ws, String::from("commits")).expect_err("ambiguous");
    assert!(err.contains("more than one"), "{err}");
}

#[test]
fn a_plain_message_falls_back_to_patch_with_its_first_line() {
    let ws = workspace(&["demo"]);
    match message_intent("  tidy things up\nmore words\n", &ws).expect("ok") {
        MessageIntent::PathFallback { level, summary } => {
            assert_eq!(level, BumpLevel::Patch);
            assert_eq!(summary, "tidy things up");
        }
        MessageIntent::Contributions(_) => panic!("expected path fallback"),
    }
}

fn commit(kind: &str, breaking: bool) -> ConventionalCommit {
    ConventionalCommit {
        kind: String::from(kind),
        breaking,
        scope: None,
        description: String::from("x"),
    }
}

#[test]
fn bump_level_reads_breaking_then_feat_then_patch() {
    assert_eq!(bump_level_for(&commit("chore", false)), BumpLevel::Patch);
    assert_eq!(bump_level_for(&commit("feat", false)), BumpLevel::Minor);
    assert_eq!(bump_level_for(&commit("FEAT", false)), BumpLevel::Minor);
    assert_eq!(bump_level_for(&commit("chore", true)), BumpLevel::Major);
}

#[test]
fn a_scoped_chore_is_a_patch_for_its_package() {
    let ws = workspace(&["demo"]);
    let got = contributions_from_message("chore(demo): tidy\n", &ws).expect("ok");
    assert_eq!(got.len(), 1);
    assert_eq!(got[0].level(), BumpLevel::Patch);
    assert_eq!(got[0].summary(), "tidy");
}

#[test]
fn a_contribution_needs_a_package_and_a_release_level() {
    assert!(CommitContribution::new(String::new(), BumpLevel::Minor, String::from("x")).is_none());
    assert!(
        CommitContribution::new(String::from("demo"), BumpLevel::Unchanged, String::from("x"))
            .is_none()
    );
}

#[test]
fn aggregate_sorts_packages_and_notes_every_release_in_order() {
    let agg = aggregate(&[
        contribution("zeta", BumpLevel::Patch, "z"),
        contribution("alpha", BumpLevel::Major, "a"),
        contribution("zeta", BumpLevel::Minor, "z2"),
    ]);
    assert_eq!(
        agg.entries(),
        &[
            (String::from("alpha"), BumpLevel::Major),
            (String::from("zeta"), BumpLevel::Minor)
        ]
    );
    assert_eq!(agg.note(), "- zeta: z\n- alpha: a\n- zeta: z2");
}

fn version(text: &str) -> SemVer {
    parse_version(text).expect("a version")
}

fn parsed(kind: &str, breaking: bool, scope: Option<&str>, description: &str) -> ConventionalCommit {
    ConventionalCommit {
        kind: kind.to_string(),
        breaking,
        scope: scope.map(str::to_string),
        description: description.to_string(),
    }
}

#[test]
fn a_parsed_commit_decides_the_intent_after_the_parse() {
    let ws = workspace(&["core", "cli"]);
    match intent_of_commit("feat(core): add x", Some(parsed("feat", false, Some("core"), "add x")), &ws)
        .expect("intent")
    {
        MessageIntent::Contributions(cs) => {
            assert_eq!(cs.len(), 1);
            assert_eq!(cs[0].package(), "core");
            assert_eq!(cs[0].level(), BumpLevel::Minor);
            assert_eq!(cs[0].summary(), "add x");
        }
        other => panic!("expected one contribution, got {other:?}"),
    }
    match intent_of_commit("fix(ghost)!: y", Some(parsed("fix", true, Some("ghost"), "y")), &ws)
        .expect("intent")
    {
        MessageIntent::PathFallback { level, summary } => {
            assert_eq!(level, BumpLevel::Major);
            assert_eq!(summary, "y");
        }
        other => panic!("expected a fallback, got {other:?}"),
    }
    match intent_of_commit("  Update readme\nmore", None, &ws).expect("intent") {
        MessageIntent::PathFallback { level, summary } => {
            assert_eq!(level, BumpLevel::Patch);
            assert_eq!(summary, "Update readme");
        }
        other => panic!("expected a fallback, got {other:?}"),
    }
    let err = intent_of_commit("fix(shared): z", Some(parsed("fix", false, Some("shared"), "z")), &shared_workspace())
        .expect_err("ambiguous");
    assert!(err.contains("matches more than one workspace package"), "{err}");
}

#[test]
fn aggregation_gives_the_same_entries_in_any_order() {
    let a = [
        contribution("cli", BumpLevel::Patch, "x"),
        contribution("core", BumpLevel::Major, "y"),
        contribution("cli", BumpLevel::Minor, "z"),
    ];
    let b = [
        contribution("cli", BumpLevel::Minor, "z"),
        contribution("cli", BumpLevel::Patch, "x"),
        contribution("core", BumpLevel::Major, "y"),
    ];
    assert_eq!(aggregate(&a).entries(), aggregate(&b).entries());
    assert_eq!(
        aggregate(&a).entries(),
        &[
            (String::from("cli"), BumpLevel::Minor),
            (String::from("core"), BumpLevel::Major)
        ]
    );
    // Only the note follows the order given.
    assert_ne!(aggregate(&a).note(), aggregate(&b).note());
}

#[test]
fn change_files_are_bump_named_regular_files_in_name_order() {
    let entries = vec![
        ("zeta.md".to_string(), true, true),
        ("README.md".to_string(), false, true),
        ("alpha.md".to_string(), true, true),
        ("dir.md".to_string(), true, false),
    ];
    assert_eq!(
        oakum::commits::change_file_names(&entries),
        vec!["alpha.md".to_string(), "zeta.md".to_string()]
    );
}
