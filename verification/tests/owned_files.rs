use oakum::config::PrivatePackages;
use oakum::migrate_config::ConfigSettings;
use oakum::owned_files::{
    commit_message_line, config_body, OwnedPlan, ReadmeState, RestorableFile, SchemaOutcome,
    SchemaState,
};
use oakum::plan::Versioning;
use oakum::tag_shape::ReadableTemplate;
use oakum::versions::parse_version;

fn settings(private_packages: PrivatePackages) -> ConfigSettings {
    ConfigSettings {
        change_files: true,
        conventional_commits: false,
        versioning: Versioning::Semver,
        private_packages,
        tag_format: None,
        commit_message: None,
    }
}

fn body(private_packages: PrivatePackages) -> String {
    config_body(&parse_version("0.2.0").expect("version"), settings(private_packages))
}

/// An inline table cannot swallow the scalars around it; a
/// `[private-packages]` header placed before them would.
#[test]
fn the_carried_setting_is_an_inline_table_on_one_line() {
    let written = body(PrivatePackages::new(true, true));
    assert!(
        written.contains("\nprivate-packages = { version = true, tag = true }\n"),
        "{written}"
    );
    assert!(!written.contains("[private-packages]"), "{written}");
}

#[test]
fn the_default_writes_no_private_packages_line() {
    let written = body(PrivatePackages::default());
    assert!(!written.contains("private-packages"), "{written}");
}

#[test]
fn the_written_config_is_the_pin_and_the_preferences_in_order() {
    assert_eq!(
        body(PrivatePackages::default()),
        "#:schema ./_schema.json\n\
tool-version = \"0.2.0\"\n\
change-files = true\n\
conventional-commits = false\n\
versioning = \"semver\"\n"
    );
}

#[test]
fn the_optional_lines_follow_in_order() {
    let written = config_body(
        &parse_version("1.4.0-rc.1").expect("version"),
        ConfigSettings {
            change_files: true,
            conventional_commits: true,
            versioning: Versioning::ZeroMajor,
            private_packages: PrivatePackages::new(false, true),
            tag_format: Some(ReadableTemplate::At),
            commit_message: Some(String::from("cut \"the\" packages")),
        },
    );
    assert_eq!(
        written,
        "#:schema ./_schema.json\n\
tool-version = \"1.4.0-rc.1\"\n\
change-files = true\n\
conventional-commits = true\n\
versioning = \"zero-major\"\n\
tag-format = \"{{ package }}@{{ version }}\"\n\
private-packages = { version = false, tag = true }\n\
commit-message = \"cut \\\"the\\\" packages\"\n"
    );
}

#[test]
fn a_commit_message_line_escapes_the_quote_and_the_backslash() {
    assert_eq!(
        commit_message_line("cut \"the\" packages"),
        "commit-message = \"cut \\\"the\\\" packages\""
    );
    assert_eq!(
        commit_message_line("a\\b"),
        "commit-message = \"a\\\\b\""
    );
    assert_eq!(
        commit_message_line("chore: release"),
        "commit-message = \"chore: release\""
    );
}

#[test]
fn a_written_commit_message_reads_back_through_toml() {
    for message in ["cut \"the\" packages", "a\\b", "\\\"", "plain"] {
        let line = commit_message_line(message);
        let table: toml::Table = line.parse().expect("a TOML line");
        assert_eq!(table["commit-message"].as_str(), Some(message), "{line}");
    }
}

#[test]
fn the_axes_are_named_in_file_order() {
    assert_eq!(PrivatePackages::new(true, true).axis_names(), ["version", "tag"]);
    assert_eq!(PrivatePackages::new(false, true).axis_names(), ["tag"]);
    assert!(PrivatePackages::new(false, false).axis_names().is_empty());
    assert_eq!(
        PrivatePackages::new(true, false).toml_line(),
        "private-packages = { version = true, tag = false }"
    );
}

#[test]
fn a_users_readme_is_not_owned() {
    let theirs = OwnedPlan {
        schema: SchemaState::Stale,
        readme: ReadmeState::Theirs,
    };
    assert_eq!(
        theirs.owned_after_write(),
        [".changeset/_schema.json", ".changeset/_config.toml"]
    );
    for readme in [ReadmeState::Absent, ReadmeState::Ours] {
        let plan = OwnedPlan {
            schema: SchemaState::Absent,
            readme,
        };
        assert_eq!(
            plan.owned_after_write(),
            [
                ".changeset/_schema.json",
                ".changeset/README.md",
                ".changeset/_config.toml"
            ]
        );
    }
    assert_eq!(RestorableFile::Schema.rel(), ".changeset/_schema.json");
    assert_eq!(RestorableFile::Readme.rel(), ".changeset/README.md");
}

#[test]
fn a_schema_write_says_created_replaced_or_unchanged() {
    assert_eq!(SchemaState::Absent.outcome(), SchemaOutcome::Created);
    assert_eq!(SchemaState::Stale.outcome(), SchemaOutcome::Replaced);
    assert_eq!(SchemaState::Current.outcome(), SchemaOutcome::Unchanged);
    assert!(SchemaState::Absent.needs_write());
    assert!(SchemaState::Stale.needs_write());
    assert!(!SchemaState::Current.needs_write());
}

#[test]
fn upgrade_refuses_an_unpinned_config() {
    let binary = parse_version("0.2.0").unwrap();
    let err = oakum::owned_files::upgrade_step(None, &binary, true).expect_err("no pin");
    assert_eq!(err.message(), "`.changeset/_config.toml` carries no `tool-version`");
}

#[test]
fn upgrade_writes_schema_first_and_reports_the_move() {
    let binary = parse_version("0.2.0").unwrap();
    let same = parse_version("0.2.0").unwrap();
    let (writes, lines) = oakum::owned_files::upgrade_step(Some(&same), &binary, true).unwrap();
    assert!(writes.is_empty());
    assert_eq!(
        lines,
        vec!["already at 0.2.0; `.changeset/_config.toml` and `.changeset/_schema.json` are current".to_string()]
    );

    let (writes, lines) = oakum::owned_files::upgrade_step(Some(&same), &binary, false).unwrap();
    assert_eq!(writes, vec![oakum::owned_files::UpgradeWrite::Schema]);
    assert_eq!(lines, vec![
        "tool-version: 0.2.0 (unchanged)".to_string(),
        "migrations: none required".to_string(),
        "schema: .changeset/_schema.json regenerated".to_string(),
    ]);

    let older = parse_version("0.1.0").unwrap();
    let (writes, lines) = oakum::owned_files::upgrade_step(Some(&older), &binary, false).unwrap();
    assert_eq!(writes, vec![oakum::owned_files::UpgradeWrite::Schema, oakum::owned_files::UpgradeWrite::Config]);
    assert_eq!(lines[0], "tool-version: 0.1.0 -> 0.2.0");
    assert_eq!(lines[2], "schema: .changeset/_schema.json regenerated");

    let newer = parse_version("0.3.0").unwrap();
    let (writes, lines) = oakum::owned_files::upgrade_step(Some(&newer), &binary, true).unwrap();
    assert_eq!(writes, vec![oakum::owned_files::UpgradeWrite::Config]);
    assert_eq!(lines[0], "tool-version: 0.3.0 -> 0.2.0 (downgrade: this binary is older than the config)");
    assert_eq!(lines[2], "schema: .changeset/_schema.json unchanged");
}
