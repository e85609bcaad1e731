use oakum::migrate::{GateLook, ReleaseTool, VersioningChoice};
use oakum::migrate_output::{
    bump_file_gate_step, gate_look_refusal, leftover_bump_files_step, one_line,
    pending_owned_line, remaining_removal, tag_shape_line, undecided_tag_step, versioning_line,
};
use oakum::config::PrivatePackages;
use oakum::migrate::BumpRewrite;
use oakum::migrate_config::{CarriedMessage, ConfigSettings, SourceConfig};
use oakum::migrate_output::{left_alone_lines, pending_lines};
use oakum::owned_files::{OwnedPlan, ReadmeState, SchemaState};
use oakum::plan::Versioning;
use oakum::tag_shape::{offerable, ReadableTemplate, TagShape};

#[test]
fn every_outcome_has_its_own_line() {
    assert_eq!(bump_file_gate_step(&GateLook::NothingToRepoint), None);

    let empty = bump_file_gate_step(&GateLook::Found(Vec::new())).expect("empty look speaks");
    assert!(empty.contains("no file in the index"), "{empty}");
    for unsearched in ["untracked", "unstaged edit", "submodule", ".git/hooks/"] {
        assert!(empty.contains(unsearched), "{unsearched}: {empty}");
    }

    let nothing = bump_file_gate_step(&GateLook::NothingTracked).expect("an empty index speaks");
    assert!(nothing.contains("git reports no commit"), "{nothing}");
    assert!(
        nothing.contains(".git/hooks/"),
        "every arm carries the caveat: {nothing}"
    );
    assert_ne!(nothing, empty, "searched nothing is not searched and found none");

    let one = bump_file_gate_step(&GateLook::Found(Vec::from([String::from("hook.sh")])))
        .expect("a hit speaks");
    assert!(
        one.contains("check what names the old bump-file directory (`hook.sh`)"),
        "{one}"
    );
    assert!(
        one.contains("cannot tell a commit or CI gate from a mention in prose"),
        "a match is a mention, not a proven gate: {one}"
    );
    assert_ne!(one, empty);

    let two = bump_file_gate_step(&GateLook::Found(Vec::from([
        String::from("hook.sh"),
        String::from("gate.yml"),
    ])))
    .expect("two hits speak");
    assert!(two.contains("(`hook.sh`, `gate.yml`)"), "{two}");

    let failed =
        bump_file_gate_step(&GateLook::Failed(String::from("boom"))).expect("a failure speaks");
    assert!(failed.starts_with("- unverified:"), "{failed}");
}

#[test]
fn a_multi_line_git_diagnostic_becomes_one_bullet() {
    let detail = "exit 1: error: failed to stat 'gate.sh': Permission denied\nerror: failed to stat 'gate.sh': Permission denied";
    assert_eq!(
        one_line(detail),
        "exit 1: error: failed to stat 'gate.sh': Permission denied; error: failed to stat 'gate.sh': Permission denied"
    );
    let step = bump_file_gate_step(&GateLook::Failed(String::from(detail))).expect("a line");
    assert_eq!(step.lines().count(), 1, "{step}");
}

#[test]
fn the_step_and_the_refusal_state_one_fact() {
    let why = "exit 1: error: failed to stat 'gate.sh': Permission denied";
    let fact = "could not look for files gating on the old bump-file directory";
    let step = bump_file_gate_step(&GateLook::Failed(String::from(why))).expect("a step");
    let refusal = gate_look_refusal(why).message();
    for said in [&step, &refusal] {
        assert!(said.contains(fact), "{said}");
        assert!(said.contains(one_line(why).as_str()), "{said}");
    }
    assert!(
        refusal.starts_with("unverified: migrated files were kept"),
        "{refusal}"
    );
    assert_eq!(refusal.matches("unverified").count(), 1, "{refusal}");
}

#[test]
fn only_a_failed_look_is_a_failure() {
    assert_eq!(GateLook::Failed(String::from("boom")).failure(), Some("boom"));
    for looked in [
        GateLook::Found(Vec::new()),
        GateLook::Found(Vec::from([String::from("hook.sh")])),
        GateLook::NothingTracked,
        GateLook::NothingToRepoint,
    ] {
        assert_eq!(looked.failure(), None, "{looked:?}");
    }
}

#[test]
fn each_provenance_names_the_mode_and_what_settled_it() {
    assert_eq!(
        versioning_line(VersioningChoice::Inferred(ReleaseTool::Bumpy)),
        "  write `versioning = \"semver\"` (bumpy takes 0.1.3 to 1.0.0, and renumbering an established release line is not a migration's job; oakum's own default is `zero-major`)"
    );
    assert_eq!(
        versioning_line(VersioningChoice::Inferred(ReleaseTool::Knope)),
        "  write `versioning = \"zero-major\"` (knope holds a breaking change below 1.0.0)"
    );
    assert_eq!(
        versioning_line(VersioningChoice::Requested(Versioning::ZeroMajor)),
        "  write `versioning = \"zero-major\"` (from `--versioning`, not the source tool)"
    );
}

fn plan(schema: SchemaState, readme: ReadmeState) -> OwnedPlan {
    OwnedPlan { schema, readme }
}

#[test]
fn every_owned_file_state_has_its_sentence() {
    assert_eq!(
        pending_owned_line(plan(SchemaState::Absent, ReadmeState::Absent)),
        "write .changeset/_config.toml and .changeset/README.md, and write .changeset/_schema.json"
    );
    assert_eq!(
        pending_owned_line(plan(SchemaState::Stale, ReadmeState::Absent)),
        "write .changeset/_config.toml and .changeset/README.md, and replace the existing .changeset/_schema.json"
    );
    assert_eq!(
        pending_owned_line(plan(SchemaState::Current, ReadmeState::Absent)),
        "write .changeset/_config.toml and .changeset/README.md, and leave the current .changeset/_schema.json"
    );
    assert_eq!(
        pending_owned_line(plan(SchemaState::Absent, ReadmeState::Theirs)),
        "write .changeset/_config.toml and write .changeset/_schema.json (keeping the existing .changeset/README.md)"
    );
    assert_eq!(
        pending_owned_line(plan(SchemaState::Stale, ReadmeState::Ours)),
        "write .changeset/_config.toml and replace the existing .changeset/_schema.json (keeping the existing .changeset/README.md)"
    );
    assert_eq!(
        pending_owned_line(plan(SchemaState::Current, ReadmeState::Ours)),
        "write .changeset/_config.toml and leave the current .changeset/_schema.json (keeping the existing .changeset/README.md)"
    );
}

#[test]
fn an_undecided_shape_asks_for_a_value_and_names_the_menu() {
    let shape = TagShape::Undecided {
        why: String::from("no package name and version explain `nightly`"),
        offerable: offerable(2),
    };
    assert_eq!(
        undecided_tag_step(&shape).expect("a step"),
        "- set `tag-format` to match the existing tags (no package name and version explain `nightly`); `release` refuses at the first tag rather than writing a shape the repository does not use\n  oakum reads `{{ package }}@{{ version }}`, `{{ package }}/v{{ version }}`, `{{ package }}-v{{ version }}`"
    );
    assert_eq!(undecided_tag_step(&TagShape::NoTags), None);
}

#[test]
fn leftovers_are_named_and_none_is_silent() {
    assert_eq!(leftover_bump_files_step(&Vec::new()), None);
    let step = leftover_bump_files_step(&vec![String::from(".bumpy/a.md")]).expect("a step");
    assert!(step.starts_with("- remove the bump files oakum copied out and left behind (`.bumpy/a.md`)"), "{step}");
}

#[test]
fn only_the_old_changesets_config_is_still_foreign_under_changeset() {
    assert_eq!(remaining_removal(".changeset/"), None);
    assert_eq!(remaining_removal(".changeset/a.md"), None);
    assert_eq!(
        remaining_removal(".changeset/config.json"),
        Some(".changeset/config.json")
    );
    assert_eq!(remaining_removal(".bumpy/"), Some(".bumpy/"));
}

#[test]
fn a_carried_shape_and_an_unread_one_each_have_a_line() {
    assert_eq!(
        tag_shape_line(&TagShape::NoTags, Some(ReadableTemplate::At)),
        Some(String::from(
            "carried over: `tag-format = \"{{ package }}@{{ version }}\"` (derived from the existing tags)"
        ))
    );
    assert_eq!(
        tag_shape_line(&TagShape::Unread(String::from("shallow clone")), None),
        Some(String::from(
            "not derived: `tag-format` (could not read the existing tags: shallow clone)"
        ))
    );
    assert_eq!(tag_shape_line(&TagShape::NoTags, None), None);
}

fn source(
    file: &str,
    dropped: &[&str],
    commit_message: CarriedMessage,
    private_packages: Option<PrivatePackages>,
) -> SourceConfig {
    SourceConfig {
        file: file.to_string(),
        dropped: dropped.iter().map(|key| key.to_string()).collect(),
        commit_message,
        private_packages,
    }
}

#[test]
fn the_pending_list_names_every_write_once() {

    let planned = vec![
        BumpRewrite::in_place(String::from(".changeset/a.md"), String::new()),
        BumpRewrite::copied_out(
            String::from(".bumpy/b.md"),
            String::from(".changeset/b.md"),
            String::new(),
        ),
    ];
    let sources = vec![
        source(
            ".changeset/config.json",
            &["access", "baseBranch"],
            CarriedMessage::Carried(String::from("cut \"the\" packages")),
            Some(PrivatePackages::new(true, false)),
        ),
        source(
            ".bumpy/config.json",
            &[],
            CarriedMessage::Carried(String::from("shadowed")),
            Some(PrivatePackages::new(false, true)),
        ),
    ];
    let settings = ConfigSettings {
        change_files: true,
        conventional_commits: true,
        versioning: Versioning::ZeroMajor,
        private_packages: PrivatePackages::new(true, true),
        tag_format: Some(ReadableTemplate::At),
        commit_message: Some(String::from("cut \"the\" packages")),
    };
    let lines = pending_lines(
        &planned,
        &sources,
        &settings,
        plan(SchemaState::Absent, ReadmeState::Absent),
        VersioningChoice::Inferred(ReleaseTool::Changesets),
    );
    assert_eq!(
        lines,
        [
            "pending:",
            "  rewrite .changeset/a.md",
            "  write .changeset/b.md from .bumpy/b.md",
            "  write .changeset/_config.toml and .changeset/README.md, and write .changeset/_schema.json",
            "  carry `privatePackages.version` from `.changeset/config.json`",
            "  leave `access` behind in `.changeset/config.json` (not carried)",
            "  leave `baseBranch` behind in `.changeset/config.json` (not carried)",
            "  carry `privatePackages.tag` from `.bumpy/config.json`",
            "  write `private-packages = { version = true, tag = true }`",
            &versioning_line(VersioningChoice::Inferred(ReleaseTool::Changesets)),
            "  carry `versionCommitMessage` from `.changeset/config.json` as `commit-message = \"cut \\\"the\\\" packages\"`",
            "  carry the existing tag shape as `tag-format = \"{{ package }}@{{ version }}\"`",
        ]
    );
}

#[test]
fn a_pending_list_with_nothing_carried_says_only_the_writes() {

    let settings = ConfigSettings {
        change_files: true,
        conventional_commits: true,
        versioning: Versioning::Semver,
        private_packages: PrivatePackages::new(false, false),
        tag_format: None,
        commit_message: None,
    };
    let lines = pending_lines(
        &Vec::new(),
        &Vec::new(),
        &settings,
        plan(SchemaState::Current, ReadmeState::Ours),
        VersioningChoice::Requested(Versioning::Semver),
    );
    assert_eq!(
        lines,
        [
            "pending:",
            "  write .changeset/_config.toml and leave the current .changeset/_schema.json (keeping the existing .changeset/README.md)",
            "  write `versioning = \"semver\"` (from `--versioning`, not the source tool)",
        ]
    );
}

#[test]
fn the_closing_summary_names_what_was_left_alone() {

    let sources = vec![source(
        ".changeset/config.json",
        &["access"],
        CarriedMessage::Carried(String::from("release")),
        Some(PrivatePackages::new(true, true)),
    )];
    let unreadable = vec![String::from("not read: `.bumpy/config.json` (not valid JSON)")];
    assert_eq!(
        left_alone_lines(ReadmeState::Theirs, &sources, &unreadable),
        [
            "kept .changeset/README.md (oakum did not write it; left as is)",
            "not read: `.bumpy/config.json` (not valid JSON)",
            "carried over: `versionCommitMessage` from `.changeset/config.json` as `commit-message`",
            "carried over: `privatePackages.version` and `privatePackages.tag` from `.changeset/config.json`",
            "not carried over: `access` (`.changeset/config.json` is untouched)",
        ]
    );
    assert!(left_alone_lines(ReadmeState::Ours, &Vec::new(), &Vec::new()).is_empty());
}
