use oakum::config::PrivatePackages;
use oakum::documents::DocValue;
use oakum::migrate_config::{
    carried_private_packages, chosen_commit_message, commit_message_steps,
    consequential_drop_steps, lossy_mapping_steps, migrated_settings, not_valid_json,
    parse_source_config, read_commit_message, shadowed_commit_messages, unreadable_config_line,
    CarriedMessage, Refusal, SourceConfig,
};
use oakum::plan::Versioning;

const WRITTEN_ANYWAY: &str = "chore: release";

fn json_doc(v: &serde_json::Value) -> DocValue {
    match v {
        serde_json::Value::String(s) => DocValue::Text(s.clone()),
        serde_json::Value::Bool(b) => DocValue::Flag(*b),
        serde_json::Value::Array(items) => DocValue::List(items.iter().map(json_doc).collect()),
        serde_json::Value::Object(map) => DocValue::Table(
            map.iter()
                .map(|(k, v)| (k.clone(), json_doc(v)))
                .collect(),
        ),
        other => DocValue::Other(other.to_string()),
    }
}

fn parse_text(file: &str, body: &str) -> Result<SourceConfig, String> {
    match serde_json::from_str::<serde_json::Value>(body) {
        Ok(value) => parse_source_config(file, &json_doc(&value), WRITTEN_ANYWAY),
        Err(err) => Err(not_valid_json(file, &err.to_string())),
    }
}

fn parse(file: &str, body: &str) -> SourceConfig {
    parse_text(file, body).expect("source config")
}

fn configs(list: Vec<SourceConfig>) -> Vec<SourceConfig> {
    list
}

#[test]
fn private_packages_is_carried_and_never_reported_as_dropped() {
    let config = parse(
        ".bumpy/_config.json",
        r#"{"privatePackages": {"version": true, "tag": true}, "baseBranch": "main"}"#,
    );
    assert_eq!(
        config.carried_private_packages(),
        Some(PrivatePackages::new(true, true))
    );
    assert_eq!(config.dropped, vec![String::from("baseBranch")]);
}

#[test]
fn axes_are_independent_and_a_missing_axis_is_off() {
    let config = parse(
        ".changeset/config.json",
        r#"{"privatePackages": {"tag": true}}"#,
    );
    assert_eq!(
        config.carried_private_packages(),
        Some(PrivatePackages::new(false, true))
    );
}

#[test]
fn both_axes_off_matches_the_default_so_nothing_is_announced() {
    let config = parse(
        ".changeset/config.json",
        r#"{"privatePackages": {"version": false, "tag": false}}"#,
    );
    assert_eq!(config.carried_private_packages(), None);
    assert!(config.dropped.is_empty());
}

#[test]
fn a_source_without_the_key_carries_nothing() {
    let config = parse(".changeset/config.json", r#"{"access": "public"}"#);
    assert_eq!(config.carried_private_packages(), None);
    assert_eq!(config.dropped, vec![String::from("access")]);
    assert_eq!(
        carried_private_packages(&configs(vec![config])),
        PrivatePackages::default()
    );
}

#[test]
fn two_sources_union_their_axes() {
    let carried = carried_private_packages(&configs(vec![
        parse(
            ".changeset/config.json",
            r#"{"privatePackages": {"version": true}}"#,
        ),
        parse(
            ".bumpy/_config.json",
            r#"{"privatePackages": {"tag": true}}"#,
        ),
    ]));
    assert_eq!(carried, PrivatePackages::new(true, true));
}

#[test]
fn a_non_boolean_axis_refuses_and_names_the_file() {
    let err = parse_text(
        ".bumpy/_config.json",
        r#"{"privatePackages": {"version": "yes"}}"#,
    )
    .expect_err("non-boolean axis");
    assert_eq!(
        err,
        "`privatePackages.version` in `.bumpy/_config.json` is `\"yes\"`, not a boolean"
    );
}

#[test]
fn a_private_packages_that_is_neither_object_nor_boolean_refuses() {
    let err = parse_text(".bumpy/_config.json", r#"{"privatePackages": "yes"}"#)
        .expect_err("a string is neither");
    assert_eq!(
        err,
        "`privatePackages` in `.bumpy/_config.json` is neither an object nor a boolean"
    );
}

#[test]
fn a_changesets_boolean_private_packages_opts_both_axes_in() {
    let carried = carried_private_packages(&configs(vec![parse(
        ".changeset/config.json",
        r#"{"privatePackages": true}"#,
    )]));
    assert_eq!(carried, PrivatePackages::new(true, true));
    let off = carried_private_packages(&configs(vec![parse(
        ".changeset/config.json",
        r#"{"privatePackages": false}"#,
    )]));
    assert_eq!(off, PrivatePackages::default());
}

#[test]
fn a_non_object_config_refuses_and_names_the_file() {
    let err = parse_text(".bumpy/_config.json", "[]").expect_err("array");
    assert_eq!(err, "`.bumpy/_config.json` is not a JSON object");
    let err = parse_text(".bumpy/_config.json", "{").expect_err("truncated");
    assert!(
        err.starts_with("`.bumpy/_config.json` is not valid JSON: "),
        "{err}"
    );
}

#[test]
fn an_explicit_null_axis_refuses_like_any_other_non_boolean() {
    let err = parse_text(
        ".bumpy/_config.json",
        r#"{"privatePackages": {"version": null}}"#,
    )
    .expect_err("null is not a boolean");
    assert!(err.contains("not a boolean"), "{err}");
    assert!(err.contains("`null`"), "{err}");
}

#[test]
fn git_user_is_named_as_a_consequential_drop_not_only_a_dropped_key() {
    let config = SourceConfig {
        file: String::from(".bumpy/_config.json"),
        dropped: vec![String::from("baseBranch"), String::from("gitUser")],
        commit_message: CarriedMessage::Absent,
        private_packages: None,
    };
    let steps = consequential_drop_steps(&configs(vec![config]));
    assert_eq!(steps.len(), 1, "{steps:?}");
    assert!(steps[0].contains("`gitUser`"), "{steps:?}");
    assert!(
        steps[0].contains("who authored release commits"),
        "{steps:?}"
    );
    assert!(!steps[0].contains("baseBranch"), "{steps:?}");

    let quiet = SourceConfig {
        file: String::from(".bumpy/_config.json"),
        dropped: vec![String::from("baseBranch")],
        commit_message: CarriedMessage::Absent,
        private_packages: None,
    };
    assert!(consequential_drop_steps(&configs(vec![quiet])).is_empty());
}

#[test]
fn a_nested_value_is_shown_as_compact_json() {
    let err = parse_text(
        ".bumpy/_config.json",
        r#"{"privatePackages": {"tag": [1, {"a": "b"}]}}"#,
    )
    .expect_err("a list is not a boolean");
    assert_eq!(
        err,
        "`privatePackages.tag` in `.bumpy/_config.json` is `[1,{\"a\":\"b\"}]`, not a boolean"
    );
}

#[test]
fn dropped_keys_come_sorted_and_skip_a_stated_message() {
    let config = parse(
        ".bumpy/_config.json",
        r#"{"zeta": 1, "versionCommitMessage": "release it", "alpha": true}"#,
    );
    assert_eq!(
        config.dropped,
        vec![String::from("alpha"), String::from("zeta")]
    );
    assert_eq!(
        config.commit_message,
        CarriedMessage::Carried(String::from("release it"))
    );
}

#[test]
fn an_absent_message_is_an_ordinary_dropped_key_only_when_not_a_string() {
    let config = parse(
        ".bumpy/_config.json",
        r#"{"versionCommitMessage": 7}"#,
    );
    assert_eq!(config.commit_message, CarriedMessage::Absent);
    assert_eq!(config.dropped, vec![String::from("versionCommitMessage")]);
}

fn message(stated: &str) -> CarriedMessage {
    let doc = DocValue::Table(vec![(
        String::from("versionCommitMessage"),
        DocValue::Text(String::from(stated)),
    )]);
    read_commit_message(&doc, WRITTEN_ANYWAY)
}

#[test]
fn each_refusal_of_a_stated_message() {
    assert_eq!(message(""), CarriedMessage::Unwritable(Refusal::Empty));
    assert_eq!(message("   "), CarriedMessage::Unwritable(Refusal::WhitespaceOnly));
    assert_eq!(
        message("line\nbreak"),
        CarriedMessage::Unwritable(Refusal::ControlCharacter)
    );
    assert_eq!(
        message("release {{version}}"),
        CarriedMessage::Unwritable(Refusal::TemplateSyntax)
    );
    assert_eq!(
        message("./scripts/message.js"),
        CarriedMessage::Unwritable(Refusal::ModulePath)
    );
    assert_eq!(message(" chore: release "), CarriedMessage::SameAsDefault);
    assert_eq!(
        message("  ship it "),
        CarriedMessage::Carried(String::from("ship it"))
    );
}

fn stated(file: &str, message: CarriedMessage) -> SourceConfig {
    SourceConfig {
        file: String::from(file),
        dropped: Vec::new(),
        commit_message: message,
        private_packages: None,
    }
}

#[test]
fn the_first_carried_message_wins_and_the_second_is_named() {
    let list = configs(vec![
        stated(".changeset/config.json", CarriedMessage::Carried(String::from("one"))),
        stated(".bumpy/_config.json", CarriedMessage::Carried(String::from("two"))),
    ]);
    assert_eq!(
        chosen_commit_message(&list),
        Some((String::from(".changeset/config.json"), String::from("one")))
    );
    assert_eq!(
        shadowed_commit_messages(&list),
        vec![String::from(
            "- `versionCommitMessage` in `.bumpy/_config.json` was not carried: `.changeset/config.json` states one too, and oakum writes a single `commit-message`"
        )]
    );
    let settings = migrated_settings(Versioning::Semver, &list, None);
    assert_eq!(settings.commit_message, Some(String::from("one")));
    assert!(settings.change_files && settings.conventional_commits);
}

#[test]
fn message_steps_name_what_was_not_written() {
    let list = configs(vec![
        stated(".changeset/config.json", CarriedMessage::SameAsDefault),
        stated(".bumpy/_config.json", CarriedMessage::Unwritable(Refusal::TemplateSyntax)),
    ]);
    assert_eq!(
        commit_message_steps(&list),
        vec![
            String::from("- `versionCommitMessage` in `.changeset/config.json` is what oakum writes anyway, so no `commit-message` line was needed"),
            String::from("- restore `versionCommitMessage` from `.bumpy/_config.json` by hand: oakum could not carry it because it holds template syntax, and `commit-message` is rendered as a template rather than written literally"),
        ]
    );
    let with_winner = configs(vec![
        stated(".changeset/config.json", CarriedMessage::Carried(String::from("one"))),
        stated(".bumpy/_config.json", CarriedMessage::Unwritable(Refusal::Empty)),
    ]);
    assert_eq!(
        commit_message_steps(&with_winner),
        vec![String::from(
            "- `versionCommitMessage` in `.bumpy/_config.json` was not carried: it states an empty message"
        )]
    );
}

#[test]
fn changelog_is_a_lossy_mapping() {
    let config = SourceConfig {
        file: String::from(".changeset/config.json"),
        dropped: vec![String::from("changelog")],
        commit_message: CarriedMessage::Absent,
        private_packages: None,
    };
    assert_eq!(
        lossy_mapping_steps(&configs(vec![config])),
        vec![String::from(
            "- decide what `changelog` from `.changeset/config.json` should become: oakum's nearest setting is `template`, which does not mean the same thing, so oakum wrote neither"
        )]
    );
}

#[test]
fn an_unreadable_config_says_what_it_may_have_cost() {
    assert_eq!(
        unreadable_config_line(".bumpy/_config.json", "boom"),
        "could not use `.bumpy/_config.json` (boom); no settings carried from it, including `privatePackages` if it set one"
    );
}

#[test]
fn a_shown_string_is_escaped_as_json_writes_it() {
    let err = parse_text(
        ".bumpy/_config.json",
        "{\"privatePackages\": {\"tag\": \"a\\\"b\\\\c\\n\\u0001\"}}",
    )
    .expect_err("a string is not a boolean");
    assert_eq!(
        err,
        "`privatePackages.tag` in `.bumpy/_config.json` is `\"a\\\"b\\\\c\\n\\u0001\"`, not a boolean"
    );
}
