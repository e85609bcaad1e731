use oakum::config::{
    from_document, key_path_refusal, line_and_column, toml_error, ConfigDocument, ExtraFileEntry, ExtraFileFormat,
    OakumConfig, PackageDocument, ParseError, ParseErrorKind, PrStatus, PrivatePackages,
    TemplateEntry, TemplateSource,
};
use oakum::plan::{BuildResolution, ResolvesDependenciesAt, Versioning};

/// A document holding `tool-version = "<version>"` on its first line and
/// every other key at the value an omitted key takes.
fn document(version: &str) -> (String, ConfigDocument) {
    let text = format!("tool-version = \"{version}\"\n");
    let doc = ConfigDocument {
        tool_version: version.to_string(),
        tool_version_at: 15,
        change_files: None,
        conventional_commits: None,
        versioning: None,
        pr_status: None,
        tag_format: None,
        commit_message: None,
        title: None,
        template: None,
        private_packages: None,
        included: Vec::new(),
        exclude: Vec::new(),
        packages: Vec::new(),
    };
    (text, doc)
}

fn read(doc: ConfigDocument) -> Result<OakumConfig, ParseError> {
    let text = format!("tool-version = \"{}\"\n", doc.tool_version);
    from_document(&text, doc)
}

fn package(extra_files: Vec<ExtraFileEntry>, publish_command: Option<&str>) -> PackageDocument {
    PackageDocument {
        versioning: None,
        resolves_dependencies_at: None,
        extra_files,
        publish_command: publish_command.map(str::to_string),
    }
}

fn extra(path: &str, key: &str) -> ExtraFileEntry {
    ExtraFileEntry {
        path: path.to_string(),
        format: ExtraFileFormat::Json,
        key: key.to_string(),
    }
}

fn with_package(name: &str, package: PackageDocument) -> ConfigDocument {
    let (_, mut doc) = document("0.0.0");
    doc.packages.push((name.to_string(), package));
    doc
}

#[test]
fn defaults_are_both_intent_on_and_unpinned() {
    let cfg = OakumConfig::defaults();
    assert!(cfg.tool_version().is_none());
    assert!(cfg.change_files() && cfg.conventional_commits());
    assert_eq!(cfg.versioning(), Versioning::ZeroMajor);
    assert_eq!(cfg.pr_status(), PrStatus::Both);
    assert_eq!(cfg.private_packages(), PrivatePackages::default());
    assert!(cfg.included().is_empty());
    assert!(cfg.exclude().is_empty());
}

#[test]
fn a_document_with_only_the_pin_takes_every_default() {
    let (text, doc) = document("0.0.0");
    let cfg = from_document(&text, doc).expect("read");
    assert_eq!(cfg.tool_version().expect("pinned").text(), "0.0.0");
    assert!(cfg.change_files());
    assert!(cfg.conventional_commits());
    assert_eq!(cfg.versioning(), Versioning::ZeroMajor);
    assert_eq!(cfg.pr_status(), PrStatus::Both);
    assert!(!cfg.private_packages().version());
    assert!(!cfg.private_packages().tag());
    assert!(cfg.packages().is_empty());
}

#[test]
fn a_version_requirement_is_refused_at_the_value() {
    for req in ["^0.0.0", ">=0.0.0", "*", "1"] {
        let (text, doc) = document(req);
        let err = from_document(&text, doc).expect_err(req);
        assert!(err.message().contains("exact version"), "{req}: {}", err.message());
        assert_eq!(err.location(), Some((1, 16)), "{req}");
    }
}

#[test]
fn the_located_tool_version_names_its_line() {
    let text = "# tool-version appears in a comment\ntool-version = \"^0.0.0\"\n";
    let (_, mut doc) = document("^0.0.0");
    doc.tool_version_at = text.find('"').expect("a quote");
    let err = from_document(text, doc).expect_err("requirement");
    assert!(err.message().contains("line 2, column 16"), "{}", err.message());
}

#[test]
fn a_tool_version_that_is_no_version_is_named_without_echoing_it() {
    let raw = "garbage-version-redaction-canary";
    let (text, doc) = document(raw);
    let err = from_document(&text, doc).expect_err("garbage");
    assert!(err.message().contains("not a version"), "{}", err.message());
    assert!(!err.message().contains(raw), "{}", err.message());
}

#[test]
fn both_intent_mechanisms_off_is_refused() {
    let (_, mut doc) = document("0.0.0");
    doc.change_files = Some(false);
    doc.conventional_commits = Some(false);
    let err = read(doc).expect_err("both off");
    assert!(
        err.message().contains("change-files") && err.message().contains("conventional-commits"),
        "{}",
        err.message()
    );
    assert!(matches!(err.kind(), ParseErrorKind::BothIntentMechanismsDisabled));
}

#[test]
fn an_unclean_selection_name_is_refused() {
    for name in ["", "  ", "\t", " foo ", "bar "] {
        let (_, mut doc) = document("0.0.0");
        doc.included.push(name.to_string());
        let err = read(doc).expect_err(name);
        assert!(err.message().contains("non-empty package names"), "{name:?}: {}", err.message());
        let (_, mut doc) = document("0.0.0");
        doc.exclude.push(name.to_string());
        assert!(matches!(read(doc).expect_err(name).kind(), ParseErrorKind::EmptySelectionName));
    }
}

#[test]
fn selection_is_include_then_exclude() {
    let all = read(document("0.0.0").1).expect("read");
    assert!(all.selected("a") && all.selected("b"));

    let (_, mut doc) = document("0.0.0");
    doc.included = vec![String::from("a"), String::from("b")];
    doc.exclude = vec![String::from("b")];
    let both = read(doc).expect("read");
    assert!(both.selected("a"));
    assert!(!both.selected("b"));
    assert!(!both.selected("c"));
    // include does not replace private opt-in
    assert!(!both.version_managed_name("a", false));
    assert!(both.version_managed_name("a", true));
    assert!(!both.version_managed_name("b", true));
}

#[test]
fn the_private_axes_are_independent() {
    let (_, mut doc) = document("0.0.0");
    doc.private_packages = Some(PrivatePackages::new(true, false));
    let version_only = read(doc).expect("read");
    assert!(version_only.version_managed_name("priv", false));
    assert!(!version_only.tag_managed_name("priv", false));
    assert!(version_only.tag_managed_name("pub", true));

    let (_, mut doc) = document("0.0.0");
    doc.private_packages = Some(PrivatePackages::new(false, true));
    let tag_only = read(doc).expect("read");
    assert!(!tag_only.version_managed_name("priv", false));
    assert!(tag_only.tag_managed_name("priv", false));
}

#[test]
fn selection_names_are_checked_against_the_workspace_later() {
    let (_, mut doc) = document("0.0.0");
    doc.included = vec![String::from("ghost")];
    doc.exclude = vec![String::from("also-ghost")];
    let cfg = read(doc).expect("read without a workspace");
    let err = cfg
        .validate_selection_names(&vec![String::from("real")])
        .expect_err("unknown");
    assert!(
        err.message().contains("unknown package name") && err.message().contains("ghost"),
        "{}",
        err.message()
    );
    cfg.validate_selection_names(&vec![
        String::from("ghost"),
        String::from("also-ghost"),
        String::from("extra"),
    ])
    .expect("known");
}

#[test]
fn package_overrides_fall_back_to_the_top_level() {
    let (_, mut doc) = document("0.0.0");
    doc.packages.push((
        String::from("core"),
        PackageDocument {
            versioning: Some(Versioning::Semver),
            resolves_dependencies_at: Some(ResolvesDependenciesAt::Build(BuildResolution::Declared)),
            extra_files: Vec::new(),
            publish_command: None,
        },
    ));
    doc.tag_format = Some(TemplateEntry::Source(TemplateSource::Inline(String::from("v{{version}}"))));
    doc.title = Some(TemplateEntry::Source(TemplateSource::Inline(String::new())));
    doc.template = Some(TemplateEntry::Source(TemplateSource::File(String::from("notes.md"))));
    let cfg = read(doc).expect("read");
    assert_eq!(cfg.versioning_for("core"), Versioning::Semver);
    assert_eq!(cfg.versioning_for("other"), Versioning::ZeroMajor);
    assert_eq!(
        cfg.resolves_dependencies_at("core"),
        Some(ResolvesDependenciesAt::Build(BuildResolution::Declared))
    );
    assert_eq!(cfg.resolves_dependencies_at("other"), None);
    assert!(cfg.extra_files_for("core").is_empty());
    assert_eq!(
        cfg.tag_format(),
        Some(&TemplateSource::Inline(String::from("v{{version}}")))
    );
    // An empty inline title is no title at all.
    assert_eq!(cfg.title(), None);
    assert_eq!(cfg.template(), Some(&TemplateSource::File(String::from("notes.md"))));
}

#[test]
fn declared_extra_files_are_trimmed_and_kept_in_order() {
    let cfg = read(with_package(
        "review-cycle",
        package(
            vec![
                extra(".agent-plugin/plugin.json", "version"),
                extra(" /.agent-plugin/marketplace.json", " plugins.{name=review-cycle}.version "),
            ],
            None,
        ),
    ))
    .expect("read");
    let extras = cfg.extra_files_for("review-cycle");
    assert_eq!(extras.len(), 2);
    assert_eq!(extras[0].path(), ".agent-plugin/plugin.json");
    assert_eq!(extras[0].format(), ExtraFileFormat::Json);
    assert_eq!(extras[0].key(), "version");
    assert_eq!(extras[1].path(), "/.agent-plugin/marketplace.json");
    assert_eq!(extras[1].key(), "plugins.{name=review-cycle}.version");
    assert!(cfg.extra_files_for("other").is_empty());
}

#[test]
fn an_extra_file_path_must_name_a_file_inside_the_repository() {
    for path in ["", "/", " "] {
        let err = read(with_package("demo", package(vec![extra(path, "version")], None)))
            .expect_err(path);
        assert!(
            err.message().contains("invalid extra-files entry")
                && err.message().contains("non-empty relative path"),
            "{path:?}: {}",
            err.message()
        );
    }
    for path in ["/../x.json", "/.."] {
        let err = read(with_package("demo", package(vec![extra(path, "version")], None)))
            .expect_err(path);
        assert!(
            err.message().contains("invalid extra-files entry")
                && err.message().contains("inside the repository"),
            "{path}: {}",
            err.message()
        );
    }
    // A package-relative path may climb; `version` judges where it lands.
    read(with_package("demo", package(vec![extra("../x.json", "version")], None)))
        .expect("package-relative");
    let err = read(with_package("demo", package(vec![extra("x.json", "  ")], None)))
        .expect_err("empty key");
    assert!(err.message().contains("key must not be empty"), "{}", err.message());
}

#[test]
fn a_publish_command_is_trimmed_and_must_not_be_empty() {
    let cfg = read(with_package("demo", package(Vec::new(), Some(" pnpm publish ")))).expect("read");
    assert_eq!(cfg.publish_command_for("demo"), Some("pnpm publish"));
    assert_eq!(cfg.publish_command_for("other"), None);
    for blank in ["", "  "] {
        let err = read(with_package("demo", package(Vec::new(), Some(blank)))).expect_err(blank);
        assert!(
            err.message().contains("publish-command") && err.message().contains("must not be empty"),
            "{blank:?}: {}",
            err.message()
        );
    }
}

#[test]
fn a_refused_reader_message_names_what_it_refused() {
    let text = "tool-version = \"0.0.0\"\ngit-user = \"x\"\n";
    let unknown = toml_error(
        text,
        "unknown field `git-user`, expected one of `tool-version`",
        Some(23),
        Some(String::from("git-user")),
    );
    assert_eq!(
        unknown.message(),
        "TOML parse error at line 2, column 1: unknown configuration key `git-user`"
    );
    assert!(!unknown.message().contains("expected one of"));

    let unnamed = toml_error(text, "unknown field `git-user`", Some(23), None);
    assert!(unnamed.message().ends_with(": unknown configuration key"), "{}", unnamed.message());

    let duplicate = toml_error(
        "tool-version = \"0.0.0\"\ntool-version = \"redaction-canary\"\n",
        "duplicate key `tool-version`",
        Some(23),
        None,
    );
    assert!(
        duplicate.message().contains("duplicate configuration key")
            && duplicate.message().contains("line 2, column 1")
            && !duplicate.message().contains("redaction-canary"),
        "{}",
        duplicate.message()
    );

    let missing = toml_error("change-files = true\n", "missing field `tool-version`", None, None);
    assert_eq!(missing.message(), "missing required `tool-version`");
    let missing_other = toml_error("", "missing field `format`", None, None);
    assert_eq!(missing_other.message(), "a required key is missing");
    let command = toml_error("", "templates render; they do not execute", Some(0), None);
    assert!(command.message().contains("do not execute"), "{}", command.message());
    for invalid in [
        "invalid type: string \"x\", expected a boolean",
        "invalid value: integer `-1`",
        "unknown variant `calver`, expected `zero-major` or `semver`",
        "`file` is empty",
        "template table needs `file`",
        "unknown template table key `x`",
    ] {
        let err = toml_error("versioning = \"calver\"\n", invalid, Some(13), None);
        assert!(err.message().contains("invalid configuration value"), "{invalid}: {}", err.message());
        assert!(!err.message().contains("calver"), "{}", err.message());
    }
    let syntax = toml_error("a = \n", "expected a value", Some(4), None);
    assert!(syntax.message().contains("invalid TOML syntax"), "{}", syntax.message());
}

#[test]
fn line_and_column_count_characters_from_one() {
    assert_eq!(line_and_column("a = 1\nnope = 2\n", 0), (1, 1));
    assert_eq!(line_and_column("a = 1\nnope = 2\n", 6), (2, 1));
    assert_eq!(line_and_column("a = 1\nnope = 2\n", 8), (2, 3));
    // Columns count characters, not bytes.
    assert_eq!(line_and_column("é = 1\nx", 3), (1, 3));
    // An offset past the end stops at the end.
    assert_eq!(line_and_column("a\n", 100), (2, 1));
}

#[test]
fn the_set_templates_are_listed_under_their_keys() {
    let (_, mut doc) = document("0.0.0");
    doc.commit_message = Some(TemplateEntry::Source(TemplateSource::Inline(String::from("release {{version}}"))));
    doc.template = Some(TemplateEntry::Source(TemplateSource::File(String::from("notes.md"))));
    let cfg = read(doc).expect("read");
    let sources = cfg.template_sources();
    assert_eq!(sources.len(), 2);
    assert_eq!(sources[0].0, "commit-message");
    assert_eq!(
        sources[0].1,
        &TemplateSource::Inline(String::from("release {{version}}"))
    );
    assert_eq!(sources[1].0, "template");
    assert_eq!(sources[1].1, &TemplateSource::File(String::from("notes.md")));
    assert!(OakumConfig::defaults().template_sources().is_empty());
}

#[test]
fn a_spliced_pin_keeps_every_other_byte() {
    let text = "# pinned by upgrade\ntool-version = \"0.0.9\" # trailing note\n\nchange-files = true\n";
    let start = text.find("\"0.0.9\"").expect("value");
    let version = oakum::versions::parse_version("0.1.0").expect("version");
    assert_eq!(
        oakum::config::splice_tool_version(text, start, start + 7, &version).as_deref(),
        Some("# pinned by upgrade\ntool-version = \"0.1.0\" # trailing note\n\nchange-files = true\n")
    );
    let accented = "# é\ntool-version = \"1.0.0-rc.1\"\n";
    let start = accented.find('"').expect("value");
    let end = start + "\"1.0.0-rc.1\"".len();
    let one = oakum::versions::parse_version("1.0.0").expect("version");
    assert_eq!(
        oakum::config::splice_tool_version(accented, start, end, &one).as_deref(),
        Some("# é\ntool-version = \"1.0.0\"\n")
    );
    // A byte inside a character is no place to splice.
    assert_eq!(oakum::config::splice_tool_version(accented, 3, end, &one), None);
    assert_eq!(oakum::config::splice_tool_version(accented, end, start, &one), None);
}

#[test]
fn a_reread_pin_is_confirmed_against_the_version() {
    let (text, doc) = document("1.0.0");
    let cfg = from_document(&text, doc).expect("read");
    let one = oakum::versions::parse_version("1.0.0").expect("version");
    let other = oakum::versions::parse_version("1.0.1").expect("version");
    oakum::config::confirm_tool_version(&cfg, &one).expect("confirmed");
    let err = oakum::config::confirm_tool_version(&cfg, &other).expect_err("different");
    assert!(err.message().contains("not a version"), "{}", err.message());
    assert!(oakum::config::confirm_tool_version(&OakumConfig::defaults(), &one).is_err());
}

/// Where the value of the first `key = ` in `text` starts.
fn value_at(text: &str, key: &str) -> usize {
    text.find(&format!("{key} = ")).unwrap_or_else(|| panic!("{key} in text")) + key.len() + 3
}

/// The refusal the reader gives a string outside an enum's words.
fn variant(text: &str, key: &str, word: &str, expected: &str) -> ParseError {
    toml_error(text, &format!("unknown variant `{word}`, expected {expected}"), Some(value_at(text, key)), None)
}

fn template_entry(text: &str, key: &str, value: &toml::Value) -> Result<TemplateEntry, ParseError> {
    if let Some(body) = value.as_str() {
        return Ok(TemplateEntry::Source(TemplateSource::Inline(body.to_string())));
    }
    let table = value.as_table().expect("template table");
    if table.contains_key("command") {
        return Ok(TemplateEntry::Command { at: value_at(text, key) });
    }
    let file = table["file"].as_str().expect("file");
    if file.trim().is_empty() {
        return Err(toml_error(text, "`file` is empty", Some(value_at(text, key)), None));
    }
    Ok(TemplateEntry::Source(TemplateSource::File(file.to_string())))
}

fn names(value: Option<&toml::Value>) -> Vec<String> {
    value
        .map(|v| v.as_array().expect("array").iter().map(|n| n.as_str().expect("name").to_string()).collect())
        .unwrap_or_default()
}

fn versioning_word(text: &str, key: &str, word: &str) -> Result<Versioning, ParseError> {
    match word {
        "zero-major" => Ok(Versioning::ZeroMajor),
        "semver" => Ok(Versioning::Semver),
        other => Err(variant(text, key, other, "`zero-major` or `semver`")),
    }
}

/// `text` read with the `toml` crate into a document, each key read the
/// way the configuration reader reads it, then checked by the library.
fn parse(text: &str) -> Result<OakumConfig, ParseError> {
    let table: toml::Table = text.parse().expect("TOML");
    let (_, mut doc) = document(table["tool-version"].as_str().expect("pin"));
    doc.tool_version_at = value_at(text, "tool-version");
    doc.change_files = table.get("change-files").map(|v| v.as_bool().expect("bool"));
    doc.conventional_commits = table.get("conventional-commits").map(|v| v.as_bool().expect("bool"));
    if let Some(word) = table.get("versioning").map(|v| v.as_str().expect("word")) {
        doc.versioning = Some(versioning_word(text, "versioning", word)?);
    }
    if let Some(word) = table.get("pr-status").map(|v| v.as_str().expect("word")) {
        doc.pr_status = Some(match word {
            "comment" => PrStatus::Comment,
            "summary" => PrStatus::Summary,
            "both" => PrStatus::Both,
            "none" => PrStatus::Off,
            other => return Err(variant(text, "pr-status", other, "one of `comment`, `summary`, `both`, `none`")),
        });
    }
    for (key, slot) in [
        ("tag-format", &mut doc.tag_format),
        ("commit-message", &mut doc.commit_message),
        ("title", &mut doc.title),
        ("template", &mut doc.template),
    ] {
        if let Some(value) = table.get(key) {
            *slot = Some(template_entry(text, key, value)?);
        }
    }
    if let Some(private) = table.get("private-packages").and_then(toml::Value::as_table) {
        let axis = |k: &str| private.get(k).map(|v| v.as_bool().expect("bool")).unwrap_or(false);
        doc.private_packages = Some(PrivatePackages::new(axis("version"), axis("tag")));
    }
    doc.included = names(table.get("include"));
    doc.exclude = names(table.get("exclude"));
    if let Some(packages) = table.get("packages").and_then(toml::Value::as_table) {
        for (name, package) in packages {
            let mut entries = Vec::new();
            if let Some(files) = package.get("extra-files") {
                for entry in files.as_array().expect("array") {
                    let format = entry["format"].as_str().expect("format");
                    if format != "json" {
                        return Err(variant(text, "format", format, "`json`"));
                    }
                    entries.push(extra(
                        entry["path"].as_str().expect("path"),
                        entry["key"].as_str().expect("key"),
                    ));
                }
            }
            let mut doc_package = package_of(entries);
            if let Some(word) = package.get("versioning").map(|v| v.as_str().expect("word")) {
                doc_package.versioning = Some(versioning_word(text, "versioning", word)?);
            }
            if let Some(word) = package.get("resolves-dependencies-at").map(|v| v.as_str().expect("word")) {
                if word != "build" {
                    return Err(variant(text, "resolves-dependencies-at", word, "`build`"));
                }
                doc_package.resolves_dependencies_at = Some(ResolvesDependenciesAt::Build(BuildResolution::Declared));
            }
            doc_package.publish_command =
                package.get("publish-command").map(|v| v.as_str().expect("command").to_string());
            doc.packages.push((name.clone(), doc_package));
        }
    }
    from_document(text, doc)
}

fn package_of(extra_files: Vec<ExtraFileEntry>) -> PackageDocument {
    package(extra_files, None)
}

#[test]
fn package_extra_files_reject_bad_key_and_format() {
    let bad_key = parse(
        r#"
tool-version = "0.0.0"
[[packages.demo.extra-files]]
path = "x.json"
format = "json"
key = "plugins.{name=}.version"
"#,
    )
    .expect_err("empty match value");
    assert!(
        bad_key.message().contains("invalid extra-files entry"),
        "{}",
        bad_key.message()
    );

    let leaf_match = parse(
        r#"
tool-version = "0.0.0"
[[packages.demo.extra-files]]
path = "x.json"
format = "json"
key = "plugins.{name=review-cycle}"
"#,
    )
    .expect_err("match as leaf");
    assert!(
        leaf_match.message().contains("cannot end with"),
        "{}",
        leaf_match.message()
    );

    let bad_format = parse(
        r#"
tool-version = "0.0.0"
[[packages.demo.extra-files]]
path = "x.json"
format = "toml"
key = "version"
"#,
    )
    .expect_err("toml format");
    assert!(
        bad_format.message().contains("invalid configuration value"),
        "{}",
        bad_format.message()
    );
}

#[test]
fn a_key_path_is_segments_and_whole_matches() {
    let chars = |s: &str| s.chars().collect::<Vec<char>>();
    for good in ["version", "plugins.{name=foo.bar}.version", "a.b.c", "x.{k=v}.y.{k2=v2}.z"] {
        assert_eq!(key_path_refusal(&chars(good)), None, "{good}");
    }
    for (bad, why) in [
        ("a..b", "empty segment"),
        ("a.", "empty segment"),
        ("a{b}", "only wrap a whole"),
        ("{=v}.x", "needs a field and a value"),
        ("{k=}.x", "needs a field and a value"),
        ("{k=v}x", "must be followed by `.`"),
        ("{k=v}", "cannot end with"),
        ("a.{k=v", "unclosed"),
    ] {
        let reason = key_path_refusal(&chars(bad)).unwrap_or_else(|| panic!("{bad} refused"));
        assert!(reason.contains(why), "{bad}: {reason}");
    }
    // The dotted match value the tests above rely on survives whole.
    let cfg = parse(
        "tool-version = \"0.0.0\"\n[[packages.demo.extra-files]]\npath = \"x.json\"\nformat = \"json\"\nkey = \"plugins.{name=foo.bar}.version\"\n",
    )
    .expect("dotted match value");
    assert_eq!(cfg.extra_files_for("demo")[0].key(), "plugins.{name=foo.bar}.version");
}

#[test]
fn a_command_template_is_refused_at_its_value() {
    let text = "tool-version = \"0.0.0\"\ntemplate = { command = \"pandoc\" }\n";
    let (_, mut doc) = document("0.0.0");
    doc.template = Some(TemplateEntry::Command { at: text.find('{').expect("table") });
    let err = from_document(text, doc).expect_err("command");
    assert!(err.message().contains("do not execute"), "{}", err.message());
    assert_eq!(err.location(), Some((2, 12)));
    // Refused before the pin is looked at.
    let (_, mut doc) = document("^1");
    doc.title = Some(TemplateEntry::Command { at: 0 });
    assert!(matches!(read(doc).expect_err("command").kind(), ParseErrorKind::TemplateDoesNotExecute));
}

#[test]
fn omitted_preference_keys_take_the_defaults() {
    let cfg = read(document("0.0.0").1).expect("read");
    let d = OakumConfig::defaults();
    assert!(d.tool_version().is_none());
    assert_eq!(cfg.change_files(), d.change_files());
    assert_eq!(cfg.conventional_commits(), d.conventional_commits());
    assert_eq!(cfg.versioning(), d.versioning());
    assert_eq!(cfg.pr_status(), d.pr_status());
    assert_eq!(cfg.private_packages(), d.private_packages());
    assert_eq!(cfg.included(), d.included());
    assert_eq!(cfg.exclude(), d.exclude());
    assert!(cfg.packages().is_empty() && d.packages().is_empty());
}

#[test]
fn versioning_and_package_overrides() {
    let text = r#"
tool-version = "0.0.0"
versioning = "zero-major"
pr-status = "summary"
tag-format = "v{{version}}"
commit-message = "release {{version}}"
title = "Release"
template = "changelog.md"

[packages.core]
versioning = "semver"
resolves-dependencies-at = "build"
"#;
    let cfg = parse(text).expect("parse");
    assert_eq!(cfg.versioning(), Versioning::ZeroMajor);
    assert_eq!(cfg.versioning_for("core"), Versioning::Semver);
    assert_eq!(cfg.versioning_for("other"), Versioning::ZeroMajor);
    assert_eq!(
        cfg.resolves_dependencies_at("core"),
        Some(ResolvesDependenciesAt::Build(BuildResolution::Declared))
    );
    assert!(cfg.extra_files_for("core").is_empty());
    assert_eq!(cfg.pr_status(), PrStatus::Summary);
    assert_eq!(cfg.tag_format(), Some(&TemplateSource::Inline(String::from("v{{version}}"))));
    assert_eq!(cfg.commit_message(), Some(&TemplateSource::Inline(String::from("release {{version}}"))));
    assert_eq!(cfg.title(), Some(&TemplateSource::Inline(String::from("Release"))));
    assert_eq!(cfg.template(), Some(&TemplateSource::Inline(String::from("changelog.md"))));
}

#[test]
fn template_file_table_parses() {
    let cfg = parse("tool-version = \"0.0.0\"\ntemplate = { file = \"notes.md\" }\n").expect("parse");
    assert_eq!(cfg.template(), Some(&TemplateSource::File(String::from("notes.md"))));
}

#[test]
fn template_empty_file_is_refused() {
    let err = parse("tool-version = \"0.0.0\"\ntemplate = { file = \"\" }\n").expect_err("empty");
    assert!(err.message().contains("invalid configuration value"), "{}", err.message());
}

#[test]
fn template_command_table_is_refused() {
    let err = parse("tool-version = \"0.0.0\"\ntemplate = { command = \"pandoc\" }\n").expect_err("command");
    assert!(err.message().contains("do not execute"), "{}", err.message());
}

fn source_for<'a>(cfg: &'a OakumConfig, key: &str) -> Option<&'a TemplateSource> {
    match key {
        "tag-format" => cfg.tag_format(),
        "commit-message" => cfg.commit_message(),
        "title" => cfg.title(),
        "template" => cfg.template(),
        other => panic!("unknown preference template key {other}"),
    }
}

#[test]
fn preference_templates_share_the_template_source_shape() {
    for key in ["tag-format", "commit-message", "title", "template"] {
        let cfg = parse(&format!("tool-version = \"0.0.0\"\n{key} = {{ file = \"notes.md\" }}\n"))
            .unwrap_or_else(|err| panic!("{key} file: {}", err.message()));
        assert_eq!(source_for(&cfg, key), Some(&TemplateSource::File(String::from("notes.md"))), "{key}");

        let err = parse(&format!("tool-version = \"0.0.0\"\n{key} = {{ command = \"pandoc\" }}\n")).expect_err(key);
        assert!(err.message().contains("do not execute"), "{key}: {}", err.message());

        for blank in [r#"{ file = "" }"#, r#"{ file = " " }"#] {
            let err = parse(&format!("tool-version = \"0.0.0\"\n{key} = {blank}\n")).expect_err(key);
            assert!(err.message().contains("invalid configuration value"), "{key} {blank}: {}", err.message());
        }
    }

    for key in ["tag-format", "commit-message", "title"] {
        let empty = parse(&format!("tool-version = \"0.0.0\"\n{key} = \"\"\n"))
            .unwrap_or_else(|err| panic!("{key} empty: {}", err.message()));
        assert_eq!(source_for(&empty, key), None, "{key}");
    }
}

#[test]
fn package_extra_files_parse() {
    let text = r#"
tool-version = "0.0.0"

[[packages.review-cycle.extra-files]]
path = ".agent-plugin/plugin.json"
format = "json"
key = "version"

[[packages.review-cycle.extra-files]]
path = "/.agent-plugin/marketplace.json"
format = "json"
key = "plugins.{name=review-cycle}.version"
"#;
    let cfg = parse(text).expect("parse");
    let extras = cfg.extra_files_for("review-cycle");
    assert_eq!(extras.len(), 2);
    assert_eq!(extras[0].path(), ".agent-plugin/plugin.json");
    assert_eq!(extras[0].format(), ExtraFileFormat::Json);
    assert_eq!(extras[0].key(), "version");
    assert_eq!(extras[1].path(), "/.agent-plugin/marketplace.json");
    assert_eq!(extras[1].key(), "plugins.{name=review-cycle}.version");
    assert!(cfg.extra_files_for("other").is_empty());
}

fn one_extra_file(path: &str, key: &str) -> Result<OakumConfig, ParseError> {
    parse(&format!(
        "\ntool-version = \"0.0.0\"\n[[packages.demo.extra-files]]\npath = \"{path}\"\nformat = \"json\"\nkey = \"{key}\"\n"
    ))
}

#[test]
fn package_extra_files_path_and_trim_rules() {
    for path in ["", "/", "/.."] {
        let err = one_extra_file(path, "version").expect_err(path);
        assert!(err.message().contains("invalid extra-files entry"), "{path}: {}", err.message());
    }
    let root_escape = one_extra_file("/../x.json", "version").expect_err("root escape");
    assert!(root_escape.message().contains("inside the repository"), "{}", root_escape.message());

    let padded = one_extra_file(" /.agent-plugin/marketplace.json", " version ").expect("trim");
    let extras = padded.extra_files_for("demo");
    assert_eq!(extras[0].path(), "/.agent-plugin/marketplace.json");
    assert_eq!(extras[0].key(), "version");

    let dotted = one_extra_file("x.json", "plugins.{name=foo.bar}.version").expect("dotted match value");
    assert_eq!(dotted.extra_files_for("demo")[0].key(), "plugins.{name=foo.bar}.version");
}

#[test]
fn invalid_versioning_value_is_an_error() {
    let err = parse("tool-version = \"0.0.0\"\nversioning = \"calver\"\n").expect_err("bad versioning");
    assert!(err.message().contains("invalid configuration value"), "{}", err.message());
    assert!(!err.message().contains("calver"), "{}", err.message());
}

#[test]
fn tool_version_range_is_an_error() {
    for req in ["^0.0.0", ">=0.0.0", "*", "1"] {
        let err = parse(&format!("tool-version = \"{req}\"\n")).expect_err(req);
        assert!(err.message().contains("exact version"), "{req}: {}", err.message());
    }
    let raw = ">=987654.321.123-redaction-canary";
    let err = parse(&format!("tool-version = \"{raw}\"\n")).expect_err(raw);
    assert!(!err.message().contains(raw), "{}", err.message());
}

#[test]
fn tool_version_error_uses_value_span() {
    let text = "# tool-version appears in a comment\ntool-version = \"^0.0.0\"\n";
    let err = parse(text).expect_err("version requirement");
    assert!(err.message().contains("line 2, column 16"), "{}", err.message());
}

#[test]
fn tool_version_garbage_is_an_error() {
    let raw = "garbage-version-redaction-canary";
    let err = parse(&format!("tool-version = \"{raw}\"\n")).expect_err("garbage");
    assert!(err.message().contains("not a version") && !err.message().contains(raw), "{}", err.message());
}

#[test]
fn both_intent_mechanisms_off_is_an_error() {
    let err = parse("tool-version = \"0.0.0\"\nchange-files = false\nconventional-commits = false\n")
        .expect_err("both off");
    assert!(
        err.message().contains("change-files") && err.message().contains("conventional-commits"),
        "{}",
        err.message()
    );
}

#[test]
fn invalid_pr_status_is_an_error() {
    let err = parse("tool-version = \"0.0.0\"\npr-status = \"checks\"\n").expect_err("bad pr-status");
    assert!(
        err.message().contains("invalid configuration value") && !err.message().contains("checks"),
        "{}",
        err.message()
    );
}

#[test]
fn private_packages_axes_are_independent() {
    let version_only =
        parse("\ntool-version = \"0.0.0\"\nprivate-packages = { version = true, tag = false }\n").expect("parse");
    assert!(version_only.private_packages().version());
    assert!(!version_only.private_packages().tag());
    assert!(version_only.version_managed_name("priv", false));
    assert!(!version_only.tag_managed_name("priv", false));
    assert!(version_only.version_managed_name("pub", true));
    assert!(version_only.tag_managed_name("pub", true));

    let tag_only =
        parse("\ntool-version = \"0.0.0\"\nprivate-packages = { version = false, tag = true }\n").expect("parse");
    assert!(!tag_only.private_packages().version());
    assert!(tag_only.private_packages().tag());
    assert!(!tag_only.version_managed_name("priv", false));
    assert!(tag_only.tag_managed_name("priv", false));
}

#[test]
fn include_exclude_selection_math() {
    let all = parse("tool-version = \"0.0.0\"\n").expect("parse");
    assert!(all.selected("a"));
    assert!(all.selected("b"));

    let included = parse("\ntool-version = \"0.0.0\"\ninclude = [\"a\", \"b\"]\n").expect("parse");
    assert!(included.selected("a"));
    assert!(included.selected("b"));
    assert!(!included.selected("c"));

    let excluded = parse("\ntool-version = \"0.0.0\"\nexclude = [\"b\"]\n").expect("parse");
    assert!(excluded.selected("a"));
    assert!(!excluded.selected("b"));

    let both = parse("\ntool-version = \"0.0.0\"\ninclude = [\"a\", \"b\"]\nexclude = [\"b\"]\n").expect("parse");
    assert!(both.selected("a"));
    assert!(!both.selected("b"));
    assert!(!both.selected("c"));

    // include does not replace private opt-in
    assert!(!both.version_managed_name("a", false));
    assert!(both.version_managed_name("a", true));
    assert!(!both.version_managed_name("b", true));
}

#[test]
fn empty_include_exclude_names_are_refused() {
    for text in [
        "tool-version = \"0.0.0\"\ninclude = [\"\"]\n",
        "tool-version = \"0.0.0\"\nexclude = [\"\"]\n",
        "tool-version = \"0.0.0\"\ninclude = [\"  \"]\n",
        "tool-version = \"0.0.0\"\nexclude = [\"\\t\"]\n",
        "tool-version = \"0.0.0\"\ninclude = [\" foo \"]\n",
        "tool-version = \"0.0.0\"\nexclude = [\"bar \"]\n",
    ] {
        let err = parse(text).expect_err(text);
        assert!(err.message().contains("non-empty package names"), "{text}: {}", err.message());
    }
}

#[test]
fn unknown_selection_names_are_not_validated_at_parse() {
    let cfg = parse("\ntool-version = \"0.0.0\"\ninclude = [\"ghost\"]\nexclude = [\"also-ghost\"]\n")
        .expect("parse without workspace");
    assert_eq!(cfg.included(), &["ghost".to_owned()]);
    assert_eq!(cfg.exclude(), &["also-ghost".to_owned()]);

    let err = cfg.validate_selection_names(&vec!["real".to_string()]).expect_err("unknown");
    assert!(
        err.message().contains("unknown package name") && err.message().contains("ghost"),
        "{}",
        err.message()
    );

    cfg.validate_selection_names(&vec!["ghost".to_string(), "also-ghost".to_string(), "extra".to_string()])
        .expect("known");
}

#[test]
fn publish_command_parses_and_rejects_empty() {
    let cfg = parse("\ntool-version = \"0.0.0\"\n\n[packages.demo]\npublish-command = \" pnpm publish \"\n").expect("parse");
    assert_eq!(cfg.publish_command_for("demo"), Some("pnpm publish"));
    let demo = cfg.packages().iter().find(|(name, _)| name == "demo").map(|(_, p)| p);
    assert_eq!(demo.and_then(|p| p.publish_command()), Some("pnpm publish"));
    assert_eq!(cfg.publish_command_for("other"), None);

    for blank in [r#""""#, r#""  ""#] {
        let err = parse(&format!("tool-version = \"0.0.0\"\n\n[packages.demo]\npublish-command = {blank}\n"))
            .expect_err(blank);
        assert!(
            err.message().contains("publish-command") && err.message().contains("must not be empty"),
            "{blank}: {}",
            err.message()
        );
    }
}

fn written_config(private_packages: PrivatePackages) -> String {
    oakum::owned_files::config_body(
        &oakum::versions::parse_version("0.2.0").expect("version"),
        oakum::migrate_config::ConfigSettings {
            change_files: true,
            conventional_commits: false,
            versioning: Versioning::Semver,
            private_packages,
            tag_format: None,
            commit_message: None,
        },
    )
}

#[test]
fn an_opted_in_axis_round_trips_through_the_config_loader() {
    for private_packages in [
        PrivatePackages::new(true, true),
        PrivatePackages::new(true, false),
        PrivatePackages::new(false, true),
    ] {
        let written = written_config(private_packages);
        let parsed = parse(&written).expect("written config parses");
        assert_eq!(parsed.private_packages().version(), private_packages.version(), "{written}");
        assert_eq!(parsed.private_packages().tag(), private_packages.tag(), "{written}");
        assert_eq!(parsed.versioning(), Versioning::Semver, "{written}");
        assert!(parsed.change_files(), "{written}");
        assert!(!parsed.conventional_commits(), "{written}");
    }
}

#[test]
fn the_default_writes_no_private_packages_key() {
    let written = written_config(PrivatePackages::default());
    assert!(!written.contains("private-packages"), "{written}");
    let parsed = parse(&written).expect("written config parses");
    assert!(!parsed.private_packages().version());
    assert!(!parsed.private_packages().tag());
}
