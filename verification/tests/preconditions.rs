use oakum::config::{from_document, ConfigDocument, OakumConfig, PrivatePackages};
use oakum::outcome::Outcome;
use oakum::plan::{Ecosystem, Package, PackageId, Workspace};
use oakum::preconditions::{
    coverage_report, manages_nothing, newest_local_tags, release_strictness, remote_verdict, IntentSource, selected_members,
    selection_is_empty, Look, LookPlan, ReachableTag, Scope,
};
use oakum::outcome::CliError;
use oakum::verdict::named;
use oakum::versions::parse_version;

fn config(included: &[&str], exclude: &[&str], private_packages: PrivatePackages) -> OakumConfig {
    let doc = ConfigDocument {
        tool_version: String::from("0.0.0"),
        tool_version_at: 15,
        change_files: None,
        conventional_commits: None,
        versioning: None,
        pr_status: None,
        tag_format: None,
        commit_message: None,
        title: None,
        template: None,
        private_packages: Some(private_packages),
        included: included.iter().map(|name| name.to_string()).collect(),
        exclude: exclude.iter().map(|name| name.to_string()).collect(),
        packages: Vec::new(),
    };
    from_document("tool-version = \"0.0.0\"\n", doc).expect("config")
}

fn workspace(members: &[(&str, bool)]) -> Workspace {
    Workspace::new(
        members
            .iter()
            .map(|(name, publishable)| {
                Package::new(
                    PackageId::new(Ecosystem::Npm, name),
                    parse_version("1.0.0").expect("version"),
                    *publishable,
                )
            })
            .collect(),
    )
}

fn owned(names: &[&str]) -> Vec<String> {
    names.iter().map(|name| name.to_string()).collect()
}

/// The third arm of `settle` cannot arise from a run; this pins what it
/// says if it ever does.
#[test]
fn nothing_refused_and_no_evaluation_is_a_look_that_did_not_happen() {
    let refusal = LookPlan::check(false)
        .settle::<()>(None, None)
        .expect_err("a look that neither answered nor refused");
    assert_eq!(refusal.class(), Outcome::Unverified);
    assert!(refusal.detail().contains("tags"), "{}", refusal.detail());
}

/// `release` gates on the tag state, the pin and coverage — named, so a
/// reordered plan cannot shift what it gates on.
#[test]
fn release_looks_are_named() {
    assert_eq!(LookPlan::release().names(), ["tags", "install pin", "coverage"]);
    // `release` runs the coverage look and reports rather than gates.
    assert_eq!(release_strictness(), Some(false));
}

/// The sentence names every look and invents none.
#[test]
fn the_announcement_names_every_look() {
    let asked = LookPlan::check(true);
    assert_eq!(asked.names().last(), Some(&Look::Remote.name()));
    assert!(asked.runs_remote());
    assert!(!asked.listed_names().contains(&Look::Remote.name()));
    assert!(!LookPlan::check(false).runs_remote());
    let names = LookPlan::check(false).names();
    assert_eq!(
        names,
        [
            "management",
            "tags",
            "install pin",
            "changelogs",
            "staging",
            "coverage"
        ]
    );
    let sentence = named(&owned(&names));
    for look in &names {
        assert!(
            sentence.contains(look),
            "{look} is not announced: {sentence}"
        );
    }
    // A list, not a run-on: the last item takes the `and`.
    assert!(sentence.ends_with("and coverage"), "{sentence}");
    assert_eq!(sentence.matches(", and ").count(), 1, "{sentence}");
    assert_eq!(
        sentence.split(", ").count(),
        names.len(),
        "one item per look: {sentence}"
    );
}

#[test]
fn a_settled_run_keeps_the_refusal_or_the_evaluation() {
    let plan = LookPlan::release();
    let refused = plan.settle(Some(oakum::outcome::CliError::tag_drift(2)), Some(7u8));
    assert!(matches!(refused, Err(oakum::outcome::CliError::TagDrift { count: 2 })));
    assert_eq!(plan.settle(None, Some(7u8)).expect("answered"), 7);
}

#[test]
fn tag_drift_runs_the_tags_and_the_pin() {
    assert_eq!(LookPlan::tag_drift().names(), ["tags", "install pin"]);
    assert_eq!(LookPlan::tag_drift().listed_names(), ["tags", "install pin"]);
}

#[test]
fn the_scope_names_the_base_and_the_looks() {
    let plan = LookPlan::check(false);
    let scope = Scope {
        selected: 2,
        packages: 3,
        base: Ok(String::from("v1.0.0")),
        gating_coverage: false,
        remote: plan.runs_remote(),
        look_names: owned(&plan.listed_names()),
    };
    assert_eq!(
        scope.text(),
        "check: 2 of 3 package(s) selected, diffing `v1.0.0...HEAD`\n\
check: looking at management, tags, install pin, changelogs, staging, and coverage; \
coverage reports without gating (`--strict` gates); \
not looking at the remote (`--remote` asks for it)"
    );
}

#[test]
fn a_scope_without_a_base_says_why_coverage_cannot_run() {
    let plan = LookPlan::check(true);
    let scope = Scope {
        selected: 1,
        packages: 1,
        base: Err(String::from("git has no `main`\nmore detail")),
        gating_coverage: true,
        remote: plan.runs_remote(),
        look_names: owned(&plan.listed_names()),
    };
    assert_eq!(
        scope.text(),
        "check: 1 of 1 package(s) selected; no base ref to diff from (git has no `main`)\n\
check: looking at management, tags, install pin, changelogs, staging, and coverage; \
coverage cannot run without a base ref; looking at the remote"
    );
}

#[test]
fn an_all_private_selection_manages_nothing() {
    let ws = workspace(&[("a", false), ("b", false)]);
    let cfg = config(&[], &[], PrivatePackages::new(false, false));
    assert!(manages_nothing(&cfg, &ws));
    assert!(!selection_is_empty(&cfg, &ws));
    assert_eq!(selected_members(&cfg, &ws), 2);
    // Either axis counts as work.
    assert!(!manages_nothing(&config(&[], &[], PrivatePackages::new(false, true)), &ws));
    assert!(!manages_nothing(&config(&[], &[], PrivatePackages::new(true, false)), &ws));
    // A publishable member is managed.
    assert!(!manages_nothing(&cfg, &workspace(&[("a", false), ("b", true)])));
}

#[test]
fn an_empty_selection_is_its_own_fact() {
    let ws = workspace(&[("a", true), ("b", false)]);
    let cfg = config(&["a"], &["a"], PrivatePackages::new(false, false));
    assert!(selection_is_empty(&cfg, &ws));
    assert!(!manages_nothing(&cfg, &ws));
    assert_eq!(selected_members(&cfg, &ws), 0);
    let only_b = config(&["b"], &[], PrivatePackages::new(false, false));
    assert_eq!(selected_members(&only_b, &ws), 1);
    assert!(manages_nothing(&only_b, &ws));
}

fn names(list: &[&str]) -> Vec<String> {
    list.iter().map(|name| name.to_string()).collect()
}

#[test]
fn a_base_that_could_not_be_named_is_unverified() {
    let err = coverage_report(
        Err(String::from("git has no `main`")),
        true,
        IntentSource::ChangeFiles,
        &names(&["core"]),
        Ok(Vec::new()),
        &Vec::new(),
    )
    .err()
    .expect("no look");
    assert_eq!(err.class(), Outcome::Unverified);
    assert_eq!(err.message(), "unverified: git has no `main`");
    assert_eq!(err.detail(), "git has no `main`");
}

#[test]
fn an_uncovered_package_gates_only_under_strict() {
    let reported = coverage_report(
        Ok(String::from("main")),
        false,
        IntentSource::ChangeFiles,
        &names(&["core"]),
        Ok(names(&["cli: changed outside HEAD"])),
        &Vec::new(),
    )
    .ok()
    .expect("look");
    assert_eq!(
        reported.lines,
        names(&[
            "core: changed with no covering intent; add a bump file (or `none` / empty frontmatter under --strict)",
            "cli: changed outside HEAD",
        ])
    );
    assert!(reported.refusals.is_empty());

    let gated = coverage_report(
        Ok(String::from("main")),
        true,
        IntentSource::CommitsOnly,
        &names(&["core", "cli"]),
        Err(String::from("index unreadable")),
        &names(&["`ghost` is named but not managed", "`other` is named but not managed"]),
    )
    .ok()
    .expect("look");
    assert_eq!(
        gated.lines,
        names(&["the working tree could not be read, so this run looked only at commits: index unreadable"])
    );
    assert_eq!(gated.refusals.len(), 2);
    assert_eq!(gated.refusals[0].error.detail(), "`ghost` is named but not managed");
    assert_eq!(gated.refusals[0].lines, names(&["`other` is named but not managed"]));
    assert_eq!(gated.refusals[1].error.detail(), "2 package(s) changed with no covering intent");
    assert_eq!(
        gated.refusals[1].lines[0],
        "core: changed with no covering intent; name the package in a conventional commit (or a path that maps to it)"
    );
}

/// A reachable tag with the version its name carries.
fn reachable(name: &str, version: &str) -> ReachableTag {
    ReachableTag::new(String::from(name), Some(parse_version(version).unwrap()))
}

/// The names in the order a set of names gives them.
fn by_name(mut tags: Vec<ReachableTag>) -> Vec<ReachableTag> {
    tags.sort_by(|a, b| a.name().cmp(b.name()));
    tags
}

#[test]
fn newest_local_tags_orders_changeset_and_hyphen_shapes() {
    let names = by_name(vec![
        reachable("demo@0.9.0", "0.9.0"),
        reachable("demo@0.10.0", "0.10.0"),
        reachable("demo-v0.11.0", "0.11.0"),
        reachable("other/v0.8.0", "0.8.0"),
    ]);
    assert_eq!(
        newest_local_tags(&names, 3),
        vec!["demo@0.9.0".to_string(), "demo@0.10.0".to_string(), "demo-v0.11.0".to_string(),]
    );
}

#[test]
fn newest_local_tags_keeps_hyphen_prerelease_starting_with_v() {
    let names = by_name(vec![
        reachable("demo@0.9.0", "0.9.0"),
        reachable("demo@0.10.0", "0.10.0"),
        reachable("demo-v1.0.0-v1", "1.0.0-v1"),
        reachable("other/v0.8.0", "0.8.0"),
    ]);
    assert_eq!(
        newest_local_tags(&names, 3),
        vec!["demo@0.9.0".to_string(), "demo@0.10.0".to_string(), "demo-v1.0.0-v1".to_string(),]
    );
}

#[test]
fn unversioned_tags_are_older_than_versioned_ones_and_go_by_name() {
    let names = vec![
        ReachableTag::new(String::from("beta"), None),
        reachable("demo@0.1.0", "0.1.0"),
        ReachableTag::new(String::from("alpha"), None),
    ];
    assert_eq!(
        newest_local_tags(&names, 10),
        vec!["alpha".to_string(), "beta".to_string(), "demo@0.1.0".to_string()]
    );
    assert_eq!(newest_local_tags(&names, 1), vec!["demo@0.1.0".to_string()]);
    assert!(newest_local_tags(&names, 0).is_empty());
}

fn unverified_detail(r: Result<(), CliError>) -> String {
    match r {
        Err(CliError::Unverified { detail }) => detail,
        other => panic!("expected a look that did not happen, got {other:?}"),
    }
}

#[test]
fn the_remote_look_needs_a_remote() {
    let detail = unverified_detail(remote_verdict(None, &Vec::new(), &Vec::new(), 5));
    assert_eq!(detail, "unverified: --remote set but this repository has no remotes");
}

#[test]
fn the_remote_look_names_a_fetch_that_skipped_tags() {
    assert!(remote_verdict(Some("origin"), &Vec::new(), &Vec::new(), 5).is_ok());
    let detail = unverified_detail(remote_verdict(Some("origin"), &vec![String::from("v1.0.0")], &Vec::new(), 5));
    assert_eq!(
        detail,
        "unverified: remote \"origin\" advertises tags but none are reachable locally; run `git fetch --tags -- origin` (a prior fetch --no-tags leaves no local tagOpt to detect)"
    );
}

#[test]
fn the_remote_look_lists_the_newest_tags_the_remote_lacks() {
    let local = by_name(vec![
        reachable("demo@0.9.0", "0.9.0"),
        reachable("demo@0.10.0", "0.10.0"),
        reachable("demo@0.11.0", "0.11.0"),
    ]);
    let advertised = vec![String::from("demo@0.9.0")];
    assert!(remote_verdict(Some("origin"), &advertised, &local, 1).is_err());
    let detail = unverified_detail(remote_verdict(Some("origin"), &advertised, &local, 3));
    assert_eq!(
        detail,
        "unverified: newest local tags missing from remote \"origin\": demo@0.10.0, demo@0.11.0; push the tags (`git push --tags -- origin`) or confirm the remote did not drop them"
    );
    let all = vec![String::from("demo@0.9.0"), String::from("demo@0.10.0"), String::from("demo@0.11.0")];
    assert!(remote_verdict(Some("origin"), &all, &local, 3).is_ok());
}
