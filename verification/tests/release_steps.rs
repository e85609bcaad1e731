use oakum::outcome::CliError;
use oakum::plan::{Ecosystem, PackageId};
use oakum::release_steps::{
    commit_recurs, local_scan_refusal, local_tag_look, local_tag_verdict, partial_failure,
    push_outcome, readable_for_package, refuse_repeated_names, release_actions,
    release_lookup_verdict, release_text, remote_present_refusal, remote_scan_refusal,
    remote_tag_verdict, scan_resolved_tags, unreachable_tag_refusal, LocalTag, PlannedTag,
    Progress, Reread, UnreadStep, unread_step,
};
use oakum::versions::parse_version;

fn tag(name: &str, commit: &str, resumed: bool) -> PlannedTag {
    PlannedTag {
        package: "core".to_string(),
        version: parse_version("1.2.3").unwrap(),
        name: name.to_string(),
        commit: commit.to_string(),
        resumed,
    }
}

fn detail(e: &CliError) -> String {
    e.message()
}

#[test]
fn a_name_rendered_twice_is_refused() {
    let names = vec!["v1".to_string(), "core@1".to_string(), "v1".to_string()];
    let err = refuse_repeated_names(&names).unwrap_err();
    assert_eq!(detail(&err), "tag-format rendered `v1` for more than one package");
    assert!(refuse_repeated_names(&vec!["a".to_string(), "b".to_string()]).is_ok());
}

#[test]
fn a_rendered_name_must_read_back_as_the_release() {
    let v = parse_version("1.2.3").unwrap();
    assert!(readable_for_package("core@1.2.3", "core", &v, Ok(Some(parse_version("1.2.3").unwrap()))).is_ok());
    let other = readable_for_package("core@1.2.4", "core", &v, Ok(Some(parse_version("1.2.4").unwrap())));
    assert_eq!(
        detail(&other.unwrap_err()),
        "tag-format rendered `core@1.2.4` as core 1.2.4, not core 1.2.3"
    );
    assert_eq!(
        detail(&readable_for_package("x", "core", &v, Ok(None)).unwrap_err()),
        "tag-format rendered `x`, which is not a readable tag for core"
    );
    assert_eq!(
        detail(&readable_for_package("x", "core", &v, Err(())).unwrap_err()),
        "tag-format rendered `x`, which later check would treat as leftover"
    );
}

#[test]
fn github_release_lookups_decide_what_is_owed() {
    assert!(release_lookup_verdict(&tag("v1", "abc", false), None).unwrap());
    assert!(!release_lookup_verdict(&tag("v1", "abc", true), Some("https://x".to_string())).unwrap());
    let err = release_lookup_verdict(&tag("v1", "abc", false), Some("https://x".to_string())).unwrap_err();
    assert_eq!(detail(&err), "GitHub already has a release for `v1` (https://x)");
}

#[test]
fn a_tag_elsewhere_at_another_commit_refuses() {
    let t = tag("v1", "abc", false);
    assert!(remote_tag_verdict("origin", &t, None).is_ok());
    assert!(remote_tag_verdict("origin", &t, Some("abc".to_string())).is_ok());
    assert_eq!(
        detail(&remote_tag_verdict("origin", &t, Some("def".to_string())).unwrap_err()),
        "remote \"origin\" already has tag `v1` at `def`, not `abc`"
    );
    assert!(local_tag_verdict(&t, Some("abc".to_string())).is_ok());
    assert_eq!(
        detail(&local_tag_verdict(&t, Some("def".to_string())).unwrap_err()),
        "local tag `v1` points at `def`, not `abc`"
    );
}

#[test]
fn what_one_tag_still_needs() {
    assert_eq!(release_actions(false, false), (true, true));
    assert_eq!(release_actions(true, false), (false, true));
    assert_eq!(release_actions(false, true), (false, false));
    let (title, body) = release_text(&tag("v1", "abc", false));
    assert_eq!(title, "core 1.2.3");
    assert_eq!(body, "core 1.2.3\n");
}

#[test]
fn a_failed_push_is_read_back() {
    let err = CliError::new("push failed".to_string());
    let (p, e) = push_outcome(Some(Progress::Tagged), err.clone(), Reread::Landed);
    assert_eq!(p, Some(Progress::Pushed));
    assert_eq!(detail(&e), "push failed");
    let (p, _) = push_outcome(Some(Progress::Tagged), err.clone(), Reread::Missing);
    assert_eq!(p, Some(Progress::Tagged));
    let (p, e) = push_outcome(None, err, Reread::Failed("no network".to_string()));
    assert_eq!(p, Some(Progress::PushUnverified));
    assert_eq!(
        detail(&e),
        "unverified: push failed; the re-read that would settle whether the tag landed failed too (no network)"
    );
}

#[test]
fn a_stop_reports_what_completed_and_what_remains() {
    let err = CliError::new("boom".to_string());
    let e = partial_failure(
        &vec!["a@1".to_string()],
        Some(Progress::Pushed),
        "b@2",
        &vec!["c@3".to_string()],
        &err,
    );
    assert_eq!(
        detail(&e),
        "release stopped; tags are not deleted.\ncompleted:\n  a@1\n  b@2 (pushed)\nremaining:\n  c@3\nboom"
    );
    let e = partial_failure(&Vec::new(), None, "a@1", &Vec::new(), &err);
    assert_eq!(
        detail(&e),
        "release stopped; tags are not deleted.\ncompleted: none\nremaining: none\nboom"
    );
}

#[test]
fn a_later_tag_at_the_same_commit_recurs() {
    let planned = vec![tag("a", "x", false), tag("b", "y", false), tag("c", "x", false)];
    assert!(commit_recurs(&planned, 0));
    assert!(!commit_recurs(&planned, 1));
    assert!(!commit_recurs(&planned, 2));
}

#[test]
fn the_local_listing_settles_a_reachable_tag() {
    let listed = vec![
        ("v1".to_string(), "o1".to_string()),
        ("v2".to_string(), "o2".to_string()),
    ];
    let reachable = vec!["v1".to_string()];
    assert!(matches!(local_tag_look(&listed, &reachable, "v1"), LocalTag::Reachable));
    match local_tag_look(&listed, &reachable, "v2") {
        LocalTag::Unreachable { object } => assert_eq!(object, "o2"),
        other => panic!("expected unreachable, got {other:?}"),
    }
    assert!(matches!(local_tag_look(&listed, &reachable, "v3"), LocalTag::Missing));
}

#[test]
fn the_resolution_scan_blocks_on_this_version_or_an_unattributable_name() {
    let core = PackageId::new(Ecosystem::Cargo, "core");
    let v = parse_version("1.2.3").unwrap();
    let tags = vec![
        (
            "other@1.2.3".to_string(),
            Ok(vec![(PackageId::new(Ecosystem::Cargo, "other"), parse_version("1.2.3").unwrap())]),
        ),
        ("junk-1.0".to_string(), Err(())),
        ("core-v1.2.3".to_string(), Ok(vec![(PackageId::new(Ecosystem::Cargo, "core"), parse_version("1.2.3").unwrap())])),
    ];
    assert_eq!(
        scan_resolved_tags(&tags, &core, &v, &vec!["junk-1.0".to_string()]),
        Some(("core-v1.2.3".to_string(), true))
    );
    assert_eq!(
        scan_resolved_tags(&tags, &core, &v, &Vec::new()),
        Some(("junk-1.0".to_string(), false))
    );
    assert_eq!(scan_resolved_tags(&tags[..1].to_vec(), &core, &v, &Vec::new()), None);
}

#[test]
fn unread_tag_refusals_name_the_tag_and_the_remedy() {
    let v = parse_version("1.2.3").unwrap();
    assert_eq!(
        detail(&unreachable_tag_refusal("v1.2.3", "core", &v, Some("abc".to_string()), "obj")),
        "unverified: tag `v1.2.3` for core 1.2.3 points at `abc` on history unreachable from HEAD, so the release scan never read it; merge that history or move the tag"
    );
    assert_eq!(
        detail(&unreachable_tag_refusal("v1.2.3", "core", &v, None, "obj")),
        "unverified: tag `v1.2.3` for core 1.2.3 names object `obj`, which cannot be read; the repository is corrupt where the release state would be"
    );
    assert_eq!(
        detail(&local_scan_refusal("v1.2.3", "core", &v, "core@1.2.3", true)),
        "unverified: tag-format renders `v1.2.3` for core 1.2.3, but the tag that exists for that version is `core@1.2.3`; the resume asks only about `v1.2.3`, so reconcile the tag-format with the existing tags"
    );
    assert!(detail(&local_scan_refusal("v1.2.3", "core", &v, "junk", false))
        .starts_with("unverified: tag `junk` looks like a version"));
    assert_eq!(
        detail(&remote_present_refusal("v1.2.3", "core", &v, "origin")),
        "unverified: tag `v1.2.3` for core 1.2.3 exists on remote \"origin\" but not locally, so the release scan never read it; run `git fetch origin tag v1.2.3` and rerun"
    );
    assert_eq!(
        detail(&remote_scan_refusal("v1.2.3", "core", &v, "origin", "core@1.2.3", true)),
        "unverified: remote \"origin\" has tag `core@1.2.3`, which names core 1.2.3, but the tag-format renders `v1.2.3`; the release scan never read it — fetch it (`git fetch origin tag core@1.2.3`) or reconcile the tag-format"
    );
    assert_eq!(
        detail(&remote_scan_refusal("v1.2.3", "core", &v, "origin", "junk", false)),
        "unverified: remote \"origin\" has tag `junk`, which looks like a version but could not be attributed to a package; the release scan never read it — fetch it (`git fetch origin tag junk`) or reconcile the tag names"
    );
}

fn refused(step: UnreadStep) -> String {
    match step {
        UnreadStep::Refuse(CliError::Unverified { detail }) => detail,
        other => panic!("expected an unverified refusal, got {other:?}"),
    }
}

#[test]
fn the_unread_scan_asks_for_the_commit_then_refuses() {
    let v = parse_version("1.2.3").unwrap();
    let look = || LocalTag::Unreachable { object: "abc".to_string() };
    match unread_step(look(), None, None, None, None, "core-v1.2.3", "core", &v) {
        UnreadStep::ReadCommit { object } => assert_eq!(object, "abc"),
        other => panic!("expected a commit read, got {other:?}"),
    }
    let detail = refused(unread_step(look(), Some(Some("c0ffee".to_string())), None, None, None, "core-v1.2.3", "core", &v));
    assert!(detail.contains("points at `c0ffee`"), "{detail}");
    let detail = refused(unread_step(look(), Some(None), None, None, None, "core-v1.2.3", "core", &v));
    assert!(detail.contains("names object `abc`"), "{detail}");
    assert!(matches!(
        unread_step(LocalTag::Reachable, None, None, Some("origin".to_string()), None, "core-v1.2.3", "core", &v),
        UnreadStep::Clear
    ));
}

#[test]
fn the_remote_is_listed_once_and_then_decides() {
    let v = parse_version("1.2.3").unwrap();
    let remote = || Some("origin".to_string());
    assert!(matches!(
        unread_step(LocalTag::Missing, None, None, None, None, "core-v1.2.3", "core", &v),
        UnreadStep::Clear
    ));
    match unread_step(LocalTag::Missing, None, None, remote(), None, "core-v1.2.3", "core", &v) {
        UnreadStep::ReadRemote { remote } => assert_eq!(remote, "origin"),
        other => panic!("expected a remote read, got {other:?}"),
    }
    let detail = refused(unread_step(LocalTag::Missing, None, None, remote(), Some((true, None)), "core-v1.2.3", "core", &v));
    assert!(detail.contains("git fetch origin tag core-v1.2.3"), "{detail}");
    let detail = refused(unread_step(
        LocalTag::Missing, None, None, remote(), Some((false, Some(("v1.2.3".to_string(), true)))), "core-v1.2.3", "core", &v,
    ));
    assert!(detail.contains("has tag `v1.2.3`, which names core 1.2.3"), "{detail}");
    assert!(matches!(
        unread_step(LocalTag::Missing, None, None, remote(), Some((false, None)), "core-v1.2.3", "core", &v),
        UnreadStep::Clear
    ));
    let detail = refused(unread_step(
        LocalTag::Missing, None, Some(("v1.2.3".to_string(), true)), remote(), None, "core-v1.2.3", "core", &v,
    ));
    assert!(detail.contains("the tag that exists for that version is `v1.2.3`"), "{detail}");
}
