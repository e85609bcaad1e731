use oakum::outcome::CliError;
use oakum::release::{
    check_rendered_tag, decide_release, refuse_skip_ci, refuse_without_a_look, skip_ci,
    unverified_look, worktree_is_dirty, HaveRemote, HaveToken, ReleaseDecision, ReleaseReadiness,
};

#[test]
fn a_look_needs_both_a_remote_and_a_token() {
    refuse_without_a_look(HaveRemote(true), HaveToken(true)).expect("both present");

    let no_remote = refuse_without_a_look(HaveRemote(false), HaveToken(true))
        .expect_err("a missing remote refuses");
    assert!(no_remote.message().contains("this repository has no remote"));
    assert!(!no_remote.message().contains("GITHUB_TOKEN"));

    let no_token = refuse_without_a_look(HaveRemote(true), HaveToken(false))
        .expect_err("a missing token refuses");
    assert!(no_token.message().contains("GITHUB_TOKEN and GH_TOKEN"));
    assert!(!no_token.message().contains("has no remote"));

    let neither = refuse_without_a_look(HaveRemote(false), HaveToken(false))
        .expect_err("neither present refuses")
        .message();
    assert!(neither.contains("this repository has no remote"), "{neither}");
    assert!(neither.contains("GITHUB_TOKEN and GH_TOKEN"), "{neither}");
}

#[test]
fn a_slug_failure_on_the_release_path_is_unverified() {
    let err = unverified_look(&CliError::new(String::from(
        "git `origin` `x` is not a github.com URL",
    )));
    assert!(matches!(err, CliError::Unverified { .. }), "{err:?}");
    assert!(err.message().starts_with("unverified:"), "{err:?}");
    assert!(err.message().contains("is not a github.com URL"), "{err:?}");
}

#[test]
fn a_dirty_worktree_stops_the_release_and_a_clean_one_does_not() {
    assert!(!worktree_is_dirty(""));
    assert!(worktree_is_dirty(" M crates/oakum/src/lib.rs"));
}

#[test]
fn a_skip_ci_commit_in_the_push_set_stops_the_release() {
    let read = |message: &str, trailers: &str| {
        (String::from("v0.1.1"), String::from(message), String::from(trailers))
    };
    let err = refuse_skip_ci(&vec![read("fix: typo [skip ci]", "")])
        .expect_err("a skip-ci commit stops");
    assert!(err.message().contains("skip-ci"), "{err:?}");
    assert!(err.message().contains("v0.1.1"), "{err:?}");
    refuse_skip_ci(&vec![read("fix: typo", "")]).expect("an unmarked commit releases");
    refuse_skip_ci(&vec![read("fix: typo", ""), read("fix: typo", "")]).expect("shared commit");
    let err = refuse_skip_ci(&vec![read("chore: release", "true")])
        .expect_err("a skip-checks trailer stops");
    assert!(err.message().contains("skip-ci"), "{err:?}");
}

#[test]
fn skip_ci_matches_github_annotations_and_trailers() {
    assert!(skip_ci("fix: typo [skip ci]", ""));
    assert!(skip_ci("[CI SKIP] docs", ""));
    assert!(skip_ci("chore: [no ci]", ""));
    assert!(skip_ci("[skip actions]\nmore", ""));
    assert!(skip_ci("[actions skip]", ""));
    assert!(!skip_ci("fix: do not skip", ""));
    assert!(!skip_ci("skip ci without brackets", ""));
    assert!(!skip_ci("docs: explain the skip-checks:true trailer", ""));

    assert!(skip_ci("fix: typo", "true"));
    assert!(skip_ci("fix: typo", "True"));
    assert!(skip_ci("fix: typo", " true "));
    assert!(skip_ci("fix: typo", "false\ntrue"));
    assert!(!skip_ci("fix: typo", "false"));
    assert!(!skip_ci("fix: typo", "truely"));
    assert!(!skip_ci("fix: typo", ""));
}

#[test]
fn a_rendered_tag_is_trimmed_and_refused_when_empty_or_spaced() {
    assert_eq!(check_rendered_tag(" v1.0.0\n").expect("a tag"), "v1.0.0");
    let empty = check_rendered_tag("  ").expect_err("empty");
    assert_eq!(empty.message(), "tag-format rendered an empty string");
    let spaced = check_rendered_tag("v 1").expect_err("spaced");
    assert_eq!(spaced.message(), "tag-format rendered whitespace: \"v 1\"");
}

fn readiness() -> ReleaseReadiness<(), String, ()> {
    ReleaseReadiness {
        had_planned_before_resume: true,
        resumable: Vec::new(),
        have_remote: HaveRemote(true),
        have_token: HaveToken(true),
        remote: Some(String::from("origin")),
        token: Some(String::from("t")),
        planned: vec![String::from("v0.1.1")],
        advertised: (),
        preflight_error: None,
        skip_ci_error: None,
        worktree_dirty: false,
        owner: Some(String::from("oakoss")),
        repo_name: Some(String::from("oakum")),
    }
}

#[test]
fn decide_nothing_when_no_work_and_no_credentials() {
    let mut r = readiness();
    r.had_planned_before_resume = false;
    r.token = None;
    assert!(matches!(decide_release(r), ReleaseDecision::NothingToRelease));
}

#[test]
fn decide_refuses_a_resume_look_without_credentials() {
    let mut r = readiness();
    r.had_planned_before_resume = false;
    r.resumable = vec![()];
    r.have_token = HaveToken(false);
    r.token = None;
    match decide_release(r) {
        ReleaseDecision::Refused(err) => {
            assert!(matches!(err, CliError::Unverified { .. }));
            assert!(err.message().contains("GITHUB_TOKEN"), "{err:?}");
        }
        _ => panic!("a resume without credentials refuses"),
    }
}

#[test]
fn decide_refuses_on_preflight_error_before_anything_else() {
    let mut r = readiness();
    r.preflight_error = Some(CliError::new(String::from("preflight")));
    r.worktree_dirty = true;
    match decide_release(r) {
        ReleaseDecision::Refused(err) => assert_eq!(err.message(), "preflight"),
        _ => panic!("a preflight error refuses"),
    }
}

#[test]
fn decide_refuses_a_dirty_worktree_and_missing_coordinates() {
    let mut dirty = readiness();
    dirty.worktree_dirty = true;
    match decide_release(dirty) {
        ReleaseDecision::Refused(err) => assert!(err.message().contains("dirty"), "{err:?}"),
        _ => panic!("a dirty worktree refuses"),
    }
    let mut lost = readiness();
    lost.owner = None;
    match decide_release(lost) {
        ReleaseDecision::Refused(err) => {
            assert!(err.message().contains("GitHub coordinates"), "{err:?}")
        }
        _ => panic!("missing coordinates refuse"),
    }
}

#[test]
fn decide_proceeds_when_readiness_is_complete() {
    match decide_release(readiness()) {
        ReleaseDecision::Proceed(plan) => {
            assert_eq!(plan.planned, vec![String::from("v0.1.1")]);
            assert_eq!(plan.owner, "oakoss");
            assert_eq!(plan.repo_name, "oakum");
            assert_eq!(plan.remote, "origin");
        }
        _ => panic!("a complete readiness proceeds"),
    }
    let mut idle = readiness();
    idle.planned = Vec::new();
    assert!(matches!(decide_release(idle), ReleaseDecision::NothingToRelease));
}

#[test]
fn a_plan_over_a_dirty_tree_is_refused_first() {
    let err = oakum::release::dirty_refusal(true, true).expect("refused");
    assert_eq!(err.message(), "working tree is dirty; commit or stash before releasing");
    assert!(oakum::release::dirty_refusal(false, true).is_none());
    assert!(oakum::release::dirty_refusal(true, false).is_none());
}

#[test]
fn a_plan_that_cannot_reach_github_is_refused_as_the_look_it_could_not_make() {
    use_preflight();
}

fn use_preflight() {
    let none = oakum::release::preflight_refusal(false, false, false, None);
    assert!(none.is_none());
    let no_remote = oakum::release::preflight_refusal(true, false, true, None).expect("no remote");
    assert_eq!(no_remote.message(), "unverified: this repository has no remotes to push tags to");
    assert_eq!(no_remote.exit_code(), 2);
    let no_token = oakum::release::preflight_refusal(true, true, false, None).expect("no token");
    assert_eq!(no_token.message(), "`oakum release` needs GITHUB_TOKEN or GH_TOKEN");
    assert_eq!(no_token.exit_code(), 1);
    let slug = oakum::release::preflight_refusal(
        true,
        true,
        true,
        Some(Err(oakum::outcome::CliError::new("remote `origin` is not a GitHub URL".to_string()))),
    )
    .expect("slug");
    assert_eq!(
        slug.message(),
        "unverified: remote `origin` is not a GitHub URL, so oakum could not ask GitHub whether these tags are released"
    );
    assert!(oakum::release::preflight_refusal(true, true, true, Some(Ok(()))).is_none());
}
