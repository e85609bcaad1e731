use oakum::plan::Ecosystem;
use oakum::render::{
    render_comment, render_summary, BumpName, CoverageLook, PackageRef, PlannedRelease,
    ReleaseSource, ReleaseState, PR_PLAN_MARKER,
};
use oakum::versions::parse_version;

const FIX: &str = "set `private-packages` or adjust `include`/`exclude` to manage it";

fn cargo(name: &str) -> PackageRef {
    PackageRef {
        name: name.to_string(),
        ecosystem: Ecosystem::Cargo,
    }
}

fn empty_state(coverage: CoverageLook) -> ReleaseState {
    ReleaseState {
        packages: Vec::new(),
        uncovered: Vec::new(),
        unmanaged: Vec::new(),
        coverage,
        manages_nothing: false,
        selection_empty: false,
    }
}

fn release(name: &str, from: &str, to: &str, bump: BumpName, source: ReleaseSource) -> PlannedRelease {
    PlannedRelease {
        name: name.to_string(),
        ecosystem: Ecosystem::Cargo,
        from_version: parse_version(from).unwrap(),
        to_version: parse_version(to).unwrap(),
        bump,
        source,
    }
}

#[test]
fn a_comment_carrying_only_unmanaged_packages_is_not_empty() {
    let mut state = empty_state(CoverageLook::Ran);
    state.unmanaged = vec![cargo("beta")];
    let body = render_comment(&state, FIX).expect("a state with something to say renders a body");
    assert!(body.contains("beta"), "{body}");
    assert_ne!(body.trim_end(), PR_PLAN_MARKER);
}

#[test]
fn a_comment_with_nothing_to_say_is_none() {
    let quiet = empty_state(CoverageLook::Ran);
    assert_eq!(render_comment(&quiet, FIX), None);
}

#[test]
fn a_failed_coverage_look_is_named_in_both_renders() {
    let failed = empty_state(CoverageLook::Failed);
    let body = render_comment(&failed, FIX).expect("a failed look is worth saying");
    assert!(body.contains("Coverage was not checked"), "{body}");
    assert!(render_summary(&empty_state(CoverageLook::Failed), FIX).contains("Coverage was not checked"));
}

#[test]
fn a_look_nobody_asked_for_is_not_reported_as_a_failure() {
    let summary = render_summary(&empty_state(CoverageLook::NotAsked), FIX);
    assert!(
        !summary.contains("Coverage was not checked"),
        "nothing asked, so nothing failed: {summary}"
    );
}

#[test]
fn a_config_that_manages_nothing_is_named_in_both_renders() {
    let mut state = empty_state(CoverageLook::Ran);
    state.manages_nothing = true;
    let body = render_comment(&state, FIX).expect("a config that can never release is worth saying");
    assert!(body.contains("manages no package on either axis"), "{body}");
    assert!(render_summary(&state, FIX).contains("manages no package on either axis"));
}

#[test]
fn an_emptied_selection_is_named_in_both_renders() {
    let mut state = empty_state(CoverageLook::NotAsked);
    state.selection_empty = true;
    let summary = render_summary(&state, FIX);
    assert!(
        summary.contains("`include`/`exclude` leave no package selected"),
        "{summary}"
    );
    assert!(
        summary.contains("`check` does not refuse this"),
        "the divergence is the point: {summary}"
    );
    let comment = render_comment(&state, FIX).expect("an emptied selection is worth a comment");
    assert!(
        comment.contains("`include`/`exclude` leave no package selected"),
        "{comment}"
    );
}

#[test]
fn the_summary_table_names_each_release_and_its_source() {
    let mut state = empty_state(CoverageLook::Ran);
    state.packages = vec![
        release("core", "0.1.0", "0.2.0", BumpName::Minor, ReleaseSource::Intent),
        release(
            "cli",
            "1.0.0",
            "1.0.1",
            BumpName::Patch,
            ReleaseSource::Cascade { trigger: cargo("core") },
        ),
    ];
    state.uncovered = vec![cargo("docs"), cargo("site")];
    assert_eq!(
        render_summary(&state, FIX),
        "## Release plan\n\n\
         | Package | From | To | Bump | Source |\n\
         | --- | --- | --- | --- | --- |\n\
         | core (`cargo`) | 0.1.0 | 0.2.0 | minor | intent |\n\
         | cli (`cargo`) | 1.0.0 | 1.0.1 | patch | cascade from core (cargo) |\n\
         \nUncovered: docs (`cargo`), site (`cargo`)\n"
    );
}

#[test]
fn the_summary_without_a_plan_says_so() {
    assert_eq!(
        render_summary(&empty_state(CoverageLook::Ran), FIX),
        "## Release plan\n\nNo packages planned.\n"
    );
}

#[test]
fn the_comment_lists_releases_and_unmanaged_packages() {
    let mut state = empty_state(CoverageLook::Ran);
    state.packages = vec![release("core", "0.1.0", "1.0.0", BumpName::Major, ReleaseSource::Intent)];
    state.unmanaged = vec![PackageRef {
        name: "web".to_string(),
        ecosystem: Ecosystem::Npm,
    }];
    let body = render_comment(&state, FIX).unwrap();
    assert_eq!(
        body,
        format!(
            "{PR_PLAN_MARKER}\n\nThese packages will release:\n\n- `core` 0.1.0 → 1.0.0 (major)\n\nChanged but not version-managed:\n\n- `web` (npm) — {FIX}\n"
        )
    );
}
