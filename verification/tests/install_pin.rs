use oakum::install_pin::versions_in_workflow;

fn workflow(text: &str) -> Vec<String> {
    versions_in_workflow(text)
        .expect("exact pins")
        .iter()
        .map(|v| v.text())
        .collect()
}

#[test]
fn binstall_line_yields_the_version() {
    let versions = workflow("run: cargo binstall --no-confirm oakum@1.2.3\n");
    assert_eq!(versions, vec!["1.2.3".to_string()]);
}

#[test]
fn v_prefix_and_comment_are_stripped() {
    let versions = workflow("run: cargo binstall oakum@v0.1.0 # pin\n");
    assert_eq!(versions, vec!["0.1.0".to_string()]);
}

#[test]
fn double_v_prefix_is_not_an_exact_pin() {
    let err = versions_in_workflow("run: cargo binstall oakum@vv0.1.0\n").unwrap_err();
    assert_eq!(err, "vv0.1.0");
}

#[test]
fn commented_out_pin_is_ignored() {
    assert!(workflow("# cargo binstall oakum@1.2.3\n").is_empty());
}

#[test]
fn cargo_install_version_flag() {
    let versions = workflow("run: cargo install oakum --version 2.0.0\n");
    assert_eq!(versions, vec!["2.0.0".to_string()]);
    let versions = workflow("run: cargo install oakum --vers=2.0.0\n");
    assert_eq!(versions, vec!["2.0.0".to_string()]);
}

#[test]
fn cargo_install_oakum_at_is_one_pin_not_two() {
    let versions = workflow("run: cargo install oakum@1.2.3\n");
    assert_eq!(versions, vec!["1.2.3".to_string()]);
}

#[test]
fn binstall_version_flag() {
    let versions = workflow("run: cargo binstall oakum --version 2.0.0\n");
    assert_eq!(versions, vec!["2.0.0".to_string()]);
    let versions = workflow("run: cargo binstall --no-confirm oakum --vers=2.0.0\n");
    assert_eq!(versions, vec!["2.0.0".to_string()]);
}

#[test]
fn install_action_without_tool_is_not_a_pin() {
    assert!(workflow("uses: oakoss/install-action@v1\n").is_empty());
    assert!(workflow("- uses: oakoss/install-action@v1\n").is_empty());
}

#[test]
fn mixed_binstall_and_cargo_install_collect_both_pins() {
    let versions = workflow("run: cargo binstall oakum@1.0.0 || cargo install oakum@2.0.0\n");
    assert_eq!(
        versions,
        vec![
            "1.0.0".to_string(),
            "2.0.0".to_string()
        ]
    );
}

#[test]
fn cargo_install_continuation_is_one_command() {
    let versions = workflow("run: cargo install oakum \\\n  --version 0.0.0\n");
    assert_eq!(versions, vec!["0.0.0".to_string()]);
}

#[test]
fn run_block_scalar_is_an_install() {
    let versions = workflow("run: |\n  cargo binstall --no-confirm oakum@1.2.3\n");
    assert_eq!(versions, vec!["1.2.3".to_string()]);
}

#[test]
fn inexact_pin_in_run_block_is_unverified_even_when_another_pin_matches() {
    let err = versions_in_workflow(
        "run: cargo binstall --no-confirm oakum@0.0.0\nrun: |\n  cargo binstall oakum@latest\n",
    )
    .unwrap_err();
    assert_eq!(err, "latest");
}

#[test]
fn inexact_pin_in_tool_block_is_unverified_even_when_another_pin_matches() {
    let err = versions_in_workflow(
        "run: cargo binstall --no-confirm oakum@0.0.0\n        tool: |\n          oakum@latest\n",
    )
    .unwrap_err();
    assert_eq!(err, "latest");
}

#[test]
fn cargo_install_version_must_belong_to_oakum() {
    assert!(workflow("run: cargo install ripgrep --version 0.0.0 && oakum check\n").is_empty());
}

#[test]
fn env_or_echo_oakum_at_is_not_a_pin() {
    assert!(workflow("env:\n  OLD: oakum@0.0.0\n").is_empty());
    assert!(workflow("run: echo oakum@0.0.0\n").is_empty());
    assert!(workflow("run: echo cargo binstall oakum@0.0.0\n").is_empty());
    assert!(workflow("OLD: cargo binstall oakum@0.0.0\n").is_empty());
}

#[test]
fn install_action_tool_line_is_a_pin() {
    let versions = workflow("        tool: oakum@0.3.1\n");
    assert_eq!(versions, vec!["0.3.1".to_string()]);
}

#[test]
fn tool_block_scalar_is_a_pin() {
    let versions = workflow("        tool: |\n          oakum@0.3.1\n");
    assert_eq!(versions, vec!["0.3.1".to_string()]);
}

#[test]
fn folded_run_block_is_one_command() {
    let versions = workflow("run: >\n  cargo install oakum\n  --version 0.0.0\n");
    assert_eq!(versions, vec!["0.0.0".to_string()]);
}

#[test]
fn every_cargo_install_on_a_line_is_scanned() {
    let versions = workflow(
        "run: cargo install oakum --version 0.0.0 && cargo install oakum --version 1.2.3\n",
    );
    assert_eq!(
        versions,
        vec![
            "0.0.0".to_string(),
            "1.2.3".to_string()
        ]
    );
}

#[test]
fn unversioned_binstall_is_unverified() {
    let err = versions_in_workflow("run: cargo binstall oakum\n").unwrap_err();
    assert_eq!(err, "unversioned");
    let err =
        versions_in_workflow("run: cargo binstall oakum@0.0.0\nrun: cargo binstall oakum\n")
            .unwrap_err();
    assert_eq!(err, "unversioned");
}

#[test]
fn unversioned_install_on_the_same_line_is_unverified() {
    let err = versions_in_workflow(
        "run: cargo binstall --no-confirm oakum@0.0.0 && cargo binstall oakum\n",
    )
    .unwrap_err();
    assert_eq!(err, "unversioned");
}

#[test]
fn unversioned_tool_line_is_unverified_even_when_another_pin_matches() {
    let err = versions_in_workflow(
        "run: cargo binstall --no-confirm oakum@0.0.0\n        tool: oakum\n",
    )
    .unwrap_err();
    assert_eq!(err, "unversioned");
}

#[test]
fn echo_then_binstall_is_a_pin() {
    let versions =
        workflow("run: echo installing && cargo binstall --no-confirm oakum@0.0.0\n");
    assert_eq!(versions, vec!["0.0.0".to_string()]);
}

#[test]
fn echoed_oakum_at_is_not_a_pin() {
    assert!(
        workflow("run: echo oakum@0.0.0 && cargo binstall --no-confirm ripgrep\n").is_empty()
    );
}

#[test]
fn unversioned_binstall_target_after_a_pin_is_unverified() {
    let err = versions_in_workflow("run: cargo binstall oakum@0.0.0 oakum\n").unwrap_err();
    assert_eq!(err, "unversioned");
    let err = versions_in_workflow("run: cargo binstall ripgrep oakum\n").unwrap_err();
    assert_eq!(err, "unversioned");
    let err = versions_in_workflow("run: (cargo binstall oakum@0.0.0 oakum)\n").unwrap_err();
    assert_eq!(err, "unversioned");
}

#[test]
fn unversioned_cargo_install_target_after_a_pin_is_unverified() {
    let err = versions_in_workflow(
        "run: cargo install oakum --version 0.0.0 && cargo install oakum\n",
    )
    .unwrap_err();
    assert_eq!(err, "unversioned");
    let err = versions_in_workflow("run: cargo install oakum@0.0.0 oakum\n").unwrap_err();
    assert_eq!(err, "unversioned");
    let err = versions_in_workflow("run: cargo install ripgrep oakum\n").unwrap_err();
    assert_eq!(err, "unversioned");
    let versions = workflow("run: cargo install --version 1.2.3 ripgrep oakum\n");
    assert_eq!(versions, vec!["1.2.3".to_string()]);
    let versions = workflow("run: cargo install ripgrep oakum --version 1.2.3\n");
    assert_eq!(versions, vec!["1.2.3".to_string()]);
    let err = versions_in_workflow("run: cargo install oakum --version\n").unwrap_err();
    assert_eq!(err, "unversioned");
    let err = versions_in_workflow(
        "run: cargo binstall --no-confirm oakum@0.0.0 && cargo install oakum --versioned\n",
    )
    .unwrap_err();
    assert_eq!(err, "unversioned");
}

#[test]
fn unversioned_tool_entry_after_a_pin_is_unverified() {
    let err = versions_in_workflow("        tool: oakum@0.0.0, oakum\n").unwrap_err();
    assert_eq!(err, "unversioned");
}

#[test]
fn bare_oakum_invocation_is_not_a_pin() {
    assert!(workflow("run: oakum check\n").is_empty());
}

#[test]
fn not_oakum_at_is_ignored() {
    assert!(workflow("run: cargo binstall fake-oakum@1.0.0\n").is_empty());
}

#[test]
fn range_or_latest_is_unverified() {
    let err = versions_in_workflow("run: cargo binstall oakum@latest\n").unwrap_err();
    assert_eq!(err, "latest");
    let err = versions_in_workflow("run: cargo binstall oakum@^1.0.0\n").unwrap_err();
    assert_eq!(err, "^1.0.0");
}
