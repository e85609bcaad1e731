use oakum::outcome::CliError;
use oakum::release_state::{resolve_coverage, CoverageMode, CoverageOutcome};

/// What a coverage look that ran found: the changed packages it left uncovered.
type Coverage = Vec<String>;

fn failed_look() -> Result<Coverage, CliError> {
    Err(CliError::unverified(String::from("unverified: shallow clone")))
}

#[test]
fn a_required_look_that_failed_refuses() {
    assert!(resolve_coverage(failed_look(), CoverageMode::Required).0.is_err());
}

#[test]
fn a_reported_look_that_failed_is_recorded_not_refused() {
    let (outcome, said) = resolve_coverage(failed_look(), CoverageMode::Reported);
    assert_eq!(outcome.expect("reported"), CoverageOutcome::Failed);
    assert_eq!(
        said.as_deref(),
        Some("unverified: coverage not checked: shallow clone")
    );
}

#[test]
fn a_look_that_ran_carries_its_answers_under_either_disposition() {
    for mode in [CoverageMode::Required, CoverageMode::Reported] {
        let (outcome, said) = resolve_coverage(Ok(Coverage::default()), mode);
        assert_eq!(outcome.expect("ran"), CoverageOutcome::Ran(Coverage::default()));
        assert_eq!(said, None);
    }
}
