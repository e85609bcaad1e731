use oakum::outcome::CliError;
use std::collections::HashSet;

#[test]
fn detail_strips_a_leading_unverified_token() {
    let nested = CliError::unverified(String::from("unverified: no remotes"));
    assert_eq!(nested.detail(), "no remotes");
    let plain = CliError::new(String::from("boom"));
    assert_eq!(plain.detail(), "boom");
}

#[test]
fn check_outcomes_are_distinct_variants() {
    let unverified = CliError::unverified(String::from("unverified: no remotes"));
    let drift = CliError::tag_drift(1);
    let uncovered = CliError::uncovered(2);
    assert!(matches!(unverified, CliError::Unverified { .. }));
    assert!(matches!(drift, CliError::TagDrift { count: 1 }));
    assert!(matches!(uncovered, CliError::Uncovered { count: 2 }));
    assert_ne!(
        std::mem::discriminant(&unverified),
        std::mem::discriminant(&drift)
    );
}

const EXIT_CODED: usize = 7;

fn exit_codes() -> [(CliError, i32); EXIT_CODED] {
    [
        (CliError::unverified(String::from("unverified: no remotes")), 2),
        (CliError::tag_drift(1), 1),
        (CliError::uncovered(2), 1),
        (
            CliError::Forbidden {
                path: String::from("/comments"),
            },
            1,
        ),
        (CliError::MissingActionsToken, 1),
        (CliError::MissingPullNumber, 1),
        (CliError::new(String::from("boom")), 1),
    ]
}

#[test]
fn the_exit_code_table_names_every_variant_once() {
    let named: HashSet<_> = exit_codes()
        .iter()
        .map(|(err, _)| std::mem::discriminant(err))
        .collect();
    assert_eq!(named.len(), EXIT_CODED, "every row must name a different variant");
}

#[test]
fn only_unverified_exits_two() {
    for (err, expected) in exit_codes() {
        assert_eq!(err.exit_code(), expected, "{}", err.message());
        assert_eq!(
            expected == 2,
            matches!(err, CliError::Unverified { .. }),
            "only `Unverified` exits 2: {}",
            err.message()
        );
    }
}

#[test]
fn the_printed_token_agrees_with_the_exit_code() {
    for (err, expected) in exit_codes() {
        assert_eq!(
            err.outcome() == "unverified",
            expected == 2,
            "`{}` beside exit {expected}: {}",
            err.outcome(),
            err.message()
        );
    }
}

#[test]
fn the_printed_line_carries_one_outcome_token() {
    let line = {
        let err = CliError::unverified(String::from("unverified: no remotes"));
        format!("{}: {}", err.outcome(), err.detail())
    };
    assert_eq!(line, "unverified: no remotes");
    assert_eq!(line.matches("unverified").count(), 1, "{line}");
}

#[test]
fn github_forbidden_reads_as_a_refusal_naming_the_path() {
    let err = CliError::Forbidden {
        path: String::from("/repos/oakoss/oakum/issues/4/comments"),
    };
    assert_eq!(err.exit_code(), 1);
    assert_eq!(
        err.message(),
        "GitHub /repos/oakoss/oakum/issues/4/comments returned 403"
    );
}

#[test]
fn missing_comment_preconditions_are_distinct_variants() {
    assert!(matches!(
        CliError::MissingActionsToken,
        CliError::MissingActionsToken
    ));
    assert!(matches!(
        CliError::MissingPullNumber,
        CliError::MissingPullNumber
    ));
    assert_ne!(
        std::mem::discriminant(&CliError::MissingActionsToken),
        std::mem::discriminant(&CliError::MissingPullNumber)
    );
    assert_eq!(
        CliError::MissingActionsToken.message(),
        "`oakum ci pr-status` needs GITHUB_TOKEN to post a comment"
    );
}

#[test]
fn tag_drift_and_uncovered_display_match_the_check_summaries() {
    assert_eq!(
        CliError::tag_drift(1).message(),
        "1 package(s) bumped without a tag"
    );
    assert_eq!(
        CliError::uncovered(2).message(),
        "2 package(s) changed with no covering intent"
    );
}

#[test]
fn a_large_count_prints_every_digit() {
    assert_eq!(
        CliError::tag_drift(1205).message(),
        "1205 package(s) bumped without a tag"
    );
    assert_eq!(CliError::uncovered(0).message(), "0 package(s) changed with no covering intent");
}

#[test]
fn recast_keeps_the_class_and_replaces_the_sentence() {
    let unverified = CliError::unverified(String::from("unverified: a")).recast(String::from("b"));
    assert_eq!(unverified.exit_code(), 2);
    assert_eq!(unverified.message(), "b");
    let drift = CliError::tag_drift(3).recast(String::from("c"));
    assert_eq!(drift.exit_code(), 1);
    assert_eq!(drift.message(), "c");
}

/// The position of a variant in the declaration; the `match` is exhaustive,
/// so a variant added to `CliError` fails to compile here until it is
/// counted.
fn declared_position(err: &CliError) -> usize {
    match err {
        CliError::Unverified { .. } => 0,
        CliError::TagDrift { .. } => 1,
        CliError::Uncovered { .. } => 2,
        CliError::Forbidden { .. } => 3,
        CliError::MissingActionsToken => 4,
        CliError::MissingPullNumber => 5,
        CliError::Other(_) => 6,
    }
}

#[test]
fn every_variant_states_an_exit_code() {
    let declared = 7;
    let mut stated: Vec<usize> = exit_codes().iter().map(|(err, _)| declared_position(err)).collect();
    stated.sort_unstable();
    stated.dedup();
    assert_eq!(
        stated.len(),
        declared,
        "`CliError` declares {declared} variants and the exit-code table lists {}",
        stated.len()
    );
}
