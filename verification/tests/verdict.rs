use oakum::outcome::{CliError, Outcome};
use oakum::verdict::{
    carry, continuation, first_line, indent_lines, named, verdict_line, LookReport, Refusal,
};

fn unverified(s: &str) -> CliError {
    CliError::unverified(String::from(s))
}

fn finding(s: &str) -> CliError {
    CliError::new(String::from(s))
}

#[test]
fn a_multi_line_refusal_stays_one_block() {
    let report = LookReport::refusing(vec![Refusal {
        error: unverified("unverified: first\nsecond"),
        lines: vec![String::from("detail")],
    }]);
    let verdict = carry(vec![report]).1.expect("a refusal");
    assert_eq!(verdict.detail(), "first\n  second\n  detail");
}

#[test]
fn an_identical_refusal_merges_and_keeps_its_evidence() {
    let same = || unverified("unverified: same text");
    let first = LookReport::refusing(vec![Refusal {
        error: same(),
        lines: vec![String::from("from the first look")],
    }]);
    let second = LookReport::refusing(vec![Refusal {
        error: same(),
        lines: vec![String::from("from the second look")],
    }]);
    let verdict = carry(vec![first, second]).1.expect("a refusal");
    assert_eq!(
        verdict.detail(),
        "same text\n  from the first look\n  from the second look"
    );
}

#[test]
fn a_shadowed_multi_line_refusal_stays_one_block() {
    let deciding = LookReport::refusing(vec![Refusal::bare(finding("first"))]);
    let shadowed = LookReport::refusing(vec![Refusal::bare(unverified(
        "unverified: git failed\nfatal: why",
    ))]);
    let verdict = carry(vec![deciding, shadowed]).1.expect("a refusal");
    assert_eq!(
        verdict.detail(),
        "first\nalso unverified: git failed\n  fatal: why"
    );
}

#[test]
fn a_finding_does_not_merge_into_an_identical_unverified_look() {
    let look = LookReport::refusing(vec![Refusal::bare(unverified("unverified: same words"))]);
    let finding = LookReport::refusing(vec![Refusal::bare(finding("unverified: same words"))]);
    let verdict = carry(vec![look, finding]).1.expect("a refusal");
    assert_eq!(verdict.class(), Outcome::Error);
    assert_eq!(verdict.detail(), "same words\nalso unverified: same words");
}

#[test]
fn a_report_is_said_and_is_not_a_block() {
    let advisory = LookReport {
        lines: vec![String::from("changed with no covering intent")],
        ..LookReport::default()
    };
    let refusing = LookReport::refusing(vec![Refusal::bare(finding("drift"))]);
    let (said, verdict) = carry(vec![advisory, refusing]);
    assert_eq!(said, vec![String::from("changed with no covering intent")]);
    assert_eq!(verdict.expect("a refusal").detail(), "drift");
}

#[test]
fn a_blank_detail_line_carries_no_indent() {
    let mut detail = String::from("summary");
    indent_lines(&mut detail, &continuation("summary\none\n\nthree"));
    assert_eq!(detail, "summary\n  one\n\n  three");
}

#[test]
fn no_refusal_is_no_verdict() {
    let (said, verdict) = carry(vec![LookReport::from_result(Ok(())), LookReport::default()]);
    assert!(said.is_empty());
    assert!(verdict.is_none());
}

#[test]
fn a_later_finding_decides_over_an_earlier_unverified_look() {
    let look = LookReport::from_result(Err(unverified("unverified: shallow clone")));
    let drift = LookReport::from_result(Err(CliError::tag_drift(2)));
    let verdict = carry(vec![look, drift]).1.expect("a refusal");
    assert_eq!(verdict.exit_code(), 1);
    assert_eq!(
        verdict.detail(),
        "2 package(s) bumped without a tag\nalso unverified: shallow clone"
    );
}

#[test]
fn the_last_fatal_wins_over_an_earlier_warning() {
    let detail = "warning: could not open directory 'vendor/': Permission denied\n\
                  fatal: object database is unreadable; run `git fsck`";
    assert_eq!(
        verdict_line(detail),
        "fatal: object database is unreadable; run `git fsck`"
    );
}

#[test]
fn an_inflate_error_does_not_outrank_the_conclusion() {
    let detail = "error: inflate: data stream error (incorrect header check)\n\
                  error: unable to unpack 2407861 header\n\
                  fatal: Not a valid commit name main";
    assert_eq!(verdict_line(detail), "fatal: Not a valid commit name main");
}

#[test]
fn a_diagnostic_with_no_verdict_keeps_its_first_line() {
    assert_eq!(
        verdict_line("terminated by a signal"),
        "terminated by a signal"
    );
    assert_eq!(verdict_line(""), "");
}

#[test]
fn a_blank_diagnostic_still_yields_one_line() {
    assert_eq!(verdict_line("   \n  \n"), "   ");
}

#[test]
fn first_line_and_named_lists() {
    assert_eq!(first_line("one\r\ntwo"), "one");
    assert_eq!(first_line(""), "");
    assert_eq!(named(&vec![]), "");
    assert_eq!(named(&vec![String::from("tags")]), "tags");
    assert_eq!(
        named(&vec![String::from("tags"), String::from("coverage"), String::from("remote")]),
        "tags, coverage, and remote"
    );
}
