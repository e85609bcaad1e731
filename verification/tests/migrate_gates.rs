use oakum::migrate::{
    after_head, after_mentions, after_tracked, settle_gate_look, start_gate_look, GateLook,
    GateRead, GateStep,
};
use oakum::outcome::CliError;

/// A scripted answer to one gate read, already read by the git layer.
#[derive(Clone)]
enum Reply {
    Paths(Vec<String>),
    Absent,
    Yes,
    Failed(&'static str),
}

fn failed(why: &str) -> CliError {
    CliError::unverified(format!("unverified: {why}"))
}

/// Drives a gate look against scripted answers, recording each read asked for.
fn gate_look(script: &[(GateRead, Reply)]) -> (Result<GateLook, CliError>, Vec<GateRead>) {
    let answer = |read: GateRead| {
        script
            .iter()
            .find(|(op, _)| *op == read)
            .map(|(_, reply)| reply.clone())
            .unwrap_or_else(|| panic!("{read:?} was not scripted"))
    };
    let mut asked = Vec::new();
    let mut step = start_gate_look(true);
    loop {
        match step {
            GateStep::Done(answer) => return (answer, asked),
            GateStep::Read(read) => {
                asked.push(read);
                let reply = answer(read);
                step = match read {
                    GateRead::Mentions => after_mentions(match reply {
                        Reply::Paths(paths) => Ok(Some(paths)),
                        Reply::Absent => Ok(None),
                        Reply::Yes => Ok(Some(Vec::new())),
                        Reply::Failed(why) => Err(failed(why)),
                    }),
                    GateRead::Listing => after_tracked(match reply {
                        Reply::Paths(paths) => Ok(paths),
                        Reply::Absent | Reply::Yes => Ok(Vec::new()),
                        Reply::Failed(why) => Err(failed(why)),
                    }),
                    GateRead::Head => after_head(match reply {
                        Reply::Yes | Reply::Paths(_) => Ok(true),
                        Reply::Absent => Ok(false),
                        Reply::Failed(why) => Err(failed(why)),
                    }),
                };
            }
        }
    }
}

fn paths(list: &[&str]) -> Reply {
    Reply::Paths(list.iter().map(|p| String::from(*p)).collect())
}

#[test]
fn a_tracked_file_naming_the_directory_is_found() {
    let (answer, asked) = gate_look(&[(
        GateRead::Mentions,
        paths(&[".agent/hooks/require-bump-file.sh", ".github/workflows/gate.yml"]),
    )]);
    assert_eq!(
        answer.expect("looked"),
        GateLook::Found(Vec::from([
            String::from(".agent/hooks/require-bump-file.sh"),
            String::from(".github/workflows/gate.yml"),
        ]))
    );
    assert_eq!(asked, [GateRead::Mentions]);
}

#[test]
fn a_grep_that_exited_zero_without_naming_a_file_is_not_an_empty_find() {
    let (answer, asked) = gate_look(&[(
        GateRead::Mentions,
        Reply::Failed("git grep exited 0 without answering"),
    )]);
    let err = answer.expect_err("a look nobody completed is not an empty find");
    assert_eq!(err.exit_code(), 2, "{err:?}");
    assert!(err.message().contains("without answering"), "{err:?}");
    assert_eq!(asked, [GateRead::Mentions]);
}

#[test]
fn no_match_over_tracked_files_is_an_empty_find() {
    let (answer, asked) = gate_look(&[
        (GateRead::Mentions, Reply::Absent),
        (GateRead::Listing, paths(&["README.md"])),
    ]);
    assert_eq!(answer.expect("looked"), GateLook::Found(Vec::new()));
    assert_eq!(asked, [GateRead::Mentions, GateRead::Listing]);
}

#[test]
fn an_empty_index_with_no_commit_is_nothing_tracked() {
    let (answer, asked) = gate_look(&[
        (GateRead::Head, Reply::Absent),
        (GateRead::Listing, paths(&[])),
        (GateRead::Mentions, Reply::Absent),
    ]);
    assert_eq!(answer.expect("looked"), GateLook::NothingTracked);
    assert_eq!(asked, [GateRead::Mentions, GateRead::Listing, GateRead::Head]);
}

#[test]
fn a_later_child_that_died_or_only_warned_stops_the_look() {
    for (op, why) in [
        (GateRead::Listing, "git ls-files was signalled"),
        (GateRead::Listing, "warning: unable to access '/etc/gitconfig'"),
        (GateRead::Head, "git rev-parse was signalled"),
        (GateRead::Head, "warning: unable to access '/etc/gitconfig'"),
    ] {
        let mut script = Vec::from([(GateRead::Mentions, Reply::Absent)]);
        if op == GateRead::Head {
            script.push((GateRead::Listing, paths(&[])));
        }
        let expected: Vec<GateRead> = script.iter().map(|(op, _)| *op).chain([op]).collect();
        script.push((op, Reply::Failed(why)));
        let (answer, asked) = gate_look(&script);
        answer.expect_err("a child that did not answer stops the look");
        assert_eq!(asked, expected, "no child after the one that failed");
    }
}

#[test]
fn an_empty_index_over_commits_is_a_failure_to_look() {
    let (answer, _) = gate_look(&[
        (GateRead::Mentions, Reply::Absent),
        (GateRead::Listing, paths(&[])),
        (GateRead::Head, Reply::Yes),
    ]);
    let err = answer.expect_err("a broken index is not an empty repository");
    assert!(
        err.detail().contains("index lists no file while HEAD has commits"),
        "{err:?}"
    );
}

#[test]
fn a_diagnosed_exit_one_is_a_failure_not_an_empty_search() {
    let (answer, asked) = gate_look(&[
        (GateRead::Mentions, Reply::Failed("fatal: unable to read index")),
        (GateRead::Listing, paths(&["README.md"])),
    ]);
    let err = answer.expect_err("a diagnosed failure");
    assert!(err.detail().contains("unable to read index"), "{err:?}");
    assert_eq!(asked, [GateRead::Mentions], "no second child after a failed look");
}

#[test]
fn nothing_to_repoint_asks_git_nothing() {
    match start_gate_look(false) {
        GateStep::Done(Ok(look)) => assert_eq!(look, GateLook::NothingToRepoint),
        other => panic!("expected no look, got {other:?}"),
    }
}

#[test]
fn a_failed_look_keeps_its_detail() {
    let look = settle_gate_look(Err(CliError::unverified(String::from(
        "unverified: fatal: unable to read index",
    ))));
    assert_eq!(look, GateLook::Failed(String::from("fatal: unable to read index")));
}
