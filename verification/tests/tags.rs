use oakum::outcome::CliError;
use oakum::tags::{
    after_records_read, after_shallow_read, after_suppression_read, group_pairs,
    parse_is_shallow, parse_ls_remote_tag_commits, parse_ls_remote_tags, parse_ref_records,
    parse_tag_suppression, preferred_remote, shell_quote, start_tag_look, CommitTags, TagLook,
    TagRead,
};

/// A scripted answer to one git read.
#[derive(Clone, Copy)]
enum Reply {
    Said(&'static str),
    Absent,
    Warned(&'static str),
}

fn as_text(reply: Reply) -> Result<String, CliError> {
    match reply {
        Reply::Said(out) => Ok(String::from(out)),
        Reply::Absent => Ok(String::new()),
        Reply::Warned(w) => Err(CliError::unverified(format!("unverified: git said {w}"))),
    }
}

fn as_optional_text(reply: Reply) -> Result<Option<String>, CliError> {
    match reply {
        Reply::Said(out) => Ok(Some(String::from(out))),
        Reply::Absent => Ok(None),
        Reply::Warned(w) => Err(CliError::unverified(format!("unverified: git said {w}"))),
    }
}

/// Drives a tag look against scripted answers, recording each read it asked for.
fn reachable_tags(
    shallow: Reply,
    suppression: Reply,
    tags: Reply,
) -> (Result<Vec<CommitTags>, CliError>, Vec<TagRead>) {
    let mut asked = Vec::new();
    let mut look = start_tag_look();
    loop {
        match look {
            TagLook::Done(answer) => return (answer, asked),
            TagLook::Read(read) => {
                asked.push(read);
                look = match read {
                    TagRead::Shallow => after_shallow_read(as_text(shallow)),
                    TagRead::Suppression => after_suppression_read(as_optional_text(suppression)),
                    TagRead::Records => after_records_read(as_text(tags)),
                };
            }
        }
    }
}

fn pair(commit: &str, name: &str) -> (String, String) {
    (String::from(commit), String::from(name))
}

#[test]
fn a_shallow_clone_is_refused_before_any_tag_is_read() {
    let (answer, asked) = reachable_tags(Reply::Said("true"), Reply::Absent, Reply::Said(""));
    let err = answer.expect_err("a shallow clone must not read as never-released");
    assert!(err.message().contains("shallow"), "{err:?}");
    assert_eq!(asked, [TagRead::Shallow]);
}

#[test]
fn a_tag_suppressed_remote_is_refused_before_any_tag_is_read() {
    let (answer, asked) = reachable_tags(
        Reply::Said("false"),
        Reply::Said("remote.origin.tagopt --no-tags"),
        Reply::Said(""),
    );
    let err = answer.expect_err("a --no-tags clone must not read as never-released");
    assert!(err.message().contains("tagOpt --no-tags"), "{err:?}");
    assert_eq!(asked, [TagRead::Shallow, TagRead::Suppression]);
}

#[test]
fn a_warning_on_the_suppression_read_is_not_a_clone_that_fetches_tags() {
    let (answer, asked) = reachable_tags(
        Reply::Said("false"),
        Reply::Warned("warning: unable to access '/etc/gitconfig': Permission denied"),
        Reply::Said(""),
    );
    let err = answer.expect_err("a config read that never answered must not read as no suppression");
    assert!(matches!(err, CliError::Unverified { .. }), "{err:?}");
    assert!(err.message().contains("Permission denied"), "{err:?}");
    assert_eq!(asked, [TagRead::Shallow, TagRead::Suppression]);
}

#[test]
fn a_repository_that_answered_every_read_and_has_no_tags_is_empty_not_unverified() {
    let (answer, asked) = reachable_tags(Reply::Said("false"), Reply::Absent, Reply::Said(""));
    assert!(answer.expect("an empty look").is_empty());
    assert_eq!(asked.len(), 3, "{asked:?}");
    assert_eq!(asked[2], TagRead::Records);
}

#[test]
fn a_warning_on_the_tag_read_is_not_an_empty_tag_list() {
    let (answer, asked) = reachable_tags(
        Reply::Said("false"),
        Reply::Absent,
        Reply::Warned("warning: ignoring broken ref refs/tags/v1.0.0"),
    );
    let err = answer.expect_err("a warned tag read must not read as no tags");
    assert!(err.message().contains("broken ref"), "{err:?}");
    assert_eq!(asked.len(), 3, "{asked:?}");
    assert_eq!(asked[2], TagRead::Records);
}

#[test]
fn an_annotated_tag_peels_to_its_commit_through_the_whole_read() {
    let (answer, _) = reachable_tags(
        Reply::Said("false"),
        Reply::Absent,
        Reply::Said("refs/tags/v1.0.0\0tag\0deadbeef\0commit\0cafebabe"),
    );
    let groups = answer.expect("one reachable tag");
    assert_eq!(groups.len(), 1, "{groups:?}");
    assert_eq!(groups[0].commit(), "cafebabe");
    assert_eq!(groups[0].tags(), ["v1.0.0"]);
}

#[test]
fn hyphen_and_slash_on_one_commit_group_together() {
    let grouped = group_pairs(vec![
        pair("aa", "linesmith/v0.2.0"),
        pair("aa", "linesmith-core-v0.2.0"),
        pair("bb", "v0.1.0"),
    ])
    .expect("ok");
    assert_eq!(grouped.len(), 2);
    assert_eq!(grouped[0].commit(), "aa");
    assert_eq!(
        grouped[0].tags(),
        &[
            "linesmith-core-v0.2.0".to_string(),
            "linesmith/v0.2.0".to_string()
        ]
    );
    assert_eq!(grouped[1].tags(), &["v0.1.0".to_string()]);
}

#[test]
fn empty_commit_or_name_is_unverified() {
    let err = group_pairs(vec![pair("", "v0.1.0")]).expect_err("empty commit");
    assert!(err.message().contains("unverified"), "{err:?}");
    let err = group_pairs(vec![pair("aa", "")]).expect_err("empty name");
    assert!(err.message().contains("unverified"), "{err:?}");
    let err = CommitTags::new(String::new(), vec![String::from("v")]).expect_err("new");
    assert!(err.message().contains("empty commit"), "{err:?}");
    let err = CommitTags::new(String::from("aa"), Vec::new()).expect_err("empty tags");
    assert!(err.message().contains("empty tag set"), "{err:?}");
}

#[test]
fn parse_ref_records_resolves_lightweight_and_annotated_tags() {
    let pairs = parse_ref_records(
        "refs/tags/v0.1.0\0commit\0aa\0\0\n\
         refs/tags/v0.2.0\0tag\0tt\0commit\0bb\n",
    )
    .expect("parse");
    assert_eq!(pairs, vec![pair("aa", "v0.1.0"), pair("bb", "v0.2.0")]);
    assert_eq!(parse_ref_records("").expect("empty"), vec![]);
}

#[test]
fn parse_ref_records_refuses_non_commit_tags() {
    let err = parse_ref_records("refs/tags/blob\0blob\0bb\0\0\n").expect_err("blob");
    assert!(err.message().contains("does not peel to a commit"), "{err:?}");
    let err = parse_ref_records("refs/tags/tb\0tag\0tt\0blob\0bb\n").expect_err("tag of blob");
    assert!(err.message().contains("does not peel to a commit"), "{err:?}");
    let err = parse_ref_records("refs/tags/v1\0commit\0\0\0\n").expect_err("empty object");
    assert!(err.message().contains("unverified"), "{err:?}");
    let err = parse_ref_records("refs/tags/v1\0tag\0\0commit\0bb\n").expect_err("empty tag object");
    assert!(err.message().contains("unverified"), "{err:?}");
}

#[test]
fn parse_ref_records_refuses_malformed_records() {
    let err = parse_ref_records("refs/tags/v1\0commit\0aa\n").expect_err("field count");
    assert!(err.message().contains("unparseable"), "{err:?}");
    let err = parse_ref_records("refs/heads/main\0commit\0aa\0\0\n").expect_err("not a tag ref");
    assert!(err.message().contains("unparseable tag ref"), "{err:?}");
    let err = parse_ref_records("refs/tags/\0commit\0aa\0\0\n").expect_err("empty name");
    assert!(err.message().contains("unparseable tag ref"), "{err:?}");
}

#[test]
fn parse_tag_suppression_finds_a_no_tags_remote() {
    let found = parse_tag_suppression("remote.origin.tagopt --no-tags\n").expect("parse");
    assert_eq!(found.as_deref(), Some("origin"));
    let found =
        parse_tag_suppression("remote.origin.tagopt --tags\nremote.upstream.tagopt --no-tags\n")
            .expect("parse");
    assert_eq!(found.as_deref(), Some("upstream"));
}

#[test]
fn parse_tag_suppression_accepts_fetching_configs() {
    assert_eq!(parse_tag_suppression("").expect("empty"), None);
    assert_eq!(
        parse_tag_suppression("remote.origin.tagopt --tags\n").expect("tags"),
        None
    );
}

#[test]
fn parse_tag_suppression_honors_last_value_per_remote() {
    let overridden =
        parse_tag_suppression("remote.origin.tagopt --no-tags\nremote.origin.tagopt --tags\n")
            .expect("parse");
    assert_eq!(overridden, None, "a local --tags overrides a global --no-tags");
    let suppressed =
        parse_tag_suppression("remote.origin.tagopt --tags\nremote.origin.tagopt --no-tags\n")
            .expect("parse");
    assert_eq!(suppressed.as_deref(), Some("origin"));
}

#[test]
fn shell_quote_neutralizes_metacharacters_and_leaves_plain_names_bare() {
    assert_eq!(shell_quote("origin"), "origin");
    assert_eq!(shell_quote("remote.origin.tagOpt"), "remote.origin.tagOpt");
    assert_eq!(shell_quote("foo$(cmd)"), "'foo$(cmd)'");
    assert_eq!(shell_quote("fo'o"), r"'fo'\''o'");
    assert_eq!(shell_quote(""), "''");
}

#[test]
fn parse_tag_suppression_rejects_unparseable_lines() {
    let err = parse_tag_suppression("garbage\n").expect_err("garbage");
    assert!(err.message().contains("unverified"), "{err:?}");
    let err = parse_tag_suppression("remote..tagopt --no-tags\n").expect_err("empty name");
    assert!(err.message().contains("unverified"), "{err:?}");
}

#[test]
fn parse_is_shallow_rejects_anything_but_true_or_false() {
    assert!(parse_is_shallow("true\n").expect("true"));
    assert!(!parse_is_shallow("false\n").expect("false"));
    let err = parse_is_shallow("yes\n").expect_err("yes");
    assert!(err.message().contains("unverified"), "{err:?}");
}

#[test]
fn parse_ls_remote_tags_skips_peeled_suffix_and_keeps_the_name() {
    let names = parse_ls_remote_tags(
        "abc\trefs/tags/v0.1.0\n\
         abc\trefs/tags/v0.1.0^{}\n\
         def\trefs/tags/pkg/v0.2.0\n",
    )
    .expect("parse");
    assert_eq!(names, vec!["pkg/v0.2.0", "v0.1.0"]);
    let peeled_only = parse_ls_remote_tags("abc\trefs/tags/v0.1.0^{}\n").expect("peeled-only");
    assert_eq!(peeled_only, vec!["v0.1.0"]);
    let empty = parse_ls_remote_tags("").expect("empty look");
    assert!(empty.is_empty());
    let commits = parse_ls_remote_tag_commits(
        "tagobj\trefs/tags/v0.1.0\n\
         commit\trefs/tags/v0.1.0^{}\n",
    )
    .expect("peeled wins");
    let found = commits
        .iter()
        .find(|(name, _)| name == "v0.1.0")
        .map(|(_, sha)| sha.as_str());
    assert_eq!(found, Some("commit"));
}

#[test]
fn parse_ls_remote_tags_rejects_malformed_lines() {
    let err = parse_ls_remote_tags("no-tab\n").expect_err("no tab");
    assert!(err.message().contains("unverified"), "{err:?}");
    let err = parse_ls_remote_tags("abc\trefs/heads/main\n").expect_err("not a tag");
    assert!(err.message().contains("unverified"), "{err:?}");
    let err = parse_ls_remote_tags("abc\trefs/tags/\n").expect_err("empty name");
    assert!(err.message().contains("unverified"), "{err:?}");
    let err = parse_ls_remote_tags("abc\trefs/tags/^{}\n").expect_err("peeled empty");
    assert!(err.message().contains("unverified"), "{err:?}");
}

#[test]
fn preferred_remote_picks_origin_even_when_it_is_not_first() {
    assert_eq!(preferred_remote("extra\norigin\n").as_deref(), Some("origin"));
    assert_eq!(preferred_remote("upstream\n").as_deref(), Some("upstream"));
    assert_eq!(preferred_remote(""), None);
}

#[test]
fn a_plain_line_does_not_replace_an_earlier_peeled_commit() {
    let commits = parse_ls_remote_tag_commits(
        "commit\trefs/tags/v0.1.0^{}\n\
         tagobj\trefs/tags/v0.1.0\n",
    )
    .expect("peeled first");
    assert_eq!(commits, vec![(String::from("v0.1.0"), String::from("commit"))]);
}

#[test]
fn a_suppression_refusal_quotes_a_remote_with_metacharacters() {
    let next = after_suppression_read(Ok(Some(String::from("remote.my$r.tagopt --no-tags\n"))));
    match next {
        TagLook::Done(Err(err)) => {
            let said = err.message();
            assert!(said.contains("'remote.my$r.tagOpt'"), "{said}");
            assert!(said.contains("`git fetch --tags -- 'my$r'`"), "{said}");
            assert!(said.ends_with("(commands use POSIX shell quoting; adapt for cmd.exe or PowerShell)"), "{said}");
        }
        other => panic!("expected a refusal, got {other:?}"),
    }
}

#[test]
fn a_plain_remote_gets_commands_without_a_quoting_note() {
    let next = after_suppression_read(Ok(Some(String::from("remote.origin.tagopt --no-tags\n"))));
    match next {
        TagLook::Done(Err(err)) => assert_eq!(
            err.message(),
            "unverified: remote \"origin\" is configured with tagOpt --no-tags, so this clone does not fetch tags; run `git config --replace-all remote.origin.tagOpt --tags`, then `git fetch --tags -- origin` before reading tags"
        ),
        other => panic!("expected a refusal, got {other:?}"),
    }
}
