use oakum::write_set::{commit_ops, rollback_ops, CommitOp, PlannedWrite, RestoreOp, WriteSet, WriteSetFailure};

fn refusal_cause(probe: Result<bool, String>) -> String {
    match probe {
        Ok(true) => String::new(),
        Ok(false) => {
            String::from(" because DAC is not enforced for this process (running as root?)")
        }
        Err(failure) => format!("; the DAC probe could not tell why ({failure})"),
    }
}

fn write(path: &str, original: &str, next: &str) -> PlannedWrite {
    PlannedWrite::new(String::from(path), String::from(original), String::from(next))
}

#[test]
fn a_landed_refusal_names_what_the_probe_found() {
    assert_eq!(refusal_cause(Ok(true)), "");
    assert_eq!(
        refusal_cause(Ok(false)),
        " because DAC is not enforced for this process (running as root?)"
    );
    assert_eq!(
        refusal_cause(Err(String::from("chmod x to 555: EPERM"))),
        "; the DAC probe could not tell why (chmod x to 555: EPERM)"
    );
}

#[test]
fn read_through_returns_staged_text_without_reading_disk() {
    let mut write_set = WriteSet::new();
    write_set.put_write(
        String::from("manifest.toml"),
        String::from("disk"),
        String::from("staged"),
    );
    let (original, next) = write_set.staged_text("manifest.toml").expect("read-through");
    assert_eq!(original, "disk");
    assert_eq!(next, "staged");
    assert_eq!(write_set.staged_text("other.toml"), None);
}

#[test]
fn repeated_staging_keeps_the_first_original() {
    let mut write_set = WriteSet::new();
    write_set.put_write(String::from("Cargo.toml"), String::from("0"), String::from("1"));
    write_set.put_write(String::from("Cargo.toml"), String::from("ignored"), String::from("2"));
    write_set.extend(vec![write("Cargo.toml", "also-ignored", "3")]);
    let staged = write_set
        .writes()
        .into_iter()
        .find(|write| write.path() == "Cargo.toml")
        .expect("staged");
    assert_eq!(staged.original(), "0");
    write_set.extend(vec![PlannedWrite::create(
        String::from("CHANGELOG.md"),
        String::from("# Changelog\n"),
    )]);
    write_set.extend(vec![write("CHANGELOG.md", "ignored", "# Changelog\n\n## 0.1.0\n")]);
    let staged = write_set
        .writes()
        .into_iter()
        .find(|write| write.path() == "CHANGELOG.md")
        .expect("staged");
    assert!(staged.created());
    assert_eq!(staged.next(), "# Changelog\n\n## 0.1.0\n");
}

#[test]
fn staging_order_does_not_change_the_final_write_set() {
    let inherited = write("a.txt", "a0", "a1");
    let member = write("b.txt", "b0", "b1");
    let lock = write("Cargo.lock", "l0", "l1");

    let mut forward = WriteSet::new();
    forward.extend(vec![inherited.clone(), member.clone()]);
    forward.extend(vec![lock.clone()]);

    let mut reverse = WriteSet::new();
    reverse.extend(vec![lock.clone()]);
    reverse.extend(vec![member.clone(), inherited.clone()]);

    assert_eq!(forward.writes(), reverse.writes());
}

#[test]
fn paths_are_ordered_component_by_component() {
    let mut set = WriteSet::new();
    set.extend(vec![write("a-b", "", "x"), write("a/b", "", "y"), write("./a/b", "", "z")]);
    let paths: Vec<String> = set.writes().iter().map(|w| w.path().to_owned()).collect();
    assert_eq!(
        paths,
        vec![String::from("./a/b"), String::from("a/b"), String::from("a-b")]
    );
    assert_eq!(set.staged_text("a/./b").expect("one file").1, "y");
}

#[test]
fn a_clean_rollback_lists_nothing() {
    let failure = WriteSetFailure::new(
        String::from("failed to replace `a.toml`: nope"),
        Vec::new(),
        Vec::new(),
    );
    assert_eq!(failure.message(), "failed to replace `a.toml`: nope");
}

#[test]
fn every_unrestored_path_gets_its_own_line_in_a_stable_order() {
    let failure = WriteSetFailure::new(
        String::from("failed to replace `a.toml`: nope"),
        vec![String::from("b.md"), String::from("a.md (restore failed: x)")],
        Vec::new(),
    );
    assert_eq!(
        failure.message(),
        "failed to replace `a.toml`: nope\n2 file(s) left changed:\n  a.md (restore failed: x)\n  b.md"
    );
}

#[test]
fn unswept_directories_are_counted_apart() {
    let failure = WriteSetFailure::new(
        String::from("boom"),
        Vec::new(),
        vec![String::from("crates")],
    );
    assert_eq!(
        failure.message(),
        "boom\n1 directory could not be checked for staging files:\n  crates"
    );
}

fn op_text(o: &CommitOp) -> String {
    match o {
        CommitOp::Create { path, body } => format!("create {path} = {body}"),
        CommitOp::Replace { path, original, body } => format!("replace {path} {original} -> {body}"),
        CommitOp::Delete { path, original } => format!("delete {path} {original}"),
    }
}

fn restore_text(r: &RestoreOp) -> String {
    match r {
        RestoreOp::Put { path, body } => format!("put {path} = {body}"),
        RestoreOp::Remove { path } => format!("remove {path}"),
    }
}

#[test]
fn commit_steps_skip_unchanged_files_and_delete_last() {
    let writes = vec![
        write("a.json", "1", "2"),
        write("b.json", "same", "same"),
        PlannedWrite::create(String::from("c.md"), String::from("new")),
    ];
    let deletes = vec![(String::from(".changeset/x.md"), String::from("body"))];
    let ops = commit_ops(&writes, &deletes).unwrap();
    let texts: Vec<String> = ops.iter().map(op_text).collect();
    assert_eq!(
        texts,
        vec![
            String::from("replace a.json 1 -> 2"),
            String::from("create c.md = new"),
            String::from("delete .changeset/x.md body"),
        ]
    );
}

#[test]
fn commit_steps_refuse_a_path_both_written_and_deleted() {
    let writes = vec![write("a.json", "1", "2")];
    let deletes = vec![(String::from("a.json"), String::from("1"))];
    assert_eq!(
        commit_ops(&writes, &deletes).unwrap_err(),
        "write-set path appears in both writes and deletes: a.json"
    );
}

#[test]
fn rollback_undoes_the_landed_steps_last_first() {
    let writes = vec![
        write("a.json", "1", "2"),
        PlannedWrite::create(String::from("c.md"), String::from("new")),
    ];
    let deletes = vec![(String::from("d.md"), String::from("old"))];
    let ops = commit_ops(&writes, &deletes).unwrap();
    let all: Vec<String> = rollback_ops(&ops, 3).iter().map(restore_text).collect();
    assert_eq!(
        all,
        vec![
            String::from("put d.md = old"),
            String::from("remove c.md"),
            String::from("put a.json = 1"),
        ]
    );
    let two: Vec<String> = rollback_ops(&ops, 2).iter().map(restore_text).collect();
    assert_eq!(two, vec![String::from("remove c.md"), String::from("put a.json = 1")]);
    assert!(rollback_ops(&ops, 0).is_empty());
}
