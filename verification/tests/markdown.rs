use oakum::markdown::{closer, fence_run, opener, Fence};

fn fenced(text: &str) -> Vec<bool> {
    let mut fence = Fence::default();
    text.lines().map(|line| fence.observe(line)).collect()
}

fn run(line: &str) -> Option<(char, usize, String)> {
    fence_run(line)
}

#[test]
fn fence_run_needs_three_markers_under_four_columns() {
    assert_eq!(run("```"), Some(('`', 3, String::new())));
    assert_eq!(run("````md"), Some(('`', 4, String::from("md"))));
    assert_eq!(run("   ~~~ x"), Some(('~', 3, String::from(" x"))));
    assert_eq!(run("``"), None);
    assert_eq!(run("    ```"), None);
    assert_eq!(run("\t```"), None);
    assert_eq!(run("text"), None);
    assert_eq!(run(""), None);
}

#[test]
fn a_backtick_opener_rejects_a_backtick_in_its_info_string() {
    assert_eq!(opener("```lang`x"), None);
    assert_eq!(opener("~~~lang`x"), Some(('~', 3)));
    assert_eq!(opener("```sh"), Some(('`', 3)));
    assert_eq!(fenced("```lang`x\nafter"), vec![false, false]);
}

#[test]
fn a_closer_carries_nothing_but_whitespace() {
    assert_eq!(closer("```sh"), None);
    assert_eq!(closer("``` "), Some(('`', 3)));
    assert_eq!(closer("~~~~"), Some(('~', 4)));
}

#[test]
fn a_block_closes_only_on_its_own_marker_at_least_as_long() {
    assert_eq!(
        fenced("```text\n~~~\n```\ntail"),
        vec![true, true, true, false]
    );
    assert_eq!(
        fenced("````md\n```sh\n````\ntail"),
        vec![true, true, true, false]
    );
    assert_eq!(
        fenced("```text\n```sh\n```\ntail"),
        vec![true, true, true, false]
    );
    assert_eq!(fenced("````\n```\ntail"), vec![true, true, true]);
    assert_eq!(fenced("````\n````\ntail"), vec![true, true, false]);
}

#[test]
fn an_unclosed_fence_runs_to_the_end() {
    assert_eq!(fenced("```\nafter\nmore"), vec![true, true, true]);
    assert_eq!(fenced("    ```\nafter"), vec![false, false]);
}

#[test]
fn a_tab_after_spaces_pushes_past_four_columns() {
    assert_eq!(run(" \t```"), None);
    assert_eq!(run("  ```"), Some(('`', 3, String::new())));
}
