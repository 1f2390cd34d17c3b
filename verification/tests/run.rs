use diff_man::diff::{
    Change, Diff, DiffComposition, DiffErrorKind, DiffFormat, DiffHunk, LineChange,
};
use diff_man::patch::Mode;
use diff_man::run::{Action, Event};
use diff_man::DiffManager;
use std::collections::BTreeMap;

fn replace_first_line(path: &str, old: &str, new: &str, keep: Option<&str>) -> Diff {
    let mut change = Vec::new();
    if let Some(kept) = keep {
        change.push(LineChange { kind: Change::Default, content: kept.to_string() });
    }
    change.push(LineChange { kind: Change::Deleted, content: old.to_string() });
    change.push(LineChange { kind: Change::Added, content: new.to_string() });
    let len = change.len() - 1;
    Diff {
        command: None,
        index: None,
        path: path.to_string(),
        hunk: vec![DiffHunk { old_line: 1, old_len: len, new_line: 1, new_len: len, change }],
    }
}

fn two_files() -> DiffComposition {
    DiffComposition {
        format: DiffFormat::GitUdiff,
        diff: vec![
            replace_first_line("one.txt", "b", "B", Some("a")),
            replace_first_line("dir/two.txt", "x", "y", None),
        ],
    }
}

/// Runs a composition over files held in memory, and records the requests.
fn drive(
    com: &DiffComposition,
    mode: Mode,
    files: &mut BTreeMap<String, String>,
    log: &mut Vec<String>,
) -> Result<(), diff_man::diff::DiffError> {
    let mut at = 0;
    let mut event = Event::Start;
    loop {
        let (next, action) = com.advance(mode, at, event);
        at = next;
        event = match action {
            Action::Load(path) => {
                log.push(format!("load {path}"));
                match files.get(&path) {
                    Some(text) => Event::Loaded(text.clone()),
                    None => Event::Failed(std::io::Error::other("no such file")),
                }
            }
            Action::Store(path, text) => {
                log.push(format!("store {path}"));
                files.insert(path, text);
                Event::Stored
            }
            Action::Finish(result) => return result,
        };
    }
}

fn store(files: &[(&str, &str)]) -> BTreeMap<String, String> {
    files.iter().map(|(path, text)| (path.to_string(), text.to_string())).collect()
}

#[test]
fn a_run_patches_each_file_in_order() {
    let com = two_files();
    let mut files = store(&[("one.txt", "a\nb\n"), ("dir/two.txt", "x\n"), ("other", "o\n")]);
    let mut log = Vec::new();
    drive(&com, Mode::Apply, &mut files, &mut log).unwrap();
    assert_eq!(log, vec!["load one.txt", "store one.txt", "load dir/two.txt", "store dir/two.txt"]);
    assert_eq!(files, store(&[("one.txt", "a\nB\n"), ("dir/two.txt", "y\n"), ("other", "o\n")]));

    let mut log = Vec::new();
    drive(&com, Mode::Revert, &mut files, &mut log).unwrap();
    assert_eq!(log, vec!["load one.txt", "store one.txt", "load dir/two.txt", "store dir/two.txt"]);
    assert_eq!(files, store(&[("one.txt", "a\nb\n"), ("dir/two.txt", "x\n"), ("other", "o\n")]));
}

#[test]
fn a_run_stops_at_the_first_failure_and_keeps_what_it_wrote() {
    let com = two_files();
    let mut files = store(&[("one.txt", "a\nb\n"), ("dir/two.txt", "")]);
    let mut log = Vec::new();
    let e = drive(&com, Mode::Apply, &mut files, &mut log).unwrap_err();
    assert!(matches!(e.kind, DiffErrorKind::InvalidIndex(0)));
    assert_eq!(log, vec!["load one.txt", "store one.txt", "load dir/two.txt"]);
    assert_eq!(files, store(&[("one.txt", "a\nB\n"), ("dir/two.txt", "")]));

    let mut files = store(&[("dir/two.txt", "x\n")]);
    let mut log = Vec::new();
    let e = drive(&com, Mode::Apply, &mut files, &mut log).unwrap_err();
    assert!(matches!(e.kind, DiffErrorKind::IOError(_)));
    assert_eq!(e.reason, "cannot read or write");
    assert_eq!(log, vec!["load one.txt"]);
    assert_eq!(files, store(&[("dir/two.txt", "x\n")]));
}

#[test]
fn steps_of_a_run() {
    let com = two_files();
    let (at, action) = DiffManager::apply(&com, 7, Event::Start);
    assert_eq!(at, 0);
    assert!(matches!(action, Action::Load(path) if path == "one.txt"));

    let (at, action) = DiffManager::apply(&com, 0, Event::Loaded("a\nb\n".to_string()));
    assert_eq!(at, 0);
    assert!(matches!(action, Action::Store(path, text) if path == "one.txt" && text == "a\nB\n"));

    let (at, action) = DiffManager::revert(&com, 0, Event::Loaded("a\nB\n".to_string()));
    assert_eq!(at, 0);
    assert!(matches!(action, Action::Store(path, text) if path == "one.txt" && text == "a\nb\n"));

    let (at, action) = DiffManager::revert(&com, 0, Event::Loaded("A\nB\n".to_string()));
    assert_eq!(at, 0);
    assert!(matches!(
        action,
        Action::Finish(Err(e)) if matches!(&e.kind, DiffErrorKind::UnmatchedContent(a, b) if a == "a" && b == "A")
    ));

    let (at, action) = com.apply(0, Event::Stored);
    assert_eq!(at, 1);
    assert!(matches!(action, Action::Load(path) if path == "dir/two.txt"));

    let (at, action) = com.revert(1, Event::Stored);
    assert_eq!(at, 2);
    assert!(matches!(action, Action::Finish(Ok(()))));

    let (at, action) = com.apply(2, Event::Stored);
    assert_eq!(at, 2);
    assert!(matches!(action, Action::Finish(Ok(()))));

    let (at, action) = com.apply(2, Event::Loaded("x\n".to_string()));
    assert_eq!(at, 2);
    assert!(matches!(action, Action::Finish(Ok(()))));

    let (at, action) = com.apply(1, Event::Failed(std::io::Error::other("disk")));
    assert_eq!(at, 1);
    assert!(matches!(action, Action::Finish(Err(e)) if matches!(e.kind, DiffErrorKind::IOError(_))));
}

#[test]
fn an_empty_composition_finishes_at_once() {
    let com = DiffComposition { format: DiffFormat::GitUdiff, diff: vec![] };
    let (at, action) = com.apply(0, Event::Start);
    assert_eq!(at, 0);
    assert!(matches!(action, Action::Finish(Ok(()))));
}

#[test]
fn an_io_error_becomes_a_diff_error() {
    let e = diff_man::diff::DiffError::from(std::io::Error::other("disk"));
    assert_eq!(e.reason, "cannot read or write");
    assert!(matches!(e.kind, DiffErrorKind::IOError(cause) if cause.to_string() == "disk"));
}

#[test]
fn a_parsed_text_of_two_files_patches_each_file_with_its_own_hunks() {
    let src = "diff --git a/x b/x\n--- a/x\n+++ b/x\n@@ -1,1 +1,1 @@\n-a\n+b\ndiff --git a/y b/y\n--- a/y\n+++ b/y\n@@ -1,1 +1,1 @@\n-c\n+d\n";
    let com = diff_man::parser::Parser::parse_git_udiff(src).unwrap();
    let mut files = store(&[("x", "a\n"), ("y", "c\n")]);
    let mut log = Vec::new();
    drive(&com, Mode::Apply, &mut files, &mut log).unwrap();
    assert_eq!(files, store(&[("x", "b\n"), ("y", "d\n")]));
    drive(&com, Mode::Revert, &mut files, &mut log).unwrap();
    assert_eq!(files, store(&[("x", "a\n"), ("y", "c\n")]));
}
