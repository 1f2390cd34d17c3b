use diff_man::diff::{Change, Diff, DiffErrorKind, DiffHunk, LineChange};
use diff_man::parser::Parser;
use diff_man::patch::Mode;

fn change(kind: Change, content: &str) -> LineChange {
    LineChange { kind, content: content.to_string() }
}

fn keep(content: &str) -> LineChange {
    change(Change::Default, content)
}

fn add(content: &str) -> LineChange {
    change(Change::Added, content)
}

fn delete(content: &str) -> LineChange {
    change(Change::Deleted, content)
}

fn hunk(old_line: usize, new_line: usize, change: Vec<LineChange>) -> DiffHunk {
    let old_len = change.iter().filter(|c| c.kind != Change::Added).count();
    let new_len = change.iter().filter(|c| c.kind != Change::Deleted).count();
    DiffHunk { old_line, old_len, new_line, new_len, change }
}

fn diff(hunk: Vec<DiffHunk>) -> Diff {
    Diff { command: None, index: None, path: "file.txt".to_string(), hunk }
}

fn invalid_index(result: Result<String, diff_man::diff::DiffError>) -> usize {
    let e = result.unwrap_err();
    match e.kind {
        DiffErrorKind::InvalidIndex(index) => {
            assert_eq!(e.reason, format!("cannot get line at {index}"));
            index
        }
        other => panic!("unexpected error {:?}", other),
    }
}

fn unmatched(result: Result<String, diff_man::diff::DiffError>) -> (String, String) {
    let e = result.unwrap_err();
    match e.kind {
        DiffErrorKind::UnmatchedContent(expected, found) => {
            assert_eq!(
                e.reason,
                format!(
                    "context line differs from the text, [expected: {expected}] [found: {found}]"
                )
            );
            (expected, found)
        }
        other => panic!("unexpected error {:?}", other),
    }
}

#[test]
fn apply_replaces_one_line_and_copies_the_rest() {
    let d = diff(vec![hunk(1, 1, vec![keep("a"), delete("b"), add("x")])]);
    assert_eq!(d.apply("a\nb\nc\n").unwrap(), "a\nx\nc\n");
    assert_eq!(d.revert("a\nx\nc\n").unwrap(), "a\nb\nc\n");
}

#[test]
fn patch_is_apply_or_revert_by_mode() {
    let d = diff(vec![hunk(1, 1, vec![keep("a"), delete("b"), add("x")])]);
    assert_eq!(d.patch("a\nb\nc\n", Mode::Apply).unwrap(), "a\nx\nc\n");
    assert_eq!(d.patch("a\nx\nc\n", Mode::Revert).unwrap(), "a\nb\nc\n");
}

#[test]
fn two_hunks_leave_the_lines_around_them_alone() {
    let d = diff(vec![
        hunk(2, 2, vec![keep("2"), delete("3"), add("three"), add("3.5"), keep("4")]),
        hunk(8, 9, vec![keep("8"), delete("9"), keep("10")]),
    ]);
    let before = "1\n2\n3\n4\n5\n6\n7\n8\n9\n10\n";
    let after = "1\n2\nthree\n3.5\n4\n5\n6\n7\n8\n10\n";
    assert_eq!(d.apply(before).unwrap(), after);
    assert_eq!(d.revert(after).unwrap(), before);
}

#[test]
fn a_diff_without_hunks_copies_the_text() {
    let d = diff(vec![]);
    assert_eq!(d.apply("a\nb\n").unwrap(), "a\nb\n");
    assert_eq!(d.revert("a\nb\n").unwrap(), "a\nb\n");
    assert_eq!(d.apply("").unwrap(), "");
}

#[test]
fn every_line_of_the_result_is_terminated() {
    let d = diff(vec![hunk(1, 1, vec![keep("a")])]);
    assert_eq!(d.apply("a\nb").unwrap(), "a\nb\n");
    assert_eq!(d.apply("a\r\nb\r\n").unwrap(), "a\nb\n");
    assert_eq!(d.revert("a").unwrap(), "a\n");
    let none = diff(vec![]);
    assert_eq!(none.apply("a\n\n").unwrap(), "a\n\n");
    assert_eq!(none.apply("\n").unwrap(), "\n");
}

#[test]
fn apply_trusts_context_lines_and_revert_checks_them() {
    let d = diff(vec![hunk(1, 1, vec![keep("recorded"), add("new")])]);
    assert_eq!(d.apply("found\nrest\n").unwrap(), "found\nnew\nrest\n");
    assert_eq!(
        unmatched(d.revert("found\nnew\nrest\n")),
        ("recorded".to_string(), "found".to_string())
    );
    assert_eq!(d.revert("recorded\nnew\nrest\n").unwrap(), "recorded\nrest\n");
}

#[test]
fn revert_rejects_an_altered_context_line() {
    let d = diff(vec![hunk(1, 1, vec![keep("a"), delete("b"), add("x")])]);
    assert_eq!(unmatched(d.revert("A\nx\nc\n")), ("a".to_string(), "A".to_string()));
    let d = diff(vec![hunk(2, 2, vec![delete("b"), add("x"), keep("c")])]);
    assert_eq!(d.apply("a\nb\nc\n").unwrap(), "a\nx\nc\n");
    assert_eq!(unmatched(d.revert("a\nx\nc \n")), ("c".to_string(), "c ".to_string()));
}

#[test]
fn revert_does_not_check_what_it_drops() {
    let d = diff(vec![hunk(1, 1, vec![delete("old"), add("new")])]);
    assert_eq!(d.revert("anything\n").unwrap(), "old\n");
    assert_eq!(d.apply("anything\n").unwrap(), "new\n");
}

#[test]
fn a_hunk_past_the_end_of_the_text_is_out_of_range() {
    let d = diff(vec![hunk(5, 5, vec![keep("e")])]);
    assert_eq!(invalid_index(d.apply("a\nb\nc\n")), 3);
    assert_eq!(invalid_index(d.revert("a\nb\nc\n")), 3);

    let d = diff(vec![hunk(3, 3, vec![keep("c"), keep("d")])]);
    assert_eq!(invalid_index(d.apply("a\nb\nc\n")), 3);
    assert_eq!(invalid_index(d.revert("a\nb\nc\n")), 3);

    let d = diff(vec![hunk(3, 3, vec![delete("c"), delete("d")])]);
    assert_eq!(invalid_index(d.apply("a\nb\nc\n")), 3);
    assert_eq!(d.revert("a\nb\n").unwrap(), "a\nb\nc\nd\n");

    let d = diff(vec![hunk(3, 3, vec![add("c"), add("d")])]);
    assert_eq!(invalid_index(d.revert("a\nb\nc\n")), 3);
    assert_eq!(d.apply("a\nb\n").unwrap(), "a\nb\nc\nd\n");

    let d = diff(vec![hunk(1, 1, vec![keep("a")])]);
    assert_eq!(invalid_index(d.apply("")), 0);

    let d = diff(vec![hunk(usize::MAX, usize::MAX, vec![])]);
    assert_eq!(invalid_index(d.apply("a\n")), 1);
}

#[test]
fn a_hunk_may_begin_right_behind_the_last_line() {
    let d = diff(vec![hunk(4, 4, vec![add("d")])]);
    assert_eq!(d.apply("a\nb\nc\n").unwrap(), "a\nb\nc\nd\n");
    assert_eq!(d.revert("a\nb\nc\nd\n").unwrap(), "a\nb\nc\n");
}

#[test]
fn a_hunk_at_line_zero_begins_at_the_first_line() {
    let d = diff(vec![hunk(0, 1, vec![add("a"), add("b")])]);
    assert_eq!(d.apply("").unwrap(), "a\nb\n");
    assert_eq!(d.revert("a\nb\n").unwrap(), "");
    assert_eq!(d.apply("c\n").unwrap(), "a\nb\nc\n");
}

#[test]
fn a_hunk_behind_the_cursor_goes_on_at_the_cursor() {
    let d = diff(vec![
        hunk(1, 1, vec![keep("a"), keep("b")]),
        hunk(1, 1, vec![delete("c"), add("x")]),
    ]);
    assert_eq!(d.apply("a\nb\nc\nd\n").unwrap(), "a\nb\nx\nd\n");
    assert_eq!(d.revert("a\nb\nx\nd\n").unwrap(), "a\nb\nc\nd\n");
}

#[test]
fn what_truthful_hunks_apply_they_revert() {
    let d = diff(vec![
        hunk(2, 2, vec![delete("b"), add("B"), add("B2"), keep("c")]),
        hunk(5, 6, vec![add("d2"), keep("e"), delete("f")]),
    ]);
    let before = "a\nb\nc\nd\ne\nf\ng\n";
    let after = d.apply(before).unwrap();
    assert_eq!(after, "a\nB\nB2\nc\nd\nd2\ne\ng\n");
    assert_eq!(d.revert(&after).unwrap(), before);

    let unterminated = "a\r\nb\nc\nd\ne\nf\ng";
    let after = d.apply(unterminated).unwrap();
    assert_eq!(d.revert(&after).unwrap(), before);
}

#[test]
fn a_context_line_that_ends_with_a_carriage_return_does_not_come_back() {
    let d = diff(vec![hunk(1, 1, vec![keep("k\r")])]);
    let after = d.apply("k\r\r\n").unwrap();
    assert_eq!(after, "k\r\n");
    assert_eq!(unmatched(d.revert(&after)), ("k\r".to_string(), "k".to_string()));
}

#[test]
fn recorded_lengths_are_not_consulted() {
    let mut d = diff(vec![hunk(1, 1, vec![keep("a"), delete("b"), add("x")])]);
    d.hunk[0].old_len = 40;
    d.hunk[0].new_len = 0;
    assert_eq!(d.apply("a\nb\nc\n").unwrap(), "a\nx\nc\n");
    assert_eq!(d.revert("a\nx\nc\n").unwrap(), "a\nb\nc\n");
}

#[test]
fn parsed_diff_round_trips() {
    let src = "diff --git a/file.txt b/file.txt\nindex 1111111..2222222 100644\n--- a/file.txt\n+++ b/file.txt\n@@ -1,4 +1,5 @@\n one\n-two\n+2\n+2.5\n three\n four\n@@ -7,3 +8,2 @@ section\n seven\n-eight\n nine\n";
    let before = "one\ntwo\nthree\nfour\nfive\nsix\nseven\neight\nnine\nten\n";
    let after = "one\n2\n2.5\nthree\nfour\nfive\nsix\nseven\nnine\nten\n";
    let com = Parser::parse_git_udiff(src).unwrap();
    let d = &com.diff[0];
    assert_eq!(d.apply(before).unwrap(), after);
    assert_eq!(d.revert(after).unwrap(), before);
    assert_eq!(d.revert(&d.apply(before).unwrap()).unwrap(), before);
}
